use function_host::CookieData;
use function_host::HostError;
use function_host::RequestData;
use function_host::Resource;
use function_host::ResourceKind;
use function_host::ResourceTable;
use function_host::SameSite;
use function_host::host;

fn sample_request() -> RequestData {
    RequestData {
        method: b"GET".to_vec(),
        uri: b"/hello/Ada".to_vec(),
        headers: vec![
            (b"Content-Type".to_vec(), b"text/plain".to_vec()),
            (b"Cookie".to_vec(), b"session=abc; theme=dark".to_vec()),
        ],
        params: vec![(b"name".to_vec(), b"Ada".to_vec())],
        body: b"payload".to_vec(),
    }
}

#[test]
fn insert_get_remove_returns_the_value_exactly_once() {
    let mut t = ResourceTable::new();
    let c = CookieData::new(b"id".to_vec(), b"42".to_vec());
    let h = t.insert(Resource::Cookie(c)).unwrap();
    assert_eq!(h, 1);

    match t.get(h, ResourceKind::Cookie).unwrap() {
        Resource::Cookie(c) => assert_eq!(c.value, b"42".to_vec()),
        _ => panic!("wrong kind stored"),
    }

    match t.remove(h, ResourceKind::Cookie).unwrap() {
        Resource::Cookie(c) => assert_eq!(c.name, b"id".to_vec()),
        _ => panic!("wrong kind removed"),
    }

    // The handle is spent: a second remove fails.
    assert!(matches!(
        t.remove(h, ResourceKind::Cookie),
        Err(HostError::InvalidHandle)
    ));
}

#[test]
fn wrong_kind_access_is_an_invalid_handle_error() {
    let mut t = ResourceTable::new();
    let h = t
        .insert(Resource::Cookie(CookieData::new(b"a".to_vec(), b"b".to_vec())))
        .unwrap();
    assert!(t.get(h, ResourceKind::Response).is_err());
    assert!(t.remove(h, ResourceKind::Request).is_err());
    // The entry is still there under its right kind.
    assert!(t.get(h, ResourceKind::Cookie).is_ok());
}

#[test]
fn handles_are_monotonic_and_never_reused() {
    let mut t = ResourceTable::new();
    let h1 = t
        .insert(Resource::Cookie(CookieData::new(b"a".to_vec(), b"1".to_vec())))
        .unwrap();
    let h2 = t
        .insert(Resource::Cookie(CookieData::new(b"b".to_vec(), b"2".to_vec())))
        .unwrap();
    assert!(h2 > h1);
    t.remove(h1, ResourceKind::Cookie).unwrap();
    let h3 = t
        .insert(Resource::Cookie(CookieData::new(b"c".to_vec(), b"3".to_vec())))
        .unwrap();
    assert!(h3 > h2, "a removed handle's value must not come back");
}

#[test]
fn handles_have_no_cross_table_validity() {
    let mut a = ResourceTable::new();
    let _ = a
        .insert(Resource::Cookie(CookieData::new(b"a".to_vec(), b"1".to_vec())))
        .unwrap();
    let _ = a
        .insert(Resource::Cookie(CookieData::new(b"b".to_vec(), b"2".to_vec())))
        .unwrap();
    let h3 = a
        .insert(Resource::Cookie(CookieData::new(b"c".to_vec(), b"3".to_vec())))
        .unwrap();

    // A different invocation's table has never allocated h3.
    let mut b = ResourceTable::new();
    let _ = b
        .insert(Resource::Request(sample_request()))
        .unwrap();
    assert_eq!(b.get(h3, ResourceKind::Cookie).err(), Some(HostError::InvalidHandle));
    assert!(matches!(
        b.remove(h3, ResourceKind::Cookie),
        Err(HostError::InvalidHandle)
    ));
}

fn table_with_request() -> (ResourceTable, u32) {
    let mut t = ResourceTable::new();
    let h = t.insert(Resource::Request(sample_request())).unwrap();
    (t, h)
}

#[test]
fn request_reads_are_length_then_copy() {
    let (t, h) = table_with_request();
    let n = host::request_method_len(&t, h).unwrap();
    assert_eq!(n, 3);
    let mut buf = vec![0u8; n as usize];
    host::request_method_copy(&t, h, &mut buf).unwrap();
    assert_eq!(buf, b"GET".to_vec());

    let n = host::request_uri_len(&t, h).unwrap() as usize;
    let mut buf = vec![0u8; n];
    host::request_uri_copy(&t, h, &mut buf).unwrap();
    assert_eq!(buf, b"/hello/Ada".to_vec());

    let n = host::request_body_len(&t, h).unwrap() as usize;
    let mut buf = vec![0u8; n];
    host::request_body_copy(&t, h, &mut buf).unwrap();
    assert_eq!(buf, b"payload".to_vec());
}

#[test]
fn a_short_buffer_is_an_invalid_length_error_and_left_alone() {
    let (t, h) = table_with_request();
    let mut buf = vec![9u8; 2];
    assert_eq!(
        host::request_method_copy(&t, h, &mut buf),
        Err(HostError::InvalidLength)
    );
    assert_eq!(buf, vec![9, 9]);
}

#[test]
fn an_oversized_buffer_keeps_its_tail() {
    let (t, h) = table_with_request();
    let mut buf = vec![7u8; 5];
    host::request_method_copy(&t, h, &mut buf).unwrap();
    assert_eq!(buf, vec![b'G', b'E', b'T', 7, 7]);
}

#[test]
fn header_lookup_ignores_ascii_case_and_absent_reads_empty() {
    let (t, h) = table_with_request();
    assert_eq!(host::request_header_len(&t, h, b"content-type").unwrap(), 10);
    assert_eq!(host::request_header_len(&t, h, b"CONTENT-TYPE").unwrap(), 10);
    assert_eq!(host::request_header_len(&t, h, b"x-missing").unwrap(), 0);
}

#[test]
fn param_lookup_is_exact() {
    let (t, h) = table_with_request();
    assert_eq!(host::request_param_len(&t, h, b"name").unwrap(), 3);
    let mut buf = vec![0u8; 3];
    host::request_param_copy(&t, h, b"name", &mut buf).unwrap();
    assert_eq!(buf, b"Ada".to_vec());
    assert_eq!(host::request_param_len(&t, h, b"NAME").unwrap(), 0);
}

#[test]
fn cookie_lookup_reads_the_cookie_header() {
    let (t, h) = table_with_request();
    assert_eq!(host::request_cookie_len(&t, h, b"session").unwrap(), 3);
    let n = host::request_cookie_len(&t, h, b"theme").unwrap() as usize;
    let mut buf = vec![0u8; n];
    host::request_cookie_copy(&t, h, b"theme", &mut buf).unwrap();
    assert_eq!(buf, b"dark".to_vec());
    assert_eq!(host::request_cookie_len(&t, h, b"missing").unwrap(), 0);
}

#[test]
fn invalid_utf8_names_are_refused() {
    let (mut t, h) = table_with_request();
    assert_eq!(
        host::request_header_len(&t, h, b"\xff\xfe"),
        Err(HostError::InvalidUtf8)
    );
    assert_eq!(
        host::cookie_new(&mut t, b"\xff", b"v"),
        Err(HostError::InvalidUtf8)
    );
}

#[test]
fn response_new_validates_the_status_range() {
    let mut t = ResourceTable::new();
    assert_eq!(
        host::response_new(&mut t, 99),
        Err(HostError::InvalidArgument)
    );
    assert_eq!(
        host::response_new(&mut t, 600),
        Err(HostError::InvalidArgument)
    );
    let h = host::response_new(&mut t, 200).unwrap();
    assert_eq!(host::response_status(&t, h).unwrap(), 200);
}

#[test]
fn response_double_free_is_an_invalid_handle_error() {
    let mut t = ResourceTable::new();
    let h = host::response_new(&mut t, 204).unwrap();
    host::response_free(&mut t, h).unwrap();
    assert_eq!(host::response_free(&mut t, h), Err(HostError::InvalidHandle));
}

#[test]
fn response_headers_obey_last_write_wins() {
    let mut t = ResourceTable::new();
    let h = host::response_new(&mut t, 200).unwrap();
    host::response_set_header(&mut t, h, b"X-Tag", b"one").unwrap();
    host::response_set_header(&mut t, h, b"x-tag", b"two").unwrap();
    assert_eq!(host::response_header_len(&t, h, b"X-TAG").unwrap(), 3);
    let mut buf = vec![0u8; 3];
    host::response_header_copy(&t, h, b"X-Tag", &mut buf).unwrap();
    assert_eq!(buf, b"two".to_vec());
}

#[test]
fn response_body_is_replaced_whole() {
    let mut t = ResourceTable::new();
    let h = host::response_new(&mut t, 200).unwrap();
    host::response_set_body(&mut t, h, b"first").unwrap();
    host::response_set_body(&mut t, h, b"second").unwrap();
    let n = host::response_body_len(&t, h).unwrap() as usize;
    let mut buf = vec![0u8; n];
    host::response_body_copy(&t, h, &mut buf).unwrap();
    assert_eq!(buf, b"second".to_vec());
}

#[test]
fn cookie_attributes_build_up_and_transfer_into_the_response() {
    let mut t = ResourceTable::new();
    let rh = host::response_new(&mut t, 200).unwrap();
    let ch = host::cookie_new(&mut t, b"session", b"abc").unwrap();
    host::cookie_set_http_only(&mut t, ch, true).unwrap();
    host::cookie_set_secure(&mut t, ch, true).unwrap();
    host::cookie_set_max_age(&mut t, ch, 3600).unwrap();
    host::cookie_set_same_site(&mut t, ch, 1).unwrap();
    host::cookie_set_domain(&mut t, ch, b"example.test").unwrap();
    host::cookie_set_path(&mut t, ch, b"/app").unwrap();

    host::response_add_cookie(&mut t, rh, ch).unwrap();

    // Ownership transferred: the cookie handle is retired.
    assert_eq!(
        host::cookie_set_secure(&mut t, ch, false),
        Err(HostError::InvalidHandle)
    );
    assert_eq!(host::cookie_free(&mut t, ch), Err(HostError::InvalidHandle));

    match t.get(rh, ResourceKind::Response).unwrap() {
        Resource::Response(resp) => {
            assert_eq!(resp.cookies.len(), 1);
            let c = &resp.cookies[0];
            assert_eq!(c.name, b"session".to_vec());
            assert_eq!(c.value, b"abc".to_vec());
            assert!(c.http_only);
            assert!(c.secure);
            assert_eq!(c.max_age_secs, Some(3600));
            assert_eq!(c.same_site, Some(SameSite::Lax));
            assert_eq!(c.domain, Some(b"example.test".to_vec()));
            assert_eq!(c.path, Some(b"/app".to_vec()));
        }
        _ => panic!("response expected"),
    }
}

#[test]
fn unknown_same_site_tag_is_an_invalid_argument() {
    let mut t = ResourceTable::new();
    let ch = host::cookie_new(&mut t, b"n", b"v").unwrap();
    assert_eq!(
        host::cookie_set_same_site(&mut t, ch, 3),
        Err(HostError::InvalidArgument)
    );
}

#[test]
fn removing_a_cookie_retires_its_handle_and_records_the_removal() {
    let mut t = ResourceTable::new();
    let rh = host::response_new(&mut t, 200).unwrap();
    let c1 = host::cookie_new(&mut t, b"tok", b"old").unwrap();
    host::response_add_cookie(&mut t, rh, c1).unwrap();
    let c2 = host::cookie_new(&mut t, b"tok", b"gone").unwrap();
    host::response_remove_cookie(&mut t, rh, c2).unwrap();
    assert_eq!(host::cookie_free(&mut t, c2), Err(HostError::InvalidHandle));
    match t.get(rh, ResourceKind::Response).unwrap() {
        Resource::Response(resp) => {
            assert!(resp.cookies.is_empty(), "the same-named cookie left the set");
            assert_eq!(resp.removed_cookies.len(), 1);
            assert_eq!(resp.removed_cookies[0].value, b"gone".to_vec());
        }
        _ => panic!("response expected"),
    }
}
