//! The host call surface: the operations sandboxed code may invoke.
//!
//! Every operation works on the invocation's resource table through a
//! handle and returns a typed error instead of aborting the sandbox.
//! Byte lookups follow a length-then-copy contract: the caller first
//! asks for the byte length, then supplies a buffer of at least that
//! length to receive the data, so the host never assumes anything about
//! guest allocation.

use vstd::prelude::*;
use vstd::utf8::valid_utf8;

use crate::cookies::spec_cookie_lookup;
use crate::cookies::cookie_header_lookup;
use crate::resource::CookieData;
use crate::resource::CookieView;
use crate::resource::RequestView;
use crate::resource::Resource;
use crate::resource::ResourceKind;
use crate::resource::ResourceView;
use crate::resource::ResponseData;
use crate::resource::ResponseView;
use crate::resource::SameSite;
use crate::resource::cookies_view;
use crate::resource::find_pair_ci;
use crate::resource::find_pair_exact;
use crate::resource::pairs_view;
use crate::resource::spec_lookup;
use crate::resource::spec_lookup_ci;
use crate::table::HostError;
use crate::table::ResourceTable;
use crate::table::TableView;
use crate::text::bytes_eq_ignore_ascii_case;
use crate::text::spec_lower_bytes;
use crate::text::utf8_ok;

verus! {

/// The request resource a handle names, when it names one.
pub open spec fn spec_request(t: TableView, h: u32) -> Option<RequestView> {
    if t.entries.contains_key(h) {
        match t.entries[h] {
            ResourceView::Request(r) => Some(r),
            _ => None,
        }
    } else {
        None
    }
}

/// The response resource a handle names, when it names one.
pub open spec fn spec_response(t: TableView, h: u32) -> Option<ResponseView> {
    if t.entries.contains_key(h) {
        match t.entries[h] {
            ResourceView::Response(r) => Some(r),
            _ => None,
        }
    } else {
        None
    }
}

/// The cookie resource a handle names, when it names one.
pub open spec fn spec_cookie(t: TableView, h: u32) -> Option<CookieView> {
    if t.entries.contains_key(h) {
        match t.entries[h] {
            ResourceView::Cookie(c) => Some(c),
            _ => None,
        }
    } else {
        None
    }
}

/// What a length query answers for a field: the field's byte length,
/// `InvalidHandle` when the handle does not name the resource, or
/// `IntegerOverflow` when the length does not fit 32 bits.
pub open spec fn spec_len_result(v: Option<Seq<u8>>) -> Result<int, HostError> {
    match v {
        None => Err(HostError::InvalidHandle),
        Some(b) => if b.len() > u32::MAX {
            Err(HostError::IntegerOverflow)
        } else {
            Ok(b.len() as int)
        },
    }
}

/// What a copy transfer leaves in the caller's buffer: the field's bytes
/// followed by the untouched tail, `InvalidHandle` when the handle does
/// not name the resource, or `InvalidLength` when the buffer is shorter
/// than the field.
pub open spec fn spec_copy_result(v: Option<Seq<u8>>, buf: Seq<u8>) -> Result<Seq<u8>, HostError> {
    match v {
        None => Err(HostError::InvalidHandle),
        Some(b) => if buf.len() < b.len() {
            Err(HostError::InvalidLength)
        } else {
            Ok(b + buf.skip(b.len() as int))
        },
    }
}

/// Answers a length query over an optional field value.
fn len_result(v: Option<&Vec<u8>>) -> (r: Result<u32, HostError>)
    ensures
        match r {
            Ok(n) => spec_len_result(spec_opt_view(v)) == Ok::<int, HostError>(n as int),
            Err(e) => spec_len_result(spec_opt_view(v)) == Err::<int, HostError>(e),
        },
{
    match v {
        Some(b) => {
            if b.len() > u32::MAX as usize {
                Err(HostError::IntegerOverflow)
            } else {
                Ok(b.len() as u32)
            }
        },
        None => Err(HostError::InvalidHandle),
    }
}

/// Fills the front of the caller's buffer with an optional field value.
fn copy_result(v: Option<&Vec<u8>>, buf: &mut Vec<u8>) -> (r: Result<(), HostError>)
    ensures
        match r {
            Ok(_) => spec_copy_result(spec_opt_view(v), old(buf)@) == Ok::<Seq<u8>, HostError>(
                final(buf)@,
            ),
            Err(e) => spec_copy_result(spec_opt_view(v), old(buf)@) == Err::<Seq<u8>, HostError>(e)
                && final(buf)@ == old(buf)@,
        },
{
    match v {
        Some(b) => {
            if buf.len() < b.len() {
                return Err(HostError::InvalidLength);
            }
            let mut i: usize = 0;
            while i < b.len()
                invariant
                    i <= b.len() <= buf.len(),
                    buf@.len() == old(buf)@.len(),
                    buf@ == b@.take(i as int) + old(buf)@.skip(i as int),
                decreases b.len() - i,
            {
                let ghost before = buf@;
                buf.set(i, b[i]);
                proof {
                    assert(buf@ =~= b@.take(i as int + 1) + old(buf)@.skip(i as int + 1));
                }
                i += 1;
            }
            proof {
                assert(b@.take(b@.len() as int) =~= b@);
            }
            Ok(())
        },
        None => Err(HostError::InvalidHandle),
    }
}

/// The mathematical value of an optional borrowed byte field.
pub open spec fn spec_opt_view(v: Option<&Vec<u8>>) -> Option<Seq<u8>> {
    match v {
        Some(b) => Some(b@),
        None => None,
    }
}

/// The method bytes of the request a handle names.
pub open spec fn spec_request_method(t: TableView, h: u32) -> Option<Seq<u8>> {
    match spec_request(t, h) {
        Some(r) => Some(r.method),
        None => None,
    }
}

/// The URI bytes of the request a handle names.
pub open spec fn spec_request_uri(t: TableView, h: u32) -> Option<Seq<u8>> {
    match spec_request(t, h) {
        Some(r) => Some(r.uri),
        None => None,
    }
}

/// The body bytes of the request a handle names.
pub open spec fn spec_request_body(t: TableView, h: u32) -> Option<Seq<u8>> {
    match spec_request(t, h) {
        Some(r) => Some(r.body),
        None => None,
    }
}

/// A request header value by name, up to ASCII case; an absent header
/// reads as empty, exactly as it crosses the wire.
pub open spec fn spec_request_header(t: TableView, h: u32, name: Seq<u8>) -> Option<Seq<u8>> {
    match spec_request(t, h) {
        Some(r) => Some(
            match spec_lookup_ci(r.headers, name) {
                Some(v) => v,
                None => Seq::empty(),
            },
        ),
        None => None,
    }
}

/// A route parameter value by exact name; an absent parameter reads as
/// empty.
pub open spec fn spec_request_param(t: TableView, h: u32, name: Seq<u8>) -> Option<Seq<u8>> {
    match spec_request(t, h) {
        Some(r) => Some(
            match spec_lookup(r.params, name) {
                Some(v) => v,
                None => Seq::empty(),
            },
        ),
        None => None,
    }
}

/// A request cookie value by exact name, read out of the request's
/// `Cookie` header; an absent cookie reads as empty.
pub open spec fn spec_request_cookie(t: TableView, h: u32, name: Seq<u8>) -> Option<Seq<u8>> {
    match spec_request(t, h) {
        Some(r) => Some(
            match spec_cookie_lookup(r.headers, name) {
                Some(v) => v,
                None => Seq::empty(),
            },
        ),
        None => None,
    }
}

/// Looks up the request resource under a handle.
fn get_request<'a>(table: &'a ResourceTable, handle: u32) -> (r: Option<&'a Resource>)
    requires
        table.wf(),
    ensures
        match r {
            Some(res) => spec_request(table@, handle) matches Some(req) && res@
                == ResourceView::Request(req),
            None => spec_request(table@, handle) is None,
        },
{
    match table.get(handle, ResourceKind::Request) {
        Ok(res) => Some(res),
        Err(_) => None,
    }
}

/// Asks for the byte length of the request method.
pub fn request_method_len(table: &ResourceTable, handle: u32) -> (r: Result<u32, HostError>)
    requires
        table.wf(),
    ensures
        match r {
            Ok(n) => spec_len_result(spec_request_method(table@, handle)) == Ok::<int, HostError>(
                n as int,
            ),
            Err(e) => spec_len_result(spec_request_method(table@, handle)) == Err::<
                int,
                HostError,
            >(e),
        },
{
    match get_request(table, handle) {
        Some(res) => match res {
            Resource::Request(req) => len_result(Some(&req.method)),
            _ => Err(HostError::InvalidHandle),
        },
        None => Err(HostError::InvalidHandle),
    }
}

/// Copies the request method into the caller's buffer.
pub fn request_method_copy(table: &ResourceTable, handle: u32, buf: &mut Vec<u8>) -> (r: Result<
    (),
    HostError,
>)
    requires
        table.wf(),
    ensures
        match r {
            Ok(_) => spec_copy_result(spec_request_method(table@, handle), old(buf)@) == Ok::<
                Seq<u8>,
                HostError,
            >(final(buf)@),
            Err(e) => spec_copy_result(spec_request_method(table@, handle), old(buf)@) == Err::<
                Seq<u8>,
                HostError,
            >(e) && final(buf)@ == old(buf)@,
        },
{
    match get_request(table, handle) {
        Some(res) => match res {
            Resource::Request(req) => copy_result(Some(&req.method), buf),
            _ => Err(HostError::InvalidHandle),
        },
        None => Err(HostError::InvalidHandle),
    }
}

/// Asks for the byte length of the request URI.
pub fn request_uri_len(table: &ResourceTable, handle: u32) -> (r: Result<u32, HostError>)
    requires
        table.wf(),
    ensures
        match r {
            Ok(n) => spec_len_result(spec_request_uri(table@, handle)) == Ok::<int, HostError>(
                n as int,
            ),
            Err(e) => spec_len_result(spec_request_uri(table@, handle)) == Err::<int, HostError>(
                e,
            ),
        },
{
    match get_request(table, handle) {
        Some(res) => match res {
            Resource::Request(req) => len_result(Some(&req.uri)),
            _ => Err(HostError::InvalidHandle),
        },
        None => Err(HostError::InvalidHandle),
    }
}

/// Copies the request URI into the caller's buffer.
pub fn request_uri_copy(table: &ResourceTable, handle: u32, buf: &mut Vec<u8>) -> (r: Result<
    (),
    HostError,
>)
    requires
        table.wf(),
    ensures
        match r {
            Ok(_) => spec_copy_result(spec_request_uri(table@, handle), old(buf)@) == Ok::<
                Seq<u8>,
                HostError,
            >(final(buf)@),
            Err(e) => spec_copy_result(spec_request_uri(table@, handle), old(buf)@) == Err::<
                Seq<u8>,
                HostError,
            >(e) && final(buf)@ == old(buf)@,
        },
{
    match get_request(table, handle) {
        Some(res) => match res {
            Resource::Request(req) => copy_result(Some(&req.uri), buf),
            _ => Err(HostError::InvalidHandle),
        },
        None => Err(HostError::InvalidHandle),
    }
}

/// Asks for the byte length of the request body.
pub fn request_body_len(table: &ResourceTable, handle: u32) -> (r: Result<u32, HostError>)
    requires
        table.wf(),
    ensures
        match r {
            Ok(n) => spec_len_result(spec_request_body(table@, handle)) == Ok::<int, HostError>(
                n as int,
            ),
            Err(e) => spec_len_result(spec_request_body(table@, handle)) == Err::<int, HostError>(
                e,
            ),
        },
{
    match get_request(table, handle) {
        Some(res) => match res {
            Resource::Request(req) => len_result(Some(&req.body)),
            _ => Err(HostError::InvalidHandle),
        },
        None => Err(HostError::InvalidHandle),
    }
}

/// Copies the request body into the caller's buffer.
pub fn request_body_copy(table: &ResourceTable, handle: u32, buf: &mut Vec<u8>) -> (r: Result<
    (),
    HostError,
>)
    requires
        table.wf(),
    ensures
        match r {
            Ok(_) => spec_copy_result(spec_request_body(table@, handle), old(buf)@) == Ok::<
                Seq<u8>,
                HostError,
            >(final(buf)@),
            Err(e) => spec_copy_result(spec_request_body(table@, handle), old(buf)@) == Err::<
                Seq<u8>,
                HostError,
            >(e) && final(buf)@ == old(buf)@,
        },
{
    match get_request(table, handle) {
        Some(res) => match res {
            Resource::Request(req) => copy_result(Some(&req.body), buf),
            _ => Err(HostError::InvalidHandle),
        },
        None => Err(HostError::InvalidHandle),
    }
}

/// Asks for the byte length of a request header value.  A name that is
/// not valid UTF-8 is refused before anything is looked up.
pub fn request_header_len(table: &ResourceTable, handle: u32, name: &[u8]) -> (r: Result<
    u32,
    HostError,
>)
    requires
        table.wf(),
    ensures
        match r {
            Ok(n) => valid_utf8(name@) && spec_len_result(
                spec_request_header(table@, handle, name@),
            ) == Ok::<int, HostError>(n as int),
            Err(e) => if !valid_utf8(name@) {
                e == HostError::InvalidUtf8
            } else {
                spec_len_result(spec_request_header(table@, handle, name@)) == Err::<
                    int,
                    HostError,
                >(e)
            },
        },
{
    if !utf8_ok(name) {
        return Err(HostError::InvalidUtf8);
    }
    match get_request(table, handle) {
        Some(res) => match res {
            Resource::Request(req) => match find_pair_ci(&req.headers, name) {
                Some(v) => len_result(Some(v)),
                None => Ok(0),
            },
            _ => Err(HostError::InvalidHandle),
        },
        None => Err(HostError::InvalidHandle),
    }
}

/// Copies a request header value into the caller's buffer.
pub fn request_header_copy(
    table: &ResourceTable,
    handle: u32,
    name: &[u8],
    buf: &mut Vec<u8>,
) -> (r: Result<(), HostError>)
    requires
        table.wf(),
    ensures
        match r {
            Ok(_) => valid_utf8(name@) && spec_copy_result(
                spec_request_header(table@, handle, name@),
                old(buf)@,
            ) == Ok::<Seq<u8>, HostError>(final(buf)@),
            Err(e) => final(buf)@ == old(buf)@ && (if !valid_utf8(name@) {
                e == HostError::InvalidUtf8
            } else {
                spec_copy_result(spec_request_header(table@, handle, name@), old(buf)@) == Err::<
                    Seq<u8>,
                    HostError,
                >(e)
            }),
        },
{
    if !utf8_ok(name) {
        return Err(HostError::InvalidUtf8);
    }
    match get_request(table, handle) {
        Some(res) => match res {
            Resource::Request(req) => match find_pair_ci(&req.headers, name) {
                Some(v) => copy_result(Some(v), buf),
                None => {
                    proof {
                        assert(Seq::<u8>::empty() + buf@.skip(0) =~= buf@);
                    }
                    Ok(())
                },
            },
            _ => Err(HostError::InvalidHandle),
        },
        None => Err(HostError::InvalidHandle),
    }
}

/// Asks for the byte length of a route parameter value.
pub fn request_param_len(table: &ResourceTable, handle: u32, name: &[u8]) -> (r: Result<
    u32,
    HostError,
>)
    requires
        table.wf(),
    ensures
        match r {
            Ok(n) => valid_utf8(name@) && spec_len_result(
                spec_request_param(table@, handle, name@),
            ) == Ok::<int, HostError>(n as int),
            Err(e) => if !valid_utf8(name@) {
                e == HostError::InvalidUtf8
            } else {
                spec_len_result(spec_request_param(table@, handle, name@)) == Err::<
                    int,
                    HostError,
                >(e)
            },
        },
{
    if !utf8_ok(name) {
        return Err(HostError::InvalidUtf8);
    }
    match get_request(table, handle) {
        Some(res) => match res {
            Resource::Request(req) => match find_pair_exact(&req.params, name) {
                Some(v) => len_result(Some(v)),
                None => Ok(0),
            },
            _ => Err(HostError::InvalidHandle),
        },
        None => Err(HostError::InvalidHandle),
    }
}

/// Copies a route parameter value into the caller's buffer.
pub fn request_param_copy(
    table: &ResourceTable,
    handle: u32,
    name: &[u8],
    buf: &mut Vec<u8>,
) -> (r: Result<(), HostError>)
    requires
        table.wf(),
    ensures
        match r {
            Ok(_) => valid_utf8(name@) && spec_copy_result(
                spec_request_param(table@, handle, name@),
                old(buf)@,
            ) == Ok::<Seq<u8>, HostError>(final(buf)@),
            Err(e) => final(buf)@ == old(buf)@ && (if !valid_utf8(name@) {
                e == HostError::InvalidUtf8
            } else {
                spec_copy_result(spec_request_param(table@, handle, name@), old(buf)@) == Err::<
                    Seq<u8>,
                    HostError,
                >(e)
            }),
        },
{
    if !utf8_ok(name) {
        return Err(HostError::InvalidUtf8);
    }
    match get_request(table, handle) {
        Some(res) => match res {
            Resource::Request(req) => match find_pair_exact(&req.params, name) {
                Some(v) => copy_result(Some(v), buf),
                None => {
                    proof {
                        assert(Seq::<u8>::empty() + buf@.skip(0) =~= buf@);
                    }
                    Ok(())
                },
            },
            _ => Err(HostError::InvalidHandle),
        },
        None => Err(HostError::InvalidHandle),
    }
}

/// Asks for the byte length of a request cookie value, read out of the
/// request's `Cookie` header.
pub fn request_cookie_len(table: &ResourceTable, handle: u32, name: &[u8]) -> (r: Result<
    u32,
    HostError,
>)
    requires
        table.wf(),
    ensures
        match r {
            Ok(n) => valid_utf8(name@) && spec_len_result(
                spec_request_cookie(table@, handle, name@),
            ) == Ok::<int, HostError>(n as int),
            Err(e) => if !valid_utf8(name@) {
                e == HostError::InvalidUtf8
            } else {
                spec_len_result(spec_request_cookie(table@, handle, name@)) == Err::<
                    int,
                    HostError,
                >(e)
            },
        },
{
    if !utf8_ok(name) {
        return Err(HostError::InvalidUtf8);
    }
    match get_request(table, handle) {
        Some(res) => match res {
            Resource::Request(req) => match cookie_header_lookup(&req.headers, name) {
                Some(v) => len_result(Some(&v)),
                None => Ok(0),
            },
            _ => Err(HostError::InvalidHandle),
        },
        None => Err(HostError::InvalidHandle),
    }
}

/// Copies a request cookie value into the caller's buffer.
pub fn request_cookie_copy(
    table: &ResourceTable,
    handle: u32,
    name: &[u8],
    buf: &mut Vec<u8>,
) -> (r: Result<(), HostError>)
    requires
        table.wf(),
    ensures
        match r {
            Ok(_) => valid_utf8(name@) && spec_copy_result(
                spec_request_cookie(table@, handle, name@),
                old(buf)@,
            ) == Ok::<Seq<u8>, HostError>(final(buf)@),
            Err(e) => final(buf)@ == old(buf)@ && (if !valid_utf8(name@) {
                e == HostError::InvalidUtf8
            } else {
                spec_copy_result(spec_request_cookie(table@, handle, name@), old(buf)@) == Err::<
                    Seq<u8>,
                    HostError,
                >(e)
            }),
        },
{
    if !utf8_ok(name) {
        return Err(HostError::InvalidUtf8);
    }
    match get_request(table, handle) {
        Some(res) => match res {
            Resource::Request(req) => match cookie_header_lookup(&req.headers, name) {
                Some(v) => copy_result(Some(&v), buf),
                None => {
                    proof {
                        assert(Seq::<u8>::empty() + buf@.skip(0) =~= buf@);
                    }
                    Ok(())
                },
            },
            _ => Err(HostError::InvalidHandle),
        },
        None => Err(HostError::InvalidHandle),
    }
}

/// Response headers after one `set`: every pair of the same name (up to
/// ASCII case) gives way, and the new pair stands at the end — last
/// write per name wins.
pub open spec fn spec_upsert_ci(
    pairs: Seq<(Seq<u8>, Seq<u8>)>,
    name: Seq<u8>,
    value: Seq<u8>,
) -> Seq<(Seq<u8>, Seq<u8>)> {
    spec_drop_name_ci(pairs, name).push((name, value))
}

/// The pairs whose names differ from `name` up to ASCII case, in order.
pub open spec fn spec_drop_name_ci(pairs: Seq<(Seq<u8>, Seq<u8>)>, name: Seq<u8>) -> Seq<
    (Seq<u8>, Seq<u8>),
>
    decreases pairs.len(),
{
    if pairs.len() == 0 {
        Seq::empty()
    } else {
        let rest = spec_drop_name_ci(pairs.skip(1), name);
        if spec_lower_bytes(pairs[0].0) == spec_lower_bytes(name) {
            rest
        } else {
            seq![pairs[0]] + rest
        }
    }
}

/// The cookies whose names differ from `name`, in order.
pub open spec fn spec_drop_cookie_name(cookies: Seq<CookieView>, name: Seq<u8>) -> Seq<CookieView>
    decreases cookies.len(),
{
    if cookies.len() == 0 {
        Seq::empty()
    } else {
        let rest = spec_drop_cookie_name(cookies.skip(1), name);
        if cookies[0].name == name {
            rest
        } else {
            seq![cookies[0]] + rest
        }
    }
}

/// A response after one header write.
pub open spec fn spec_set_header(resp: ResponseView, name: Seq<u8>, value: Seq<u8>) -> ResponseView {
    ResponseView { headers: spec_upsert_ci(resp.headers, name, value), ..resp }
}

/// A response after a cookie is inserted: any same-named cookie gives
/// way and the inserted one joins the set.
pub open spec fn spec_insert_cookie(resp: ResponseView, c: CookieView) -> ResponseView {
    ResponseView { cookies: spec_drop_cookie_name(resp.cookies, c.name).push(c), ..resp }
}

/// A response after a cookie is removed: any same-named cookie leaves
/// the set, and the removal is recorded.
pub open spec fn spec_remove_cookie(resp: ResponseView, c: CookieView) -> ResponseView {
    ResponseView {
        cookies: spec_drop_cookie_name(resp.cookies, c.name),
        removed_cookies: resp.removed_cookies.push(c),
        ..resp
    }
}

/// Drops, in place, every pair whose name equals `name` up to ASCII
/// case.
fn drop_pairs_named_ci(pairs: &mut Vec<(Vec<u8>, Vec<u8>)>, name: &[u8])
    ensures
        pairs_view(final(pairs)@) == spec_drop_name_ci(pairs_view(old(pairs)@), name@),
{
    let ghost orig = pairs_view(old(pairs)@);
    proof {
        assert(orig.skip(0) =~= orig);
        assert(pairs_view(pairs@).take(0) =~= Seq::<(Seq<u8>, Seq<u8>)>::empty());
        assert(Seq::<(Seq<u8>, Seq<u8>)>::empty() + spec_drop_name_ci(orig, name@)
            =~= spec_drop_name_ci(orig, name@));
    }
    let mut i: usize = 0;
    while i < pairs.len()
        invariant
            i <= pairs@.len(),
            forall|j: int|
                0 <= j < i ==> spec_lower_bytes((#[trigger] pairs_view(pairs@)[j]).0)
                    != spec_lower_bytes(name@),
            spec_drop_name_ci(orig, name@) == pairs_view(pairs@).take(i as int)
                + spec_drop_name_ci(pairs_view(pairs@).skip(i as int), name@),
        decreases pairs@.len() - i,
    {
        let ghost cur = pairs_view(pairs@);
        if bytes_eq_ignore_ascii_case(pairs[i].0.as_slice(), name) {
            let _ = pairs.remove(i);
            proof {
                assert(cur.skip(i as int)[0] == cur[i as int]);
                assert(spec_drop_name_ci(cur.skip(i as int), name@) == spec_drop_name_ci(
                    cur.skip(i as int).skip(1),
                    name@,
                ));
                assert(pairs_view(pairs@) =~= cur.remove(i as int));
                assert(pairs_view(pairs@).take(i as int) =~= cur.take(i as int));
                assert(pairs_view(pairs@).skip(i as int) =~= cur.skip(i as int).skip(1));
            }
        } else {
            proof {
                assert(cur.skip(i as int)[0] == cur[i as int]);
                assert(cur.skip(i as int).skip(1) =~= cur.skip(i as int + 1));
                assert(spec_drop_name_ci(cur.skip(i as int), name@) == seq![cur[i as int]]
                    + spec_drop_name_ci(cur.skip(i as int + 1), name@));
                assert(cur.take(i as int) + (seq![cur[i as int]] + spec_drop_name_ci(
                    cur.skip(i as int + 1),
                    name@,
                )) =~= cur.take(i as int + 1) + spec_drop_name_ci(
                    cur.skip(i as int + 1),
                    name@,
                ));
            }
            i += 1;
        }
    }
    proof {
        assert(pairs_view(pairs@).skip(i as int) =~= Seq::<(Seq<u8>, Seq<u8>)>::empty());
        assert(pairs_view(pairs@).take(i as int) =~= pairs_view(pairs@));
    }
}

/// Drops, in place, every cookie whose name is exactly `name`.
fn drop_cookies_named(cookies: &mut Vec<CookieData>, name: &[u8])
    ensures
        cookies_view(final(cookies)@) == spec_drop_cookie_name(cookies_view(old(cookies)@), name@),
{
    let ghost orig = cookies_view(old(cookies)@);
    proof {
        assert(orig.skip(0) =~= orig);
        assert(cookies_view(cookies@).take(0) =~= Seq::<CookieView>::empty());
        assert(Seq::<CookieView>::empty() + spec_drop_cookie_name(orig, name@)
            =~= spec_drop_cookie_name(orig, name@));
    }
    let mut i: usize = 0;
    while i < cookies.len()
        invariant
            i <= cookies@.len(),
            spec_drop_cookie_name(orig, name@) == cookies_view(cookies@).take(i as int)
                + spec_drop_cookie_name(cookies_view(cookies@).skip(i as int), name@),
        decreases cookies@.len() - i,
    {
        let ghost cur = cookies_view(cookies@);
        if crate::text::bytes_eq(cookies[i].name.as_slice(), name) {
            let _ = cookies.remove(i);
            proof {
                assert(cur.skip(i as int)[0] == cur[i as int]);
                assert(spec_drop_cookie_name(cur.skip(i as int), name@) == spec_drop_cookie_name(
                    cur.skip(i as int).skip(1),
                    name@,
                ));
                assert(cookies_view(cookies@) =~= cur.remove(i as int));
                assert(cookies_view(cookies@).take(i as int) =~= cur.take(i as int));
                assert(cookies_view(cookies@).skip(i as int) =~= cur.skip(i as int).skip(1));
            }
        } else {
            proof {
                assert(cur.skip(i as int)[0] == cur[i as int]);
                assert(cur.skip(i as int).skip(1) =~= cur.skip(i as int + 1));
                assert(spec_drop_cookie_name(cur.skip(i as int), name@) == seq![cur[i as int]]
                    + spec_drop_cookie_name(cur.skip(i as int + 1), name@));
                assert(cur.take(i as int) + (seq![cur[i as int]] + spec_drop_cookie_name(
                    cur.skip(i as int + 1),
                    name@,
                )) =~= cur.take(i as int + 1) + spec_drop_cookie_name(
                    cur.skip(i as int + 1),
                    name@,
                ));
            }
            i += 1;
        }
    }
    proof {
        assert(cookies_view(cookies@).skip(i as int) =~= Seq::<CookieView>::empty());
        assert(cookies_view(cookies@).take(i as int) =~= cookies_view(cookies@));
    }
}

/// Creates a response resource with the given status code and returns
/// its fresh handle.  The status must lie in the standard numeric range.
pub fn response_new(table: &mut ResourceTable, status: u16) -> (r: Result<u32, HostError>)
    requires
        old(table).wf(),
    ensures
        final(table).wf(),
        match r {
            Ok(h) => {
                &&& 100 <= status <= 599
                &&& h == old(table)@.next
                &&& final(table)@.entries == old(table)@.entries.insert(
                    h,
                    ResourceView::Response(
                        (ResponseView {
                            status,
                            headers: Seq::empty(),
                            body: Seq::empty(),
                            cookies: Seq::empty(),
                            removed_cookies: Seq::empty(),
                        }),
                    ),
                )
                &&& final(table)@.next == h + 1
            },
            Err(e) => {
                &&& final(table)@ == old(table)@
                &&& if !(100 <= status <= 599) {
                    e == HostError::InvalidArgument
                } else {
                    e == HostError::HandlesExhausted && old(table)@.next == u32::MAX
                }
            },
        },
{
    if status < 100 || status > 599 {
        return Err(HostError::InvalidArgument);
    }
    table.insert(Resource::Response(ResponseData::new(status)))
}

/// Destroys a response resource.  Freeing the same handle twice fails
/// with `InvalidHandle`: the handle was retired by the first free.
pub fn response_free(table: &mut ResourceTable, handle: u32) -> (r: Result<(), HostError>)
    requires
        old(table).wf(),
    ensures
        final(table).wf(),
        match r {
            Ok(_) => {
                &&& spec_response(old(table)@, handle) is Some
                &&& final(table)@.entries == old(table)@.entries.remove(handle)
                &&& final(table)@.next == old(table)@.next
            },
            Err(e) => {
                &&& e == HostError::InvalidHandle
                &&& spec_response(old(table)@, handle) is None
                &&& final(table)@ == old(table)@
            },
        },
{
    match table.remove(handle, ResourceKind::Response) {
        Ok(_) => Ok(()),
        Err(e) => Err(e),
    }
}

/// Reads the status code of a response.
pub fn response_status(table: &ResourceTable, handle: u32) -> (r: Result<u16, HostError>)
    requires
        table.wf(),
    ensures
        match r {
            Ok(status) => spec_response(table@, handle) matches Some(resp) && resp.status
                == status,
            Err(e) => e == HostError::InvalidHandle && spec_response(table@, handle) is None,
        },
{
    match table.get(handle, ResourceKind::Response) {
        Ok(res) => match res {
            Resource::Response(resp) => Ok(resp.status),
            _ => Err(HostError::InvalidHandle),
        },
        Err(e) => Err(e),
    }
}

/// A response header value by name, up to ASCII case; an absent header
/// reads as empty.
pub open spec fn spec_response_header(t: TableView, h: u32, name: Seq<u8>) -> Option<Seq<u8>> {
    match spec_response(t, h) {
        Some(r) => Some(
            match spec_lookup_ci(r.headers, name) {
                Some(v) => v,
                None => Seq::empty(),
            },
        ),
        None => None,
    }
}

/// The body bytes of the response a handle names.
pub open spec fn spec_response_body(t: TableView, h: u32) -> Option<Seq<u8>> {
    match spec_response(t, h) {
        Some(r) => Some(r.body),
        None => None,
    }
}

/// Asks for the byte length of a response header value.
pub fn response_header_len(table: &ResourceTable, handle: u32, name: &[u8]) -> (r: Result<
    u32,
    HostError,
>)
    requires
        table.wf(),
    ensures
        match r {
            Ok(n) => valid_utf8(name@) && spec_len_result(
                spec_response_header(table@, handle, name@),
            ) == Ok::<int, HostError>(n as int),
            Err(e) => if !valid_utf8(name@) {
                e == HostError::InvalidUtf8
            } else {
                spec_len_result(spec_response_header(table@, handle, name@)) == Err::<
                    int,
                    HostError,
                >(e)
            },
        },
{
    if !utf8_ok(name) {
        return Err(HostError::InvalidUtf8);
    }
    match table.get(handle, ResourceKind::Response) {
        Ok(res) => match res {
            Resource::Response(resp) => match find_pair_ci(&resp.headers, name) {
                Some(v) => len_result(Some(v)),
                None => Ok(0),
            },
            _ => Err(HostError::InvalidHandle),
        },
        Err(e) => Err(e),
    }
}

/// Copies a response header value into the caller's buffer.
pub fn response_header_copy(
    table: &ResourceTable,
    handle: u32,
    name: &[u8],
    buf: &mut Vec<u8>,
) -> (r: Result<(), HostError>)
    requires
        table.wf(),
    ensures
        match r {
            Ok(_) => valid_utf8(name@) && spec_copy_result(
                spec_response_header(table@, handle, name@),
                old(buf)@,
            ) == Ok::<Seq<u8>, HostError>(final(buf)@),
            Err(e) => final(buf)@ == old(buf)@ && (if !valid_utf8(name@) {
                e == HostError::InvalidUtf8
            } else {
                spec_copy_result(spec_response_header(table@, handle, name@), old(buf)@) == Err::<
                    Seq<u8>,
                    HostError,
                >(e)
            }),
        },
{
    if !utf8_ok(name) {
        return Err(HostError::InvalidUtf8);
    }
    match table.get(handle, ResourceKind::Response) {
        Ok(res) => match res {
            Resource::Response(resp) => match find_pair_ci(&resp.headers, name) {
                Some(v) => copy_result(Some(v), buf),
                None => {
                    proof {
                        assert(Seq::<u8>::empty() + buf@.skip(0) =~= buf@);
                    }
                    Ok(())
                },
            },
            _ => Err(HostError::InvalidHandle),
        },
        Err(e) => Err(e),
    }
}

/// Asks for the byte length of the response body.
pub fn response_body_len(table: &ResourceTable, handle: u32) -> (r: Result<u32, HostError>)
    requires
        table.wf(),
    ensures
        match r {
            Ok(n) => spec_len_result(spec_response_body(table@, handle)) == Ok::<int, HostError>(
                n as int,
            ),
            Err(e) => spec_len_result(spec_response_body(table@, handle)) == Err::<
                int,
                HostError,
            >(e),
        },
{
    match table.get(handle, ResourceKind::Response) {
        Ok(res) => match res {
            Resource::Response(resp) => len_result(Some(&resp.body)),
            _ => Err(HostError::InvalidHandle),
        },
        Err(_) => Err(HostError::InvalidHandle),
    }
}

/// Copies the response body into the caller's buffer.
pub fn response_body_copy(table: &ResourceTable, handle: u32, buf: &mut Vec<u8>) -> (r: Result<
    (),
    HostError,
>)
    requires
        table.wf(),
    ensures
        match r {
            Ok(_) => spec_copy_result(spec_response_body(table@, handle), old(buf)@) == Ok::<
                Seq<u8>,
                HostError,
            >(final(buf)@),
            Err(e) => spec_copy_result(spec_response_body(table@, handle), old(buf)@) == Err::<
                Seq<u8>,
                HostError,
            >(e) && final(buf)@ == old(buf)@,
        },
{
    match table.get(handle, ResourceKind::Response) {
        Ok(res) => match res {
            Resource::Response(resp) => copy_result(Some(&resp.body), buf),
            _ => Err(HostError::InvalidHandle),
        },
        Err(_) => Err(HostError::InvalidHandle),
    }
}

/// Writes one response header; the last write per name wins.
pub fn response_set_header(
    table: &mut ResourceTable,
    handle: u32,
    name: &[u8],
    value: &[u8],
) -> (r: Result<(), HostError>)
    requires
        old(table).wf(),
    ensures
        final(table).wf(),
        match r {
            Ok(_) => {
                &&& valid_utf8(name@) && valid_utf8(value@)
                &&& spec_response(old(table)@, handle) matches Some(resp)
                    && final(table)@.entries == old(table)@.entries.insert(
                    handle,
                    ResourceView::Response(spec_set_header(resp, name@, value@)),
                )
                &&& final(table)@.next == old(table)@.next
            },
            Err(e) => {
                &&& final(table)@ == old(table)@
                &&& if !(valid_utf8(name@) && valid_utf8(value@)) {
                    e == HostError::InvalidUtf8
                } else {
                    e == HostError::InvalidHandle && spec_response(old(table)@, handle) is None
                }
            },
        },
{
    if !utf8_ok(name) {
        return Err(HostError::InvalidUtf8);
    }
    if !utf8_ok(value) {
        return Err(HostError::InvalidUtf8);
    }
    if !table.has(handle, ResourceKind::Response) {
        return Err(HostError::InvalidHandle);
    }
    let res = table.get_mut(handle);
    match res {
        Resource::Response(resp) => {
            drop_pairs_named_ci(&mut resp.headers, name);
            let ghost dropped = resp.headers@;
            resp.headers.push((crate::text::to_vec(name), crate::text::to_vec(value)));
            proof {
                assert(pairs_view(resp.headers@) =~= pairs_view(dropped).push((name@, value@)));
            }
            Ok(())
        },
        _ => unreached(),
    }
}

/// Replaces the response body.
pub fn response_set_body(table: &mut ResourceTable, handle: u32, body: &[u8]) -> (r: Result<
    (),
    HostError,
>)
    requires
        old(table).wf(),
    ensures
        final(table).wf(),
        match r {
            Ok(_) => {
                &&& spec_response(old(table)@, handle) matches Some(resp)
                    && final(table)@.entries == old(table)@.entries.insert(
                    handle,
                    ResourceView::Response((ResponseView { body: body@, ..resp })),
                )
                &&& final(table)@.next == old(table)@.next
            },
            Err(e) => {
                &&& e == HostError::InvalidHandle
                &&& spec_response(old(table)@, handle) is None
                &&& final(table)@ == old(table)@
            },
        },
{
    if !table.has(handle, ResourceKind::Response) {
        return Err(HostError::InvalidHandle);
    }
    let res = table.get_mut(handle);
    match res {
        Resource::Response(resp) => {
            resp.body = crate::text::to_vec(body);
            Ok(())
        },
        _ => unreached(),
    }
}

/// Transfers ownership of a cookie into a response's cookie set; the
/// cookie's handle is retired.  A same-named cookie already in the set
/// gives way.
pub fn response_add_cookie(table: &mut ResourceTable, handle: u32, cookie: u32) -> (r: Result<
    (),
    HostError,
>)
    requires
        old(table).wf(),
    ensures
        final(table).wf(),
        match r {
            Ok(_) => {
                &&& spec_response(old(table)@, handle) matches Some(resp)
                    && spec_cookie(old(table)@, cookie) matches Some(c) && final(table)@.entries
                    == old(table)@.entries.remove(cookie).insert(
                    handle,
                    ResourceView::Response(spec_insert_cookie(resp, c)),
                )
                &&& final(table)@.next == old(table)@.next
            },
            Err(e) => {
                &&& e == HostError::InvalidHandle
                &&& spec_response(old(table)@, handle) is None || spec_cookie(
                    old(table)@,
                    cookie,
                ) is None
                &&& final(table)@ == old(table)@
            },
        },
{
    if !table.has(handle, ResourceKind::Response) {
        return Err(HostError::InvalidHandle);
    }
    let c = match table.remove(cookie, ResourceKind::Cookie) {
        Ok(res) => match res {
            Resource::Cookie(c) => c,
            _ => unreached(),
        },
        Err(e) => {
            return Err(e);
        },
    };
    let res = table.get_mut(handle);
    match res {
        Resource::Response(resp) => {
            drop_cookies_named(&mut resp.cookies, c.name.as_slice());
            let ghost dropped = resp.cookies@;
            let ghost cv = c@;
            resp.cookies.push(c);
            proof {
                assert(cookies_view(resp.cookies@) =~= cookies_view(dropped).push(cv));
            }
            Ok(())
        },
        _ => unreached(),
    }
}

/// Transfers a cookie out of a response's cookie set, recording the
/// removal; the cookie's handle is retired.
pub fn response_remove_cookie(table: &mut ResourceTable, handle: u32, cookie: u32) -> (r: Result<
    (),
    HostError,
>)
    requires
        old(table).wf(),
    ensures
        final(table).wf(),
        match r {
            Ok(_) => {
                &&& spec_response(old(table)@, handle) matches Some(resp)
                    && spec_cookie(old(table)@, cookie) matches Some(c) && final(table)@.entries
                    == old(table)@.entries.remove(cookie).insert(
                    handle,
                    ResourceView::Response(spec_remove_cookie(resp, c)),
                )
                &&& final(table)@.next == old(table)@.next
            },
            Err(e) => {
                &&& e == HostError::InvalidHandle
                &&& spec_response(old(table)@, handle) is None || spec_cookie(
                    old(table)@,
                    cookie,
                ) is None
                &&& final(table)@ == old(table)@
            },
        },
{
    if !table.has(handle, ResourceKind::Response) {
        return Err(HostError::InvalidHandle);
    }
    let c = match table.remove(cookie, ResourceKind::Cookie) {
        Ok(res) => match res {
            Resource::Cookie(c) => c,
            _ => unreached(),
        },
        Err(e) => {
            return Err(e);
        },
    };
    let res = table.get_mut(handle);
    match res {
        Resource::Response(resp) => {
            drop_cookies_named(&mut resp.cookies, c.name.as_slice());
            let ghost cv = c@;
            let ghost removed = resp.removed_cookies@;
            resp.removed_cookies.push(c);
            proof {
                assert(cookies_view(resp.removed_cookies@) =~= cookies_view(removed).push(cv));
            }
            Ok(())
        },
        _ => unreached(),
    }
}

/// Creates a cookie resource with the given name and value and returns
/// its fresh handle.
pub fn cookie_new(table: &mut ResourceTable, name: &[u8], value: &[u8]) -> (r: Result<
    u32,
    HostError,
>)
    requires
        old(table).wf(),
    ensures
        final(table).wf(),
        match r {
            Ok(h) => {
                &&& valid_utf8(name@) && valid_utf8(value@)
                &&& h == old(table)@.next
                &&& final(table)@.entries == old(table)@.entries.insert(
                    h,
                    ResourceView::Cookie(
                        (CookieView {
                            name: name@,
                            value: value@,
                            http_only: false,
                            secure: false,
                            max_age_secs: Option::None,
                            same_site: Option::None,
                            domain: Option::None,
                            path: Option::None,
                        }),
                    ),
                )
                &&& final(table)@.next == h + 1
            },
            Err(e) => {
                &&& final(table)@ == old(table)@
                &&& if !(valid_utf8(name@) && valid_utf8(value@)) {
                    e == HostError::InvalidUtf8
                } else {
                    e == HostError::HandlesExhausted && old(table)@.next == u32::MAX
                }
            },
        },
{
    if !utf8_ok(name) {
        return Err(HostError::InvalidUtf8);
    }
    if !utf8_ok(value) {
        return Err(HostError::InvalidUtf8);
    }
    table.insert(
        Resource::Cookie(CookieData::new(crate::text::to_vec(name), crate::text::to_vec(value))),
    )
}

/// Destroys a cookie resource that was not consumed by a response.
pub fn cookie_free(table: &mut ResourceTable, handle: u32) -> (r: Result<(), HostError>)
    requires
        old(table).wf(),
    ensures
        final(table).wf(),
        match r {
            Ok(_) => {
                &&& spec_cookie(old(table)@, handle) is Some
                &&& final(table)@.entries == old(table)@.entries.remove(handle)
                &&& final(table)@.next == old(table)@.next
            },
            Err(e) => {
                &&& e == HostError::InvalidHandle
                &&& spec_cookie(old(table)@, handle) is None
                &&& final(table)@ == old(table)@
            },
        },
{
    match table.remove(handle, ResourceKind::Cookie) {
        Ok(_) => Ok(()),
        Err(e) => Err(e),
    }
}

/// Sets the HttpOnly attribute on a cookie.
pub fn cookie_set_http_only(table: &mut ResourceTable, handle: u32, enabled: bool) -> (r: Result<
    (),
    HostError,
>)
    requires
        old(table).wf(),
    ensures
        final(table).wf(),
        match r {
            Ok(_) => {
                &&& spec_cookie(old(table)@, handle) matches Some(c) && final(table)@.entries
                    == old(table)@.entries.insert(
                    handle,
                    ResourceView::Cookie((CookieView { http_only: enabled, ..c })),
                )
                &&& final(table)@.next == old(table)@.next
            },
            Err(e) => {
                &&& e == HostError::InvalidHandle
                &&& spec_cookie(old(table)@, handle) is None
                &&& final(table)@ == old(table)@
            },
        },
{
    if !table.has(handle, ResourceKind::Cookie) {
        return Err(HostError::InvalidHandle);
    }
    let res = table.get_mut(handle);
    match res {
        Resource::Cookie(c) => {
            c.http_only = enabled;
            Ok(())
        },
        _ => unreached(),
    }
}

/// Sets the Secure attribute on a cookie.
pub fn cookie_set_secure(table: &mut ResourceTable, handle: u32, enabled: bool) -> (r: Result<
    (),
    HostError,
>)
    requires
        old(table).wf(),
    ensures
        final(table).wf(),
        match r {
            Ok(_) => {
                &&& spec_cookie(old(table)@, handle) matches Some(c) && final(table)@.entries
                    == old(table)@.entries.insert(
                    handle,
                    ResourceView::Cookie((CookieView { secure: enabled, ..c })),
                )
                &&& final(table)@.next == old(table)@.next
            },
            Err(e) => {
                &&& e == HostError::InvalidHandle
                &&& spec_cookie(old(table)@, handle) is None
                &&& final(table)@ == old(table)@
            },
        },
{
    if !table.has(handle, ResourceKind::Cookie) {
        return Err(HostError::InvalidHandle);
    }
    let res = table.get_mut(handle);
    match res {
        Resource::Cookie(c) => {
            c.secure = enabled;
            Ok(())
        },
        _ => unreached(),
    }
}

/// Sets the MaxAge attribute on a cookie, in whole seconds.
pub fn cookie_set_max_age(table: &mut ResourceTable, handle: u32, secs: i64) -> (r: Result<
    (),
    HostError,
>)
    requires
        old(table).wf(),
    ensures
        final(table).wf(),
        match r {
            Ok(_) => {
                &&& spec_cookie(old(table)@, handle) matches Some(c) && final(table)@.entries
                    == old(table)@.entries.insert(
                    handle,
                    ResourceView::Cookie((CookieView { max_age_secs: Some(secs), ..c })),
                )
                &&& final(table)@.next == old(table)@.next
            },
            Err(e) => {
                &&& e == HostError::InvalidHandle
                &&& spec_cookie(old(table)@, handle) is None
                &&& final(table)@ == old(table)@
            },
        },
{
    if !table.has(handle, ResourceKind::Cookie) {
        return Err(HostError::InvalidHandle);
    }
    let res = table.get_mut(handle);
    match res {
        Resource::Cookie(c) => {
            c.max_age_secs = Some(secs);
            Ok(())
        },
        _ => unreached(),
    }
}

/// The SameSite policy a wire tag names, if the tag is recognized.
pub open spec fn spec_same_site_of_tag(tag: u8) -> Option<SameSite> {
    if tag == 0 {
        Some(SameSite::Strict)
    } else if tag == 1 {
        Some(SameSite::Lax)
    } else if tag == 2 {
        Some(SameSite::CrossSite)
    } else {
        None
    }
}

/// Sets the SameSite attribute on a cookie from its wire tag.  An
/// unrecognized tag is refused before the handle is looked at.
pub fn cookie_set_same_site(table: &mut ResourceTable, handle: u32, tag: u8) -> (r: Result<
    (),
    HostError,
>)
    requires
        old(table).wf(),
    ensures
        final(table).wf(),
        match r {
            Ok(_) => {
                &&& spec_same_site_of_tag(tag) is Some
                &&& spec_cookie(old(table)@, handle) matches Some(c) && final(table)@.entries
                    == old(table)@.entries.insert(
                    handle,
                    ResourceView::Cookie(
                        (CookieView { same_site: spec_same_site_of_tag(tag), ..c }),
                    ),
                )
                &&& final(table)@.next == old(table)@.next
            },
            Err(e) => {
                &&& final(table)@ == old(table)@
                &&& if spec_same_site_of_tag(tag) is None {
                    e == HostError::InvalidArgument
                } else {
                    e == HostError::InvalidHandle && spec_cookie(old(table)@, handle) is None
                }
            },
        },
{
    let policy = if tag == 0 {
        SameSite::Strict
    } else if tag == 1 {
        SameSite::Lax
    } else if tag == 2 {
        SameSite::CrossSite
    } else {
        return Err(HostError::InvalidArgument);
    };
    if !table.has(handle, ResourceKind::Cookie) {
        return Err(HostError::InvalidHandle);
    }
    let res = table.get_mut(handle);
    match res {
        Resource::Cookie(c) => {
            c.same_site = Some(policy);
            Ok(())
        },
        _ => unreached(),
    }
}

/// Sets the Domain attribute on a cookie.
pub fn cookie_set_domain(table: &mut ResourceTable, handle: u32, domain: &[u8]) -> (r: Result<
    (),
    HostError,
>)
    requires
        old(table).wf(),
    ensures
        final(table).wf(),
        match r {
            Ok(_) => {
                &&& valid_utf8(domain@)
                &&& spec_cookie(old(table)@, handle) matches Some(c) && final(table)@.entries
                    == old(table)@.entries.insert(
                    handle,
                    ResourceView::Cookie((CookieView { domain: Some(domain@), ..c })),
                )
                &&& final(table)@.next == old(table)@.next
            },
            Err(e) => {
                &&& final(table)@ == old(table)@
                &&& if !valid_utf8(domain@) {
                    e == HostError::InvalidUtf8
                } else {
                    e == HostError::InvalidHandle && spec_cookie(old(table)@, handle) is None
                }
            },
        },
{
    if !utf8_ok(domain) {
        return Err(HostError::InvalidUtf8);
    }
    if !table.has(handle, ResourceKind::Cookie) {
        return Err(HostError::InvalidHandle);
    }
    let res = table.get_mut(handle);
    match res {
        Resource::Cookie(c) => {
            c.domain = Some(crate::text::to_vec(domain));
            Ok(())
        },
        _ => unreached(),
    }
}

/// Sets the Path attribute on a cookie.
pub fn cookie_set_path(table: &mut ResourceTable, handle: u32, path: &[u8]) -> (r: Result<
    (),
    HostError,
>)
    requires
        old(table).wf(),
    ensures
        final(table).wf(),
        match r {
            Ok(_) => {
                &&& valid_utf8(path@)
                &&& spec_cookie(old(table)@, handle) matches Some(c) && final(table)@.entries
                    == old(table)@.entries.insert(
                    handle,
                    ResourceView::Cookie((CookieView { path: Some(path@), ..c })),
                )
                &&& final(table)@.next == old(table)@.next
            },
            Err(e) => {
                &&& final(table)@ == old(table)@
                &&& if !valid_utf8(path@) {
                    e == HostError::InvalidUtf8
                } else {
                    e == HostError::InvalidHandle && spec_cookie(old(table)@, handle) is None
                }
            },
        },
{
    if !utf8_ok(path) {
        return Err(HostError::InvalidUtf8);
    }
    if !table.has(handle, ResourceKind::Cookie) {
        return Err(HostError::InvalidHandle);
    }
    let res = table.get_mut(handle);
    match res {
        Resource::Cookie(c) => {
            c.path = Some(crate::text::to_vec(path));
            Ok(())
        },
        _ => unreached(),
    }
}

} // verus!
