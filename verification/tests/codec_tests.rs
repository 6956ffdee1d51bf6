use function_host::codec::FramingError;
use function_host::codec::decode_records;
use function_host::codec::encode_record;

fn frame(payload: &[u8]) -> Vec<u8> {
    let len = payload.len() as u32;
    let mut out = len.to_le_bytes().to_vec();
    out.extend_from_slice(payload);
    out
}

#[test]
fn decode_empty_section_yields_no_records() {
    assert_eq!(decode_records(&[]), Ok(vec![]));
}

#[test]
fn decode_single_record() {
    let data = frame(b"[\"A\"]");
    assert_eq!(decode_records(&data), Ok(vec![b"[\"A\"]".to_vec()]));
}

#[test]
fn decode_two_records_in_order() {
    let mut data = frame(b"one");
    data.extend_from_slice(&frame(b"two"));
    assert_eq!(
        decode_records(&data),
        Ok(vec![b"one".to_vec(), b"two".to_vec()])
    );
}

#[test]
fn decode_truncated_length_field_fails() {
    // Three bytes where a four-byte length is expected.
    assert_eq!(decode_records(&[1, 0, 0]), Err(FramingError::Truncated));
}

#[test]
fn decode_overlong_record_fails() {
    // Declares 100 bytes but only 10 follow.
    let mut data = 100u32.to_le_bytes().to_vec();
    data.extend_from_slice(&[0; 10]);
    assert_eq!(decode_records(&data), Err(FramingError::LengthOverflow));
}

#[test]
fn decode_does_not_skip_bad_trailing_record() {
    // A good record followed by a truncated one fails the whole
    // section: no recovery, no partial result.
    let mut data = frame(b"ok");
    data.extend_from_slice(&[5, 0]);
    assert_eq!(decode_records(&data), Err(FramingError::Truncated));
}

#[test]
fn encode_then_decode_round_trips() {
    let encoded = encode_record(b"{\"k\":1}").unwrap();
    assert_eq!(decode_records(&encoded), Ok(vec![b"{\"k\":1}".to_vec()]));
}

#[test]
fn decode_then_encode_reproduces_the_bytes() {
    let mut data = frame(b"alpha");
    data.extend_from_slice(&frame(b""));
    data.extend_from_slice(&frame(b"omega"));
    let payloads = decode_records(&data).unwrap();
    let mut rebuilt = Vec::new();
    for p in &payloads {
        rebuilt.extend_from_slice(&encode_record(p).unwrap());
    }
    assert_eq!(rebuilt, data);
}

#[test]
fn encode_prefixes_little_endian_length() {
    let encoded = encode_record(b"abc").unwrap();
    assert_eq!(encoded, vec![3, 0, 0, 0, b'a', b'b', b'c']);
}
