//! The record framing codec for custom binary sections.
//!
//! A named custom section is a concatenation of records.  Each record is a
//! 32-bit little-endian length followed by exactly that many payload bytes.
//! Decoding is strict: a truncated length field or a record whose declared
//! length exceeds the remaining bytes is a fatal error, with no recovery and
//! no skipping.

use vstd::prelude::*;

verus! {

/// Failure of the record framing inside a custom section.
#[derive(Clone, Copy, PartialEq, Eq, Structural, Debug)]
pub enum FramingError {
    /// Fewer than four bytes remained where a record length was expected.
    Truncated,
    /// A record's declared length exceeds the bytes that remain,
    /// or a payload to be framed does not fit a 32-bit length.
    LengthOverflow,
}

/// The value of a 32-bit little-endian length field.
pub open spec fn spec_le32(b0: u8, b1: u8, b2: u8, b3: u8) -> int {
    b0 + 256 * (b1 + 256 * (b2 + 256 * b3))
}

/// The four little-endian bytes of a 32-bit length field.
pub open spec fn spec_le32_bytes(n: int) -> Seq<u8> {
    seq![
        (n % 256) as u8,
        ((n / 256) % 256) as u8,
        ((n / 65536) % 256) as u8,
        ((n / 16777216) % 256) as u8,
    ]
}

/// The payload sequence that a section's bytes frame, record by record,
/// or the framing error that makes the section malformed.
pub open spec fn spec_decode_records(data: Seq<u8>) -> Result<Seq<Seq<u8>>, FramingError>
    decreases data.len(),
{
    if data.len() == 0 {
        Ok(Seq::empty())
    } else if data.len() < 4 {
        Err(FramingError::Truncated)
    } else {
        let len = spec_le32(data[0], data[1], data[2], data[3]);
        if 4 + len > data.len() {
            Err(FramingError::LengthOverflow)
        } else {
            let payload = data.subrange(4, 4 + len);
            match spec_decode_records(data.skip(4 + len)) {
                Ok(rest) => Ok(seq![payload] + rest),
                Err(e) => Err(e),
            }
        }
    }
}

/// One framed record: the payload's length in four little-endian bytes,
/// then the payload itself.
pub open spec fn spec_frame(payload: Seq<u8>) -> Seq<u8> {
    spec_le32_bytes(payload.len() as int) + payload
}

/// The concatenation of the frames of each payload, in order.
pub open spec fn spec_encode_records(payloads: Seq<Seq<u8>>) -> Seq<u8>
    decreases payloads.len(),
{
    if payloads.len() == 0 {
        Seq::empty()
    } else {
        spec_frame(payloads[0]) + spec_encode_records(payloads.skip(1))
    }
}

/// Splits a section's bytes into the payloads of its records.
///
/// Strict by design: any malformed record fails the whole section.
pub fn decode_records(data: &[u8]) -> (r: Result<Vec<Vec<u8>>, FramingError>)
    ensures
        match r {
            Ok(payloads) => spec_decode_records(data@) == Ok::<Seq<Seq<u8>>, FramingError>(
                payloads.deep_view(),
            ),
            Err(e) => spec_decode_records(data@) == Err::<Seq<Seq<u8>>, FramingError>(e),
        },
{
    let mut payloads: Vec<Vec<u8>> = Vec::new();
    let mut pos: usize = 0;
    proof {
        assert(data@.skip(0) =~= data@);
        assert(payloads.deep_view() =~= Seq::<Seq<u8>>::empty());
        if spec_decode_records(data@) is Ok {
            assert(Seq::<Seq<u8>>::empty() + spec_decode_records(data@)->Ok_0 =~= spec_decode_records(
                data@,
            )->Ok_0);
        }
    }
    loop
        invariant
            pos <= data.len(),
            spec_decode_records(data@) == (match spec_decode_records(data@.skip(pos as int)) {
                Ok(rest) => Ok::<Seq<Seq<u8>>, FramingError>(payloads.deep_view() + rest),
                Err(e) => Err::<Seq<Seq<u8>>, FramingError>(e),
            }),
        decreases data.len() - pos,
    {
        let remaining = data.len() - pos;
        if remaining == 0 {
            proof {
                assert(data@.skip(pos as int) =~= Seq::<u8>::empty());
                assert(payloads.deep_view() + Seq::<Seq<u8>>::empty() =~= payloads.deep_view());
            }
            return Ok(payloads);
        }
        if remaining < 4 {
            return Err(FramingError::Truncated);
        }
        let len = le32_read(data[pos], data[pos + 1], data[pos + 2], data[pos + 3]);
        proof {
            assert(data@.skip(pos as int)[0] == data@[pos as int]);
            assert(data@.skip(pos as int)[1] == data@[pos as int + 1]);
            assert(data@.skip(pos as int)[2] == data@[pos as int + 2]);
            assert(data@.skip(pos as int)[3] == data@[pos as int + 3]);
        }
        if len as usize > remaining - 4 {
            return Err(FramingError::LengthOverflow);
        }
        let begin = pos + 4;
        let end = begin + len as usize;
        let mut payload: Vec<u8> = Vec::new();
        let mut i: usize = begin;
        while i < end
            invariant
                begin <= i <= end <= data.len(),
                payload@ == data@.subrange(begin as int, i as int),
            decreases end - i,
        {
            payload.push(data[i]);
            proof {
                assert(payload@ =~= data@.subrange(begin as int, i as int + 1));
            }
            i += 1;
        }
        let ghost old_deep = payloads.deep_view();
        let ghost tail = data@.skip(pos as int);
        payloads.push(payload);
        proof {
            assert(payload.deep_view() =~= payload@);
            assert(payloads.deep_view() =~~= old_deep + seq![payload@]);
            assert(payload@ =~= tail.subrange(4, 4 + len as int));
            assert(tail.skip(4 + len as int) =~= data@.skip(end as int));
            if spec_decode_records(data@.skip(end as int)) is Ok {
                let rest2 = spec_decode_records(data@.skip(end as int))->Ok_0;
                assert(old_deep + (seq![payload@] + rest2) =~= (old_deep + seq![payload@]) + rest2);
            }
        }
        pos = end;
    }
}

/// Frames one payload as a single record, unless its length does not fit
/// the 32-bit length field.
pub fn encode_record(payload: &[u8]) -> (r: Result<Vec<u8>, FramingError>)
    ensures
        match r {
            Ok(bytes) => payload@.len() < 0x1_0000_0000 && bytes@ == spec_frame(payload@),
            Err(e) => payload@.len() >= 0x1_0000_0000 && e == FramingError::LengthOverflow,
        },
{
    if payload.len() > u32::MAX as usize {
        return Err(FramingError::LengthOverflow);
    }
    let len: u32 = payload.len() as u32;
    let mut bytes: Vec<u8> = Vec::new();
    bytes.push((len % 256) as u8);
    bytes.push(((len / 256) % 256) as u8);
    bytes.push(((len / 65536) % 256) as u8);
    bytes.push(((len / 16777216) % 256) as u8);
    proof {
        assert(bytes@ =~= spec_le32_bytes(payload@.len() as int));
    }
    let mut i: usize = 0;
    while i < payload.len()
        invariant
            i <= payload.len(),
            bytes@ == spec_le32_bytes(payload@.len() as int) + payload@.subrange(0, i as int),
        decreases payload.len() - i,
    {
        bytes.push(payload[i]);
        proof {
            assert(bytes@ =~= spec_le32_bytes(payload@.len() as int) + payload@.subrange(
                0,
                i as int + 1,
            ));
        }
        i += 1;
    }
    proof {
        assert(payload@.subrange(0, payload@.len() as int) =~= payload@);
    }
    Ok(bytes)
}

/// Reads a 32-bit little-endian value from four bytes.
fn le32_read(b0: u8, b1: u8, b2: u8, b3: u8) -> (r: u32)
    ensures
        r == spec_le32(b0, b1, b2, b3),
{
    b0 as u32 + 256 * (b1 as u32 + 256 * (b2 as u32 + 256 * b3 as u32))
}

/// The length field round-trips: reading the four bytes written for a
/// 32-bit value gives that value back.
pub proof fn lemma_le32_roundtrip(n: int)
    requires
        0 <= n < 0x1_0000_0000,
    ensures
        spec_le32(
            spec_le32_bytes(n)[0],
            spec_le32_bytes(n)[1],
            spec_le32_bytes(n)[2],
            spec_le32_bytes(n)[3],
        ) == n,
{
    assert(spec_le32(
        (n % 256) as u8,
        ((n / 256) % 256) as u8,
        ((n / 65536) % 256) as u8,
        ((n / 16777216) % 256) as u8,
    ) == n) by (nonlinear_arith)
        requires
            0 <= n < 0x1_0000_0000,
    ;
}

/// Decoding then re-encoding a well-formed section reproduces its bytes:
/// the payloads that `spec_decode_records` yields frame back, in order,
/// to exactly the section that was decoded.
pub proof fn lemma_decode_then_encode(data: Seq<u8>, payloads: Seq<Seq<u8>>)
    requires
        spec_decode_records(data) == Ok::<Seq<Seq<u8>>, FramingError>(payloads),
    ensures
        spec_encode_records(payloads) == data,
    decreases data.len(),
{
    if data.len() == 0 {
        assert(payloads =~= Seq::<Seq<u8>>::empty());
        assert(spec_encode_records(payloads) =~= data);
    } else {
        let len = spec_le32(data[0], data[1], data[2], data[3]);
        let payload = data.subrange(4, 4 + len);
        let tail = data.skip(4 + len);
        let rest = spec_decode_records(tail)->Ok_0;
        lemma_decode_then_encode(tail, rest);
        assert(payloads == seq![payload] + rest);
        assert(payloads[0] == payload);
        assert(payloads.skip(1) =~= rest);
        lemma_le32_roundtrip_bytes(data, len);
        assert(spec_frame(payload) + spec_encode_records(rest) =~= data);
    }
}

/// Encoding then decoding reproduces the payload list, provided every
/// payload fits the 32-bit length field.
pub proof fn lemma_encode_then_decode(payloads: Seq<Seq<u8>>)
    requires
        forall|i: int| 0 <= i < payloads.len() ==> #[trigger] payloads[i].len() < 0x1_0000_0000,
    ensures
        spec_decode_records(spec_encode_records(payloads)) == Ok::<Seq<Seq<u8>>, FramingError>(
            payloads,
        ),
    decreases payloads.len(),
{
    if payloads.len() == 0 {
        assert(spec_decode_records(spec_encode_records(payloads)) == Ok::<
            Seq<Seq<u8>>,
            FramingError,
        >(Seq::empty()));
        assert(payloads =~= Seq::<Seq<u8>>::empty());
    } else {
        let p = payloads[0];
        let rest = payloads.skip(1);
        let data = spec_encode_records(payloads);
        assert(data == spec_frame(p) + spec_encode_records(rest));
        lemma_le32_bytes_range(p.len() as int);
        lemma_le32_roundtrip(p.len() as int);
        assert(data.len() == 4 + p.len() + spec_encode_records(rest).len());
        assert(data[0] == spec_le32_bytes(p.len() as int)[0]);
        assert(data[1] == spec_le32_bytes(p.len() as int)[1]);
        assert(data[2] == spec_le32_bytes(p.len() as int)[2]);
        assert(data[3] == spec_le32_bytes(p.len() as int)[3]);
        assert(spec_le32(data[0], data[1], data[2], data[3]) == p.len() as int);
        assert(data.subrange(4, 4 + p.len() as int) =~= p);
        assert(data.skip(4 + p.len() as int) =~= spec_encode_records(rest));
        assert(forall|i: int| 0 <= i < rest.len() ==> #[trigger] rest[i].len() < 0x1_0000_0000);
        lemma_encode_then_decode(rest);
        assert(seq![p] + rest =~= payloads);
    }
}

/// The length that a well-formed record's first four bytes hold frames
/// back to those same four bytes.
proof fn lemma_le32_roundtrip_bytes(data: Seq<u8>, len: int)
    requires
        data.len() >= 4,
        len == spec_le32(data[0], data[1], data[2], data[3]),
    ensures
        spec_le32_bytes(len) =~= data.subrange(0, 4),
{
    assert(0 <= len < 0x1_0000_0000) by (nonlinear_arith)
        requires
            len == spec_le32(data[0], data[1], data[2], data[3]),
            0 <= data[0] < 256,
            0 <= data[1] < 256,
            0 <= data[2] < 256,
            0 <= data[3] < 256,
    ;
    assert((len % 256) as u8 == data[0] && ((len / 256) % 256) as u8 == data[1] && ((len / 65536)
        % 256) as u8 == data[2] && ((len / 16777216) % 256) as u8 == data[3]) by (nonlinear_arith)
        requires
            len == spec_le32(data[0], data[1], data[2], data[3]),
            0 <= data[0] < 256,
            0 <= data[1] < 256,
            0 <= data[2] < 256,
            0 <= data[3] < 256,
    ;
}

/// Every byte that `spec_le32_bytes` writes is a byte, so the frame's
/// length field reads back in range.
proof fn lemma_le32_bytes_range(n: int)
    requires
        0 <= n < 0x1_0000_0000,
    ensures
        spec_le32_bytes(n).len() == 4,
{
}

} // verus!
