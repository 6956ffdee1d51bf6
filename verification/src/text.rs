//! Byte-level text helpers: UTF-8 checking and decoding, byte equality,
//! and ASCII case folding.
//!
//! Names and values cross the sandbox boundary as raw bytes; this module
//! is where they are checked and, where the API wants text, decoded.

use vstd::prelude::*;
use vstd::utf8::decode_utf8;
use vstd::utf8::valid_utf8;

verus! {

/// Relies on str::from_utf8: returns the string slice over exactly the
/// given bytes when they are valid UTF-8, and refuses them otherwise.
#[verifier::external_body]
pub fn str_from_utf8<'a>(v: &'a [u8]) -> (r: Option<&'a str>)
    ensures
        match r {
            Some(s) => valid_utf8(v@) && s@ == decode_utf8(v@),
            None => !valid_utf8(v@),
        },
{
    core::str::from_utf8(v).ok()
}

/// Whether the bytes form valid UTF-8.
pub fn utf8_ok(v: &[u8]) -> (r: bool)
    ensures
        r == valid_utf8(v@),
{
    str_from_utf8(v).is_some()
}

/// Decodes the bytes into an owned string, or refuses them when they are
/// not valid UTF-8.
pub fn bytes_to_string(v: &[u8]) -> (r: Option<String>)
    ensures
        match r {
            Some(s) => valid_utf8(v@) && s@ == decode_utf8(v@),
            None => !valid_utf8(v@),
        },
{
    match str_from_utf8(v) {
        Some(s) => Some(s.to_owned()),
        None => None,
    }
}

/// Exact byte equality of two slices.
pub fn bytes_eq(a: &[u8], b: &[u8]) -> (r: bool)
    ensures
        r == (a@ == b@),
{
    if a.len() != b.len() {
        return false;
    }
    let mut i: usize = 0;
    while i < a.len()
        invariant
            i <= a.len(),
            a.len() == b.len(),
            forall|j: int| 0 <= j < i ==> a@[j] == b@[j],
        decreases a.len() - i,
    {
        if a[i] != b[i] {
            return false;
        }
        i += 1;
    }
    proof {
        assert(a@ =~= b@);
    }
    true
}

/// Copies a range of a slice into an owned vector.
pub fn copy_range(v: &[u8], from: usize, to: usize) -> (r: Vec<u8>)
    requires
        from <= to <= v@.len(),
    ensures
        r@ == v@.subrange(from as int, to as int),
{
    let mut r: Vec<u8> = Vec::new();
    let mut i: usize = from;
    while i < to
        invariant
            from <= i <= to <= v@.len(),
            r@ == v@.subrange(from as int, i as int),
        decreases to - i,
    {
        r.push(v[i]);
        proof {
            assert(r@ =~= v@.subrange(from as int, i as int + 1));
        }
        i += 1;
    }
    r
}

/// Copies a whole slice into an owned vector.
pub fn to_vec(v: &[u8]) -> (r: Vec<u8>)
    ensures
        r@ == v@,
{
    let r = copy_range(v, 0, v.len());
    proof {
        assert(v@.subrange(0, v@.len() as int) =~= v@);
    }
    r
}

/// A byte folded to ASCII lowercase; bytes outside the ASCII uppercase
/// letters are unchanged.
pub open spec fn spec_lower_byte(b: u8) -> u8 {
    if 65 <= b <= 90 {
        (b + 32) as u8
    } else {
        b
    }
}

/// A byte sequence folded to ASCII lowercase.
pub open spec fn spec_lower_bytes(s: Seq<u8>) -> Seq<u8> {
    Seq::new(s.len(), |i: int| spec_lower_byte(s[i]))
}

/// Byte equality up to ASCII case, as header names compare.
pub fn bytes_eq_ignore_ascii_case(a: &[u8], b: &[u8]) -> (r: bool)
    ensures
        r == (spec_lower_bytes(a@) == spec_lower_bytes(b@)),
{
    if a.len() != b.len() {
        proof {
            assert(spec_lower_bytes(a@).len() != spec_lower_bytes(b@).len());
        }
        return false;
    }
    let mut i: usize = 0;
    while i < a.len()
        invariant
            i <= a.len(),
            a.len() == b.len(),
            forall|j: int| 0 <= j < i ==> spec_lower_byte(a@[j]) == spec_lower_byte(b@[j]),
        decreases a.len() - i,
    {
        let x = lower_byte(a[i]);
        let y = lower_byte(b[i]);
        if x != y {
            proof {
                assert(spec_lower_bytes(a@)[i as int] != spec_lower_bytes(b@)[i as int]);
            }
            return false;
        }
        i += 1;
    }
    proof {
        assert(spec_lower_bytes(a@) =~= spec_lower_bytes(b@));
    }
    true
}

/// Folds one byte to ASCII lowercase.
pub fn lower_byte(b: u8) -> (r: u8)
    ensures
        r == spec_lower_byte(b),
{
    if 65 <= b && b <= 90 {
        b + 32
    } else {
        b
    }
}

} // verus!
