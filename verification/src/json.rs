//! The textual grammar of descriptor records.
//!
//! Each record of the routing section carries one JSON array of
//! function descriptors, and each record of the variables section one
//! JSON array of names.  This module gives that grammar a byte-level
//! specification and a verified parser and printer for exactly the value
//! forms the records use: strings, arrays and objects.  Anything else in
//! a record is a decode error — the format fails closed.
//!
//! Strings support the escapes `\" \\ \/ \b \f \n \r \t` and `\uXXXX`
//! for scalars outside the surrogate range; other bytes pass through
//! unchanged and are checked as UTF-8 where text is assembled.

use vstd::prelude::*;
use vstd::utf8::decode_utf8;
use vstd::utf8::encode_utf8;
use vstd::utf8::valid_utf8;

use crate::metadata::Function;
use crate::metadata::FunctionOutput;
use crate::metadata::FunctionTrigger;
use crate::metadata::FunctionView;
use crate::metadata::Method;
use crate::metadata::TriggerView;
use crate::metadata::functions_view;
use crate::metadata::strings_view;
use crate::text::bytes_eq;
use crate::text::bytes_to_string;

verus! {

/// Whether a byte is insignificant whitespace between tokens.
pub open spec fn spec_is_ws(b: u8) -> bool {
    b == 32 || b == 9 || b == 10 || b == 13
}

/// The first position at or after `pos` that holds no whitespace.
pub open spec fn spec_skip_ws(v: Seq<u8>, pos: int) -> int
    decreases v.len() - pos,
{
    if pos < 0 {
        pos
    } else if pos >= v.len() {
        pos
    } else if spec_is_ws(v[pos]) {
        spec_skip_ws(v, pos + 1)
    } else {
        pos
    }
}

/// Where whitespace ends: on the first non-whitespace byte at or after
/// the start, or at the end.
proof fn lemma_skip_ws_at(v: Seq<u8>, pos: int, k: int)
    requires
        0 <= pos <= k <= v.len(),
        forall|j: int| pos <= j < k ==> spec_is_ws(v[j]),
        k < v.len() ==> !spec_is_ws(v[k]),
    ensures
        spec_skip_ws(v, pos) == k,
    decreases k - pos,
{
    if pos < k {
        lemma_skip_ws_at(v, pos + 1, k);
    }
}

/// Whitespace skipping lands in range and on no whitespace.
pub proof fn lemma_skip_ws_range(v: Seq<u8>, pos: int)
    requires
        0 <= pos <= v.len(),
    ensures
        pos <= spec_skip_ws(v, pos) <= v.len(),
        spec_skip_ws(v, pos) < v.len() ==> !spec_is_ws(v[spec_skip_ws(v, pos)]),
    decreases v.len() - pos,
{
    if pos < v.len() && spec_is_ws(v[pos]) {
        lemma_skip_ws_range(v, pos + 1);
    }
}

/// Advances past insignificant whitespace.
pub fn skip_ws(v: &[u8], pos: usize) -> (r: usize)
    requires
        pos <= v@.len(),
    ensures
        r == spec_skip_ws(v@, pos as int),
        pos <= r <= v@.len(),
{
    let mut i: usize = pos;
    while i < v.len() && (v[i] == 32 || v[i] == 9 || v[i] == 10 || v[i] == 13)
        invariant
            pos <= i <= v@.len(),
            forall|j: int| pos <= j < i ==> spec_is_ws(v@[j]),
        decreases v@.len() - i,
    {
        i += 1;
    }
    proof {
        lemma_skip_ws_at(v@, pos as int, i as int);
    }
    i
}

/// The UTF-8 encoding of one Unicode scalar given as a number.
pub open spec fn spec_utf8_of_scalar(u: int) -> Seq<u8> {
    if u < 0x80 {
        seq![u as u8]
    } else if u < 0x800 {
        seq![(0xC0 + u / 0x40) as u8, (0x80 + u % 0x40) as u8]
    } else if u < 0x10000 {
        seq![(0xE0 + u / 0x1000) as u8, (0x80 + (u / 0x40) % 0x40) as u8, (0x80 + u % 0x40) as u8]
    } else {
        seq![
            (0xF0 + u / 0x40000) as u8,
            (0x80 + (u / 0x1000) % 0x40) as u8,
            (0x80 + (u / 0x40) % 0x40) as u8,
            (0x80 + u % 0x40) as u8,
        ]
    }
}

/// The numeric value of one hexadecimal digit byte, if it is one.
pub open spec fn spec_hex_digit(b: u8) -> Option<int> {
    if 48 <= b <= 57 {
        Some((b - 48) as int)
    } else if 97 <= b <= 102 {
        Some((b - 97 + 10) as int)
    } else if 65 <= b <= 70 {
        Some((b - 65 + 10) as int)
    } else {
        None
    }
}

/// What one escape sequence after the backslash stands for: the bytes
/// it adds and the position after it.  A `\u` escape must name a scalar
/// outside the surrogate range.
pub open spec fn spec_parse_escape(v: Seq<u8>, pos: int) -> Option<(Seq<u8>, int)> {
    if pos >= v.len() {
        None
    } else if v[pos] == 34 {
        Some((seq![34u8], pos + 1))
    } else if v[pos] == 92 {
        Some((seq![92u8], pos + 1))
    } else if v[pos] == 47 {
        Some((seq![47u8], pos + 1))
    } else if v[pos] == 98 {
        Some((seq![8u8], pos + 1))
    } else if v[pos] == 102 {
        Some((seq![12u8], pos + 1))
    } else if v[pos] == 110 {
        Some((seq![10u8], pos + 1))
    } else if v[pos] == 114 {
        Some((seq![13u8], pos + 1))
    } else if v[pos] == 116 {
        Some((seq![9u8], pos + 1))
    } else if v[pos] == 117 {
        if pos + 5 > v.len() {
            None
        } else {
            match (
                spec_hex_digit(v[pos + 1]),
                spec_hex_digit(v[pos + 2]),
                spec_hex_digit(v[pos + 3]),
                spec_hex_digit(v[pos + 4]),
            ) {
                (Some(a), Some(b), Some(c), Some(d)) => {
                    let u = a * 0x1000 + b * 0x100 + c * 0x10 + d;
                    if 0xD800 <= u < 0xE000 {
                        None
                    } else {
                        Some((spec_utf8_of_scalar(u), pos + 5))
                    }
                },
                _ => None,
            }
        }
    } else {
        None
    }
}

/// The unescaped bytes of a string body read from `pos` up to its
/// closing quote, appended to `acc`, with the position after the quote.
/// An unescaped control byte or an unterminated string is an error.
pub open spec fn spec_parse_chars(v: Seq<u8>, pos: int, acc: Seq<u8>) -> Option<(Seq<u8>, int)>
    decreases v.len() - pos,
{
    if pos < 0 || pos >= v.len() {
        None
    } else if v[pos] == 34 {
        Some((acc, pos + 1))
    } else if v[pos] == 92 {
        match spec_parse_escape(v, pos + 1) {
            Some((bytes, p2)) => if p2 > pos + 1 && p2 <= v.len() {
                spec_parse_chars(v, p2, acc + bytes)
            } else {
                None
            },
            None => None,
        }
    } else if v[pos] < 32 {
        None
    } else {
        spec_parse_chars(v, pos + 1, acc.push(v[pos]))
    }
}

/// A string token at `pos`: its unescaped bytes and the position after
/// its closing quote.
pub open spec fn spec_parse_string(v: Seq<u8>, pos: int) -> Option<(Seq<u8>, int)> {
    if 0 <= pos < v.len() && v[pos] == 34 {
        spec_parse_chars(v, pos + 1, Seq::empty())
    } else {
        None
    }
}

/// A parsed string ends after where it began, within the input.
pub proof fn lemma_parse_chars_range(v: Seq<u8>, pos: int, acc: Seq<u8>)
    requires
        0 <= pos <= v.len(),
    ensures
        spec_parse_chars(v, pos, acc) matches Some(r) ==> pos < r.1 <= v.len(),
    decreases v.len() - pos,
{
    if pos < v.len() {
        if v[pos] == 34 {
        } else if v[pos] == 92 {
            match spec_parse_escape(v, pos + 1) {
                Some((bytes, p2)) => {
                    if p2 > pos + 1 && p2 <= v.len() {
                        lemma_parse_chars_range(v, p2, acc + bytes);
                    }
                },
                None => {},
            }
        } else if v[pos] >= 32 {
            lemma_parse_chars_range(v, pos + 1, acc.push(v[pos]));
        }
    }
}

/// A string token ends after where it began, within the input.
pub proof fn lemma_parse_string_range(v: Seq<u8>, pos: int)
    ensures
        spec_parse_string(v, pos) matches Some(r) ==> pos < r.1 <= v.len(),
{
    if 0 <= pos < v.len() && v[pos] == 34 {
        lemma_parse_chars_range(v, pos + 1, Seq::empty());
    }
}

/// The numeric value of one hexadecimal digit byte, if it is one.
fn hex_digit(b: u8) -> (r: Option<u16>)
    ensures
        match r {
            Some(d) => spec_hex_digit(b) == Some(d as int) && d < 16,
            None => spec_hex_digit(b) is None,
        },
{
    if 48 <= b && b <= 57 {
        Some((b - 48) as u16)
    } else if 97 <= b && b <= 102 {
        Some((b - 97 + 10) as u16)
    } else if 65 <= b && b <= 70 {
        Some((b - 65 + 10) as u16)
    } else {
        None
    }
}

/// Appends the UTF-8 encoding of one scalar outside the surrogate
/// range.
fn push_utf8_of_scalar(out: &mut Vec<u8>, u: u16)
    ensures
        final(out)@ == old(out)@ + spec_utf8_of_scalar(u as int),
{
    let ghost before = out@;
    if u < 0x80 {
        out.push(u as u8);
        proof {
            assert(out@ =~= before + spec_utf8_of_scalar(u as int));
        }
    } else if u < 0x800 {
        out.push((0xC0 + u / 0x40) as u8);
        out.push((0x80 + u % 0x40) as u8);
        proof {
            assert(out@ =~= before + spec_utf8_of_scalar(u as int));
        }
    } else {
        out.push((0xE0 + u / 0x1000) as u8);
        out.push((0x80 + (u / 0x40) % 0x40) as u8);
        out.push((0x80 + u % 0x40) as u8);
        proof {
            assert(out@ =~= before + spec_utf8_of_scalar(u as int));
        }
    }
}

/// Reads a string token at `pos`: the unescaped bytes and the position
/// after the closing quote.
pub fn parse_string(v: &[u8], pos: usize) -> (r: Option<(Vec<u8>, usize)>)
    requires
        pos <= v@.len(),
    ensures
        match r {
            Some((bytes, end)) => spec_parse_string(v@, pos as int) == Some((bytes@, end as int))
                && pos < end <= v@.len(),
            None => spec_parse_string(v@, pos as int) is None,
        },
{
    if pos >= v.len() || v[pos] != 34 {
        return None;
    }
    let mut out: Vec<u8> = Vec::new();
    let mut i: usize = pos + 1;
    proof {
        assert(out@ =~= Seq::<u8>::empty());
    }
    loop
        invariant
            pos + 1 <= i <= v@.len(),
            spec_parse_string(v@, pos as int) == spec_parse_chars(v@, i as int, out@),
        decreases v@.len() - i,
    {
        if i >= v.len() {
            return None;
        }
        let b = v[i];
        if b == 34 {
            return Some((out, i + 1));
        }
        if b == 92 {
            if i + 1 >= v.len() {
                return None;
            }
            let e = v[i + 1];
            if e == 117 {
                if v.len() - i < 6 {
                    return None;
                }
                let a = match hex_digit(v[i + 2]) {
                    Some(d) => d,
                    None => {
                        return None;
                    },
                };
                let b2 = match hex_digit(v[i + 3]) {
                    Some(d) => d,
                    None => {
                        return None;
                    },
                };
                let c = match hex_digit(v[i + 4]) {
                    Some(d) => d,
                    None => {
                        return None;
                    },
                };
                let d = match hex_digit(v[i + 5]) {
                    Some(d) => d,
                    None => {
                        return None;
                    },
                };
                let u: u16 = a * 0x1000 + b2 * 0x100 + c * 0x10 + d;
                if 0xD800 <= u && u < 0xE000 {
                    return None;
                }
                push_utf8_of_scalar(&mut out, u);
                i += 6;
            } else {
                let add: u8 = if e == 34 {
                    34
                } else if e == 92 {
                    92
                } else if e == 47 {
                    47
                } else if e == 98 {
                    8
                } else if e == 102 {
                    12
                } else if e == 110 {
                    10
                } else if e == 114 {
                    13
                } else if e == 116 {
                    9
                } else {
                    return None;
                };
                let ghost before = out@;
                out.push(add);
                proof {
                    assert(out@ =~= before + seq![add]);
                }
                i += 2;
            }
        } else if b < 32 {
            return None;
        } else {
            let ghost before = out@;
            out.push(b);
            proof {
                assert(out@ =~= before.push(b));
            }
            i += 1;
        }
    }
}

/// The UTF-8 bytes of a keyword of the grammar.
pub open spec fn kw(s: &str) -> Seq<u8> {
    encode_utf8(s@)
}

/// The method a descriptor names with these bytes, if it names one.
pub open spec fn spec_method_of_bytes(b: Seq<u8>) -> Option<Method> {
    if b == kw("GET") {
        Some(Method::Get)
    } else if b == kw("HEAD") {
        Some(Method::Head)
    } else if b == kw("POST") {
        Some(Method::Post)
    } else if b == kw("PUT") {
        Some(Method::Put)
    } else if b == kw("DELETE") {
        Some(Method::Delete)
    } else if b == kw("CONNECT") {
        Some(Method::Connect)
    } else if b == kw("OPTIONS") {
        Some(Method::Options)
    } else if b == kw("TRACE") {
        Some(Method::Trace)
    } else if b == kw("PATCH") {
        Some(Method::Patch)
    } else {
        None
    }
}

/// Reads the method a descriptor names with these bytes.
fn method_of_bytes(b: &[u8]) -> (r: Option<Method>)
    ensures
        r == spec_method_of_bytes(b@),
{
    if bytes_eq(b, "GET".as_bytes()) {
        Some(Method::Get)
    } else if bytes_eq(b, "HEAD".as_bytes()) {
        Some(Method::Head)
    } else if bytes_eq(b, "POST".as_bytes()) {
        Some(Method::Post)
    } else if bytes_eq(b, "PUT".as_bytes()) {
        Some(Method::Put)
    } else if bytes_eq(b, "DELETE".as_bytes()) {
        Some(Method::Delete)
    } else if bytes_eq(b, "CONNECT".as_bytes()) {
        Some(Method::Connect)
    } else if bytes_eq(b, "OPTIONS".as_bytes()) {
        Some(Method::Options)
    } else if bytes_eq(b, "TRACE".as_bytes()) {
        Some(Method::Trace)
    } else if bytes_eq(b, "PATCH".as_bytes()) {
        Some(Method::Patch)
    } else {
        None
    }
}

/// A method list at `pos`: `[` then method names, or nothing, then `]`.
pub open spec fn spec_parse_methods(v: Seq<u8>, pos: int) -> Option<(Seq<Method>, int)> {
    if 0 <= pos < v.len() && v[pos] == 91 {
        let p = spec_skip_ws(v, pos + 1);
        if p < v.len() && v[p] == 93 {
            Some((Seq::empty(), p + 1))
        } else {
            spec_methods_items(v, p)
        }
    } else {
        None
    }
}

/// The method names from `pos` to the closing `]`, comma-separated.
pub open spec fn spec_methods_items(v: Seq<u8>, pos: int) -> Option<(Seq<Method>, int)>
    decreases v.len() - pos,
{
    match spec_parse_string(v, pos) {
        None => None,
        Some((b, p1)) => match spec_method_of_bytes(b) {
            None => None,
            Some(m) => {
                let p2 = spec_skip_ws(v, p1);
                if p2 < v.len() && v[p2] == 44 {
                    let p3 = spec_skip_ws(v, p2 + 1);
                    if pos < p3 <= v.len() {
                        match spec_methods_items(v, p3) {
                            Some((rest, p4)) => Some((seq![m] + rest, p4)),
                            None => None,
                        }
                    } else {
                        None
                    }
                } else if p2 < v.len() && v[p2] == 93 {
                    Some((seq![m], p2 + 1))
                } else {
                    None
                }
            },
        },
    }
}

/// A parsed method list ends after where it began, within the input.
proof fn lemma_methods_items_range(v: Seq<u8>, pos: int)
    ensures
        spec_methods_items(v, pos) matches Some(r) ==> pos < r.1 <= v.len(),
    decreases v.len() - pos,
{
    lemma_parse_string_range(v, pos);
    match spec_parse_string(v, pos) {
        None => {},
        Some((b, p1)) => {
            lemma_skip_ws_range(v, p1);
            let p2 = spec_skip_ws(v, p1);
            if p2 < v.len() && v[p2] == 44 {
                let p3 = spec_skip_ws(v, p2 + 1);
                if pos < p3 <= v.len() {
                    lemma_methods_items_range(v, p3);
                }
            }
        },
    }
}

/// A parsed method list token ends after where it began, within the
/// input.
proof fn lemma_parse_methods_range(v: Seq<u8>, pos: int)
    ensures
        spec_parse_methods(v, pos) matches Some(r) ==> pos < r.1 <= v.len(),
{
    if 0 <= pos < v.len() && v[pos] == 91 {
        lemma_skip_ws_range(v, pos + 1);
        let p = spec_skip_ws(v, pos + 1);
        if !(p < v.len() && v[p] == 93) {
            lemma_methods_items_range(v, p);
        }
    }
}

/// An empty input list at `pos`: exactly `[`, whitespace, `]`.
pub open spec fn spec_parse_inputs(v: Seq<u8>, pos: int) -> Option<int> {
    if 0 <= pos < v.len() && v[pos] == 91 {
        let p = spec_skip_ws(v, pos + 1);
        if p < v.len() && v[p] == 93 {
            Some(p + 1)
        } else {
            None
        }
    } else {
        None
    }
}

/// One output object at `pos`: exactly a tag naming the HTTP kind.
pub open spec fn spec_parse_output(v: Seq<u8>, pos: int) -> Option<(FunctionOutput, int)> {
    if 0 <= pos < v.len() && v[pos] == 123 {
        let p1 = spec_skip_ws(v, pos + 1);
        match spec_parse_string(v, p1) {
            Some((k, p2)) => if k == kw("type") {
                let p3 = spec_skip_ws(v, p2);
                if p3 < v.len() && v[p3] == 58 {
                    let p4 = spec_skip_ws(v, p3 + 1);
                    match spec_parse_string(v, p4) {
                        Some((tv, p5)) => if tv == kw("http") {
                            let p6 = spec_skip_ws(v, p5);
                            if p6 < v.len() && v[p6] == 125 {
                                Some((FunctionOutput::Http, p6 + 1))
                            } else {
                                None
                            }
                        } else {
                            None
                        },
                        None => None,
                    }
                } else {
                    None
                }
            } else {
                None
            },
            None => None,
        }
    } else {
        None
    }
}

/// A parsed output object ends after where it began, within the input.
proof fn lemma_parse_output_range(v: Seq<u8>, pos: int)
    ensures
        spec_parse_output(v, pos) matches Some(r) ==> pos < r.1 <= v.len(),
{
    if 0 <= pos < v.len() && v[pos] == 123 {
        let p1 = spec_skip_ws(v, pos + 1);
        lemma_skip_ws_range(v, pos + 1);
        lemma_parse_string_range(v, p1);
        match spec_parse_string(v, p1) {
            Some((k, p2)) => {
                let p3 = spec_skip_ws(v, p2);
                lemma_skip_ws_range(v, p2);
                if p3 < v.len() && v[p3] == 58 {
                    let p4 = spec_skip_ws(v, p3 + 1);
                    lemma_skip_ws_range(v, p3 + 1);
                    lemma_parse_string_range(v, p4);
                    match spec_parse_string(v, p4) {
                        Some((tv, p5)) => {
                            lemma_skip_ws_range(v, p5);
                        },
                        None => {},
                    }
                }
            },
            None => {},
        }
    }
}

/// An output list at `pos`: `[` then output objects, or nothing, then
/// `]`.
pub open spec fn spec_parse_outputs(v: Seq<u8>, pos: int) -> Option<(Seq<FunctionOutput>, int)> {
    if 0 <= pos < v.len() && v[pos] == 91 {
        let p = spec_skip_ws(v, pos + 1);
        if p < v.len() && v[p] == 93 {
            Some((Seq::empty(), p + 1))
        } else {
            spec_outputs_items(v, p)
        }
    } else {
        None
    }
}

/// The output objects from `pos` to the closing `]`, comma-separated.
pub open spec fn spec_outputs_items(v: Seq<u8>, pos: int) -> Option<(Seq<FunctionOutput>, int)>
    decreases v.len() - pos,
{
    match spec_parse_output(v, pos) {
        None => None,
        Some((o, p1)) => {
            let p2 = spec_skip_ws(v, p1);
            if p2 < v.len() && v[p2] == 44 {
                let p3 = spec_skip_ws(v, p2 + 1);
                if pos < p3 <= v.len() {
                    match spec_outputs_items(v, p3) {
                        Some((rest, p4)) => Some((seq![o] + rest, p4)),
                        None => None,
                    }
                } else {
                    None
                }
            } else if p2 < v.len() && v[p2] == 93 {
                Some((seq![o], p2 + 1))
            } else {
                None
            }
        },
    }
}

/// A parsed output list ends after where it began, within the input.
proof fn lemma_outputs_items_range(v: Seq<u8>, pos: int)
    ensures
        spec_outputs_items(v, pos) matches Some(r) ==> pos < r.1 <= v.len(),
    decreases v.len() - pos,
{
    lemma_parse_output_range(v, pos);
    match spec_parse_output(v, pos) {
        None => {},
        Some((o, p1)) => {
            lemma_skip_ws_range(v, p1);
            let p2 = spec_skip_ws(v, p1);
            if p2 < v.len() && v[p2] == 44 {
                let p3 = spec_skip_ws(v, p2 + 1);
                if pos < p3 <= v.len() {
                    lemma_outputs_items_range(v, p3);
                }
            }
        },
    }
}

/// A parsed input list ends after where it began, within the input.
proof fn lemma_parse_inputs_range(v: Seq<u8>, pos: int)
    ensures
        spec_parse_inputs(v, pos) matches Some(end) ==> pos < end <= v.len(),
{
    if 0 <= pos < v.len() && v[pos] == 91 {
        lemma_skip_ws_range(v, pos + 1);
    }
}

/// A parsed output list token ends after where it began, within the
/// input.
proof fn lemma_parse_outputs_range(v: Seq<u8>, pos: int)
    ensures
        spec_parse_outputs(v, pos) matches Some(r) ==> pos < r.1 <= v.len(),
{
    if 0 <= pos < v.len() && v[pos] == 91 {
        lemma_skip_ws_range(v, pos + 1);
        let p = spec_skip_ws(v, pos + 1);
        if !(p < v.len() && v[p] == 93) {
            lemma_outputs_items_range(v, p);
        }
    }
}

/// The trigger fields read so far, and what a complete trigger needs:
/// the tag, the path, and the method list, each exactly once, in any
/// order.  An unknown or repeated key fails the descriptor.
pub open spec fn spec_trigger_fields(
    v: Seq<u8>,
    pos: int,
    ty: bool,
    path: Option<Seq<char>>,
    methods: Option<Seq<Method>>,
) -> Option<(TriggerView, int)>
    decreases v.len() - pos, 1int,
{
    match spec_parse_string(v, pos) {
        None => None,
        Some((k, p1)) => {
            let p2 = spec_skip_ws(v, p1);
            if !(p2 < v.len() && v[p2] == 58) {
                None
            } else {
                let p3 = spec_skip_ws(v, p2 + 1);
                if k == kw("type") {
                    if ty {
                        None
                    } else {
                        match spec_parse_string(v, p3) {
                            Some((tv, p4)) => if tv == kw("http") {
                                spec_trigger_after_field(v, pos, p4, true, path, methods)
                            } else {
                                None
                            },
                            None => None,
                        }
                    }
                } else if k == kw("path") {
                    if path is Some {
                        None
                    } else {
                        match spec_parse_string(v, p3) {
                            Some((b, p4)) => if valid_utf8(b) {
                                spec_trigger_after_field(
                                    v,
                                    pos,
                                    p4,
                                    ty,
                                    Some(decode_utf8(b)),
                                    methods,
                                )
                            } else {
                                None
                            },
                            None => None,
                        }
                    }
                } else if k == kw("methods") {
                    if methods is Some {
                        None
                    } else {
                        match spec_parse_methods(v, p3) {
                            Some((ms, p4)) => spec_trigger_after_field(
                                v,
                                pos,
                                p4,
                                ty,
                                path,
                                Some(ms),
                            ),
                            None => None,
                        }
                    }
                } else {
                    None
                }
            }
        },
    }
}

/// After one trigger field: a comma continues the object, a brace ends
/// it, and a complete trigger has all three fields.
pub open spec fn spec_trigger_after_field(
    v: Seq<u8>,
    anchor: int,
    p4: int,
    ty: bool,
    path: Option<Seq<char>>,
    methods: Option<Seq<Method>>,
) -> Option<(TriggerView, int)>
    decreases v.len() - anchor, 0int,
{
    let p5 = spec_skip_ws(v, p4);
    if p5 < v.len() && v[p5] == 44 {
        let p6 = spec_skip_ws(v, p5 + 1);
        if anchor < p6 <= v.len() {
            spec_trigger_fields(v, p6, ty, path, methods)
        } else {
            None
        }
    } else if p5 < v.len() && v[p5] == 125 {
        match (path, methods) {
            (Some(pa), Some(ms)) => if ty {
                Some((TriggerView { path: pa, methods: ms }, p5 + 1))
            } else {
                None
            },
            _ => None,
        }
    } else {
        None
    }
}

/// A parsed trigger body ends after where it began, within the input.
proof fn lemma_trigger_fields_range(
    v: Seq<u8>,
    pos: int,
    ty: bool,
    path: Option<Seq<char>>,
    methods: Option<Seq<Method>>,
)
    ensures
        spec_trigger_fields(v, pos, ty, path, methods) matches Some(r) ==> pos < r.1 <= v.len(),
    decreases v.len() - pos, 1int,
{
    lemma_parse_string_range(v, pos);
    match spec_parse_string(v, pos) {
        None => {},
        Some((k, p1)) => {
            lemma_skip_ws_range(v, p1);
            let p2 = spec_skip_ws(v, p1);
            if p2 < v.len() && v[p2] == 58 {
                lemma_skip_ws_range(v, p2 + 1);
                let p3 = spec_skip_ws(v, p2 + 1);
                lemma_parse_string_range(v, p3);
                lemma_parse_methods_range(v, p3);
                if k == kw("type") && !ty {
                    match spec_parse_string(v, p3) {
                        Some((tv, p4)) => {
                            lemma_trigger_after_field_range(v, pos, p4, true, path, methods);
                        },
                        None => {},
                    }
                } else if k == kw("path") && path is None {
                    match spec_parse_string(v, p3) {
                        Some((b, p4)) => {
                            lemma_trigger_after_field_range(
                                v,
                                pos,
                                p4,
                                ty,
                                Some(decode_utf8(b)),
                                methods,
                            );
                        },
                        None => {},
                    }
                } else if k == kw("methods") && methods is None {
                    match spec_parse_methods(v, p3) {
                        Some((ms, p4)) => {
                            lemma_trigger_after_field_range(v, pos, p4, ty, path, Some(ms));
                        },
                        None => {},
                    }
                }
            }
        },
    }
}

/// The position after one trigger field stays within the input.
proof fn lemma_trigger_after_field_range(
    v: Seq<u8>,
    anchor: int,
    p4: int,
    ty: bool,
    path: Option<Seq<char>>,
    methods: Option<Seq<Method>>,
)
    requires
        0 <= anchor < p4 <= v.len(),
    ensures
        spec_trigger_after_field(v, anchor, p4, ty, path, methods) matches Some(r) ==> anchor
            < r.1 <= v.len(),
    decreases v.len() - anchor, 0int,
{
    lemma_skip_ws_range(v, p4);
    let p5 = spec_skip_ws(v, p4);
    if p5 < v.len() && v[p5] == 44 {
        let p6 = spec_skip_ws(v, p5 + 1);
        if anchor < p6 <= v.len() {
            lemma_trigger_fields_range(v, p6, ty, path, methods);
        }
    }
}

/// A trigger object at `pos`.
pub open spec fn spec_parse_trigger(v: Seq<u8>, pos: int) -> Option<(TriggerView, int)> {
    if 0 <= pos < v.len() && v[pos] == 123 {
        let p1 = spec_skip_ws(v, pos + 1);
        spec_trigger_fields(v, p1, false, None, None)
    } else {
        None
    }
}

/// A parsed trigger token ends after where it began, within the input.
proof fn lemma_parse_trigger_range(v: Seq<u8>, pos: int)
    ensures
        spec_parse_trigger(v, pos) matches Some(r) ==> pos < r.1 <= v.len(),
{
    if 0 <= pos < v.len() && v[pos] == 123 {
        lemma_skip_ws_range(v, pos + 1);
        let p1 = spec_skip_ws(v, pos + 1);
        lemma_trigger_fields_range(v, p1, false, None, None);
    }
}

/// The function fields read so far, and what a complete descriptor
/// needs: the name, the trigger, the inputs and the outputs, each
/// exactly once, in any order.  An unknown or repeated key fails the
/// descriptor.
pub open spec fn spec_function_fields(
    v: Seq<u8>,
    pos: int,
    name: Option<Seq<char>>,
    trig: Option<TriggerView>,
    inputs_seen: bool,
    outputs: Option<Seq<FunctionOutput>>,
) -> Option<(FunctionView, int)>
    decreases v.len() - pos, 1int,
{
    match spec_parse_string(v, pos) {
        None => None,
        Some((k, p1)) => {
            let p2 = spec_skip_ws(v, p1);
            if !(p2 < v.len() && v[p2] == 58) {
                None
            } else {
                let p3 = spec_skip_ws(v, p2 + 1);
                if k == kw("name") {
                    if name is Some {
                        None
                    } else {
                        match spec_parse_string(v, p3) {
                            Some((b, p4)) => if valid_utf8(b) {
                                spec_function_after_field(
                                    v,
                                    pos,
                                    p4,
                                    Some(decode_utf8(b)),
                                    trig,
                                    inputs_seen,
                                    outputs,
                                )
                            } else {
                                None
                            },
                            None => None,
                        }
                    }
                } else if k == kw("trigger") {
                    if trig is Some {
                        None
                    } else {
                        match spec_parse_trigger(v, p3) {
                            Some((t, p4)) => spec_function_after_field(
                                v,
                                pos,
                                p4,
                                name,
                                Some(t),
                                inputs_seen,
                                outputs,
                            ),
                            None => None,
                        }
                    }
                } else if k == kw("inputs") {
                    if inputs_seen {
                        None
                    } else {
                        match spec_parse_inputs(v, p3) {
                            Some(p4) => spec_function_after_field(
                                v,
                                pos,
                                p4,
                                name,
                                trig,
                                true,
                                outputs,
                            ),
                            None => None,
                        }
                    }
                } else if k == kw("outputs") {
                    if outputs is Some {
                        None
                    } else {
                        match spec_parse_outputs(v, p3) {
                            Some((os, p4)) => spec_function_after_field(
                                v,
                                pos,
                                p4,
                                name,
                                trig,
                                inputs_seen,
                                Some(os),
                            ),
                            None => None,
                        }
                    }
                } else {
                    None
                }
            }
        },
    }
}

/// After one function field: a comma continues the object, a brace
/// ends it, and a complete descriptor has all four fields.
pub open spec fn spec_function_after_field(
    v: Seq<u8>,
    anchor: int,
    p4: int,
    name: Option<Seq<char>>,
    trig: Option<TriggerView>,
    inputs_seen: bool,
    outputs: Option<Seq<FunctionOutput>>,
) -> Option<(FunctionView, int)>
    decreases v.len() - anchor, 0int,
{
    let p5 = spec_skip_ws(v, p4);
    if p5 < v.len() && v[p5] == 44 {
        let p6 = spec_skip_ws(v, p5 + 1);
        if anchor < p6 <= v.len() {
            spec_function_fields(v, p6, name, trig, inputs_seen, outputs)
        } else {
            None
        }
    } else if p5 < v.len() && v[p5] == 125 {
        match (name, trig, outputs) {
            (Some(n), Some(t), Some(os)) => if inputs_seen {
                Some(
                    (
                        FunctionView { name: n, trigger: t, inputs: Seq::empty(), outputs: os },
                        p5 + 1,
                    ),
                )
            } else {
                None
            },
            _ => None,
        }
    } else {
        None
    }
}

/// A parsed descriptor body ends after where it began, within the
/// input.
proof fn lemma_function_fields_range(
    v: Seq<u8>,
    pos: int,
    name: Option<Seq<char>>,
    trig: Option<TriggerView>,
    inputs_seen: bool,
    outputs: Option<Seq<FunctionOutput>>,
)
    ensures
        spec_function_fields(v, pos, name, trig, inputs_seen, outputs) matches Some(r) ==> pos
            < r.1 <= v.len(),
    decreases v.len() - pos, 1int,
{
    lemma_parse_string_range(v, pos);
    match spec_parse_string(v, pos) {
        None => {},
        Some((k, p1)) => {
            lemma_skip_ws_range(v, p1);
            let p2 = spec_skip_ws(v, p1);
            if p2 < v.len() && v[p2] == 58 {
                lemma_skip_ws_range(v, p2 + 1);
                let p3 = spec_skip_ws(v, p2 + 1);
                lemma_parse_string_range(v, p3);
                lemma_parse_trigger_range(v, p3);
                lemma_parse_inputs_range(v, p3);
                lemma_parse_outputs_range(v, p3);
                if k == kw("name") && name is None {
                    match spec_parse_string(v, p3) {
                        Some((b, p4)) => {
                            lemma_function_after_field_range(
                                v,
                                pos,
                                p4,
                                Some(decode_utf8(b)),
                                trig,
                                inputs_seen,
                                outputs,
                            );
                        },
                        None => {},
                    }
                } else if k == kw("trigger") && trig is None {
                    match spec_parse_trigger(v, p3) {
                        Some((t, p4)) => {
                            lemma_function_after_field_range(
                                v,
                                pos,
                                p4,
                                name,
                                Some(t),
                                inputs_seen,
                                outputs,
                            );
                        },
                        None => {},
                    }
                } else if k == kw("inputs") && !inputs_seen {
                    match spec_parse_inputs(v, p3) {
                        Some(p4) => {
                            lemma_function_after_field_range(
                                v,
                                pos,
                                p4,
                                name,
                                trig,
                                true,
                                outputs,
                            );
                        },
                        None => {},
                    }
                } else if k == kw("outputs") && outputs is None {
                    match spec_parse_outputs(v, p3) {
                        Some((os, p4)) => {
                            lemma_function_after_field_range(
                                v,
                                pos,
                                p4,
                                name,
                                trig,
                                inputs_seen,
                                Some(os),
                            );
                        },
                        None => {},
                    }
                }
            }
        },
    }
}

/// The position after one function field stays within the input.
proof fn lemma_function_after_field_range(
    v: Seq<u8>,
    anchor: int,
    p4: int,
    name: Option<Seq<char>>,
    trig: Option<TriggerView>,
    inputs_seen: bool,
    outputs: Option<Seq<FunctionOutput>>,
)
    requires
        0 <= anchor < p4 <= v.len(),
    ensures
        spec_function_after_field(v, anchor, p4, name, trig, inputs_seen, outputs) matches Some(
            r,
        ) ==> anchor < r.1 <= v.len(),
    decreases v.len() - anchor, 0int,
{
    lemma_skip_ws_range(v, p4);
    let p5 = spec_skip_ws(v, p4);
    if p5 < v.len() && v[p5] == 44 {
        let p6 = spec_skip_ws(v, p5 + 1);
        if anchor < p6 <= v.len() {
            lemma_function_fields_range(v, p6, name, trig, inputs_seen, outputs);
        }
    }
}

/// A function descriptor object at `pos`.
pub open spec fn spec_parse_function(v: Seq<u8>, pos: int) -> Option<(FunctionView, int)> {
    if 0 <= pos < v.len() && v[pos] == 123 {
        let p1 = spec_skip_ws(v, pos + 1);
        spec_function_fields(v, p1, None, None, false, None)
    } else {
        None
    }
}

/// The descriptors from `pos` to the closing `]`, comma-separated.
pub open spec fn spec_functions_items(v: Seq<u8>, pos: int) -> Option<(Seq<FunctionView>, int)>
    decreases v.len() - pos,
{
    match spec_parse_function(v, pos) {
        None => None,
        Some((f, p1)) => {
            let p2 = spec_skip_ws(v, p1);
            if p2 < v.len() && v[p2] == 44 {
                let p3 = spec_skip_ws(v, p2 + 1);
                if pos < p3 <= v.len() {
                    match spec_functions_items(v, p3) {
                        Some((rest, p4)) => Some((seq![f] + rest, p4)),
                        None => None,
                    }
                } else {
                    None
                }
            } else if p2 < v.len() && v[p2] == 93 {
                Some((seq![f], p2 + 1))
            } else {
                None
            }
        },
    }
}

/// One record's function descriptors: a whole payload holding one
/// array of descriptor objects and nothing else.
pub open spec fn spec_parse_functions_payload(v: Seq<u8>) -> Option<Seq<FunctionView>> {
    let p = spec_skip_ws(v, 0);
    if p < v.len() && v[p] == 91 {
        let p1 = spec_skip_ws(v, p + 1);
        if p1 < v.len() && v[p1] == 93 {
            if spec_skip_ws(v, p1 + 1) == v.len() {
                Some(Seq::empty())
            } else {
                None
            }
        } else {
            match spec_functions_items(v, p1) {
                Some((fs, p2)) => if 0 <= p2 <= v.len() && spec_skip_ws(v, p2) == v.len() {
                    Some(fs)
                } else {
                    None
                },
                None => None,
            }
        }
    } else {
        None
    }
}

/// The names from `pos` to the closing `]`, comma-separated.
pub open spec fn spec_vars_items(v: Seq<u8>, pos: int) -> Option<(Seq<Seq<char>>, int)>
    decreases v.len() - pos,
{
    match spec_parse_string(v, pos) {
        None => None,
        Some((b, p1)) => if !valid_utf8(b) {
            None
        } else {
            let p2 = spec_skip_ws(v, p1);
            if p2 < v.len() && v[p2] == 44 {
                let p3 = spec_skip_ws(v, p2 + 1);
                if pos < p3 <= v.len() {
                    match spec_vars_items(v, p3) {
                        Some((rest, p4)) => Some((seq![decode_utf8(b)] + rest, p4)),
                        None => None,
                    }
                } else {
                    None
                }
            } else if p2 < v.len() && v[p2] == 93 {
                Some((seq![decode_utf8(b)], p2 + 1))
            } else {
                None
            }
        },
    }
}

/// One record's variable names: a whole payload holding one array of
/// strings and nothing else.
pub open spec fn spec_parse_vars_payload(v: Seq<u8>) -> Option<Seq<Seq<char>>> {
    let p = spec_skip_ws(v, 0);
    if p < v.len() && v[p] == 91 {
        let p1 = spec_skip_ws(v, p + 1);
        if p1 < v.len() && v[p1] == 93 {
            if spec_skip_ws(v, p1 + 1) == v.len() {
                Some(Seq::empty())
            } else {
                None
            }
        } else {
            match spec_vars_items(v, p1) {
                Some((vs, p2)) => if 0 <= p2 <= v.len() && spec_skip_ws(v, p2) == v.len() {
                    Some(vs)
                } else {
                    None
                },
                None => None,
            }
        }
    } else {
        None
    }
}

/// The mathematical value of an optional owned string.
pub open spec fn opt_string_view(o: Option<String>) -> Option<Seq<char>> {
    match o {
        Some(s) => Some(s@),
        None => None,
    }
}

/// The mathematical value of an optional method list.
pub open spec fn opt_methods_view(o: Option<Vec<Method>>) -> Option<Seq<Method>> {
    match o {
        Some(m) => Some(m@),
        None => None,
    }
}

/// The mathematical value of an optional trigger.
pub open spec fn opt_trigger_view(o: Option<FunctionTrigger>) -> Option<TriggerView> {
    match o {
        Some(t) => Some(t@),
        None => None,
    }
}

/// The mathematical value of an optional output list.
pub open spec fn opt_outputs_view(o: Option<Vec<FunctionOutput>>) -> Option<Seq<FunctionOutput>> {
    match o {
        Some(os) => Some(os@),
        None => None,
    }
}

/// Reads a method list token.
fn parse_methods(v: &[u8], pos: usize) -> (r: Option<(Vec<Method>, usize)>)
    requires
        pos <= v@.len(),
    ensures
        match r {
            Some((ms, end)) => spec_parse_methods(v@, pos as int) == Some((ms@, end as int))
                && pos < end <= v@.len(),
            None => spec_parse_methods(v@, pos as int) is None,
        },
{
    if pos >= v.len() || v[pos] != 91 {
        return None;
    }
    let p0 = skip_ws(v, pos + 1);
    if p0 < v.len() && v[p0] == 93 {
        let ms: Vec<Method> = Vec::new();
        proof {
            assert(ms@ =~= Seq::<Method>::empty());
        }
        return Some((ms, p0 + 1));
    }
    let mut acc: Vec<Method> = Vec::new();
    let mut p = p0;
    proof {
        if spec_methods_items(v@, p as int) is Some {
            let rest = spec_methods_items(v@, p as int)->Some_0.0;
            assert(acc@ + rest =~= rest);
        }
    }
    loop
        invariant
            pos < p <= v@.len(),
            spec_parse_methods(v@, pos as int) == (match spec_methods_items(v@, p as int) {
                Some((rest, pe)) => Some((acc@ + rest, pe)),
                None => None::<(Seq<Method>, int)>,
            }),
        decreases v@.len() - p,
    {
        let (mb, p1) = match parse_string(v, p) {
            Some(x) => x,
            None => {
                return None;
            },
        };
        let m = match method_of_bytes(mb.as_slice()) {
            Some(m) => m,
            None => {
                return None;
            },
        };
        let p2 = skip_ws(v, p1);
        let ghost old_acc = acc@;
        if p2 < v.len() && v[p2] == 44 {
            let p3 = skip_ws(v, p2 + 1);
            acc.push(m);
            proof {
                assert(acc@ =~= old_acc + seq![m]);
                if spec_methods_items(v@, p3 as int) is Some {
                    let rest = spec_methods_items(v@, p3 as int)->Some_0.0;
                    assert(old_acc + (seq![m] + rest) =~= acc@ + rest);
                }
            }
            p = p3;
        } else if p2 < v.len() && v[p2] == 93 {
            acc.push(m);
            proof {
                assert(acc@ =~= old_acc + seq![m]);
            }
            return Some((acc, p2 + 1));
        } else {
            return None;
        }
    }
}

/// Reads one output object.
fn parse_output(v: &[u8], pos: usize) -> (r: Option<(FunctionOutput, usize)>)
    requires
        pos <= v@.len(),
    ensures
        match r {
            Some((o, end)) => spec_parse_output(v@, pos as int) == Some((o, end as int)) && pos
                < end <= v@.len(),
            None => spec_parse_output(v@, pos as int) is None,
        },
{
    if pos >= v.len() || v[pos] != 123 {
        return None;
    }
    let p1 = skip_ws(v, pos + 1);
    let (k, p2) = match parse_string(v, p1) {
        Some(x) => x,
        None => {
            return None;
        },
    };
    if !bytes_eq(k.as_slice(), "type".as_bytes()) {
        return None;
    }
    let p3 = skip_ws(v, p2);
    if !(p3 < v.len() && v[p3] == 58) {
        return None;
    }
    let p4 = skip_ws(v, p3 + 1);
    let (tv, p5) = match parse_string(v, p4) {
        Some(x) => x,
        None => {
            return None;
        },
    };
    if !bytes_eq(tv.as_slice(), "http".as_bytes()) {
        return None;
    }
    let p6 = skip_ws(v, p5);
    if p6 < v.len() && v[p6] == 125 {
        Some((FunctionOutput::Http, p6 + 1))
    } else {
        None
    }
}

/// Reads an output list token.
fn parse_outputs(v: &[u8], pos: usize) -> (r: Option<(Vec<FunctionOutput>, usize)>)
    requires
        pos <= v@.len(),
    ensures
        match r {
            Some((os, end)) => spec_parse_outputs(v@, pos as int) == Some((os@, end as int))
                && pos < end <= v@.len(),
            None => spec_parse_outputs(v@, pos as int) is None,
        },
{
    if pos >= v.len() || v[pos] != 91 {
        return None;
    }
    let p0 = skip_ws(v, pos + 1);
    if p0 < v.len() && v[p0] == 93 {
        let os: Vec<FunctionOutput> = Vec::new();
        proof {
            assert(os@ =~= Seq::<FunctionOutput>::empty());
        }
        return Some((os, p0 + 1));
    }
    let mut acc: Vec<FunctionOutput> = Vec::new();
    let mut p = p0;
    proof {
        if spec_outputs_items(v@, p as int) is Some {
            let rest = spec_outputs_items(v@, p as int)->Some_0.0;
            assert(acc@ + rest =~= rest);
        }
    }
    loop
        invariant
            pos < p <= v@.len(),
            spec_parse_outputs(v@, pos as int) == (match spec_outputs_items(v@, p as int) {
                Some((rest, pe)) => Some((acc@ + rest, pe)),
                None => None::<(Seq<FunctionOutput>, int)>,
            }),
        decreases v@.len() - p,
    {
        let (o, p1) = match parse_output(v, p) {
            Some(x) => x,
            None => {
                return None;
            },
        };
        let p2 = skip_ws(v, p1);
        let ghost old_acc = acc@;
        if p2 < v.len() && v[p2] == 44 {
            let p3 = skip_ws(v, p2 + 1);
            acc.push(o);
            proof {
                assert(acc@ =~= old_acc + seq![o]);
                if spec_outputs_items(v@, p3 as int) is Some {
                    let rest = spec_outputs_items(v@, p3 as int)->Some_0.0;
                    assert(old_acc + (seq![o] + rest) =~= acc@ + rest);
                }
            }
            p = p3;
        } else if p2 < v.len() && v[p2] == 93 {
            acc.push(o);
            proof {
                assert(acc@ =~= old_acc + seq![o]);
            }
            return Some((acc, p2 + 1));
        } else {
            return None;
        }
    }
}

/// Reads an empty input list token.
fn parse_inputs(v: &[u8], pos: usize) -> (r: Option<usize>)
    requires
        pos <= v@.len(),
    ensures
        match r {
            Some(end) => spec_parse_inputs(v@, pos as int) == Some(end as int) && pos < end
                <= v@.len(),
            None => spec_parse_inputs(v@, pos as int) is None,
        },
{
    if pos >= v.len() || v[pos] != 91 {
        return None;
    }
    let p = skip_ws(v, pos + 1);
    if p < v.len() && v[p] == 93 {
        Some(p + 1)
    } else {
        None
    }
}

/// Reads a trigger object.
fn parse_trigger(v: &[u8], pos: usize) -> (r: Option<(FunctionTrigger, usize)>)
    requires
        pos <= v@.len(),
    ensures
        match r {
            Some((t, end)) => spec_parse_trigger(v@, pos as int) == Some((t@, end as int)) && pos
                < end <= v@.len(),
            None => spec_parse_trigger(v@, pos as int) is None,
        },
{
    if pos >= v.len() || v[pos] != 123 {
        return None;
    }
    let mut p = skip_ws(v, pos + 1);
    let mut ty = false;
    let mut path: Option<String> = None;
    let mut methods: Option<Vec<Method>> = None;
    loop
        invariant
            pos < p <= v@.len(),
            spec_parse_trigger(v@, pos as int) == spec_trigger_fields(
                v@,
                p as int,
                ty,
                opt_string_view(path),
                opt_methods_view(methods),
            ),
        decreases v@.len() - p,
    {
        let (k, p1) = match parse_string(v, p) {
            Some(x) => x,
            None => {
                return None;
            },
        };
        let p2 = skip_ws(v, p1);
        if !(p2 < v.len() && v[p2] == 58) {
            return None;
        }
        let p3 = skip_ws(v, p2 + 1);
        let p4: usize;
        if bytes_eq(k.as_slice(), "type".as_bytes()) {
            if ty {
                return None;
            }
            let (tv, q) = match parse_string(v, p3) {
                Some(x) => x,
                None => {
                    return None;
                },
            };
            if !bytes_eq(tv.as_slice(), "http".as_bytes()) {
                return None;
            }
            ty = true;
            p4 = q;
        } else if bytes_eq(k.as_slice(), "path".as_bytes()) {
            if path.is_some() {
                return None;
            }
            let (b, q) = match parse_string(v, p3) {
                Some(x) => x,
                None => {
                    return None;
                },
            };
            let st = match bytes_to_string(b.as_slice()) {
                Some(st) => st,
                None => {
                    return None;
                },
            };
            path = Some(st);
            p4 = q;
        } else if bytes_eq(k.as_slice(), "methods".as_bytes()) {
            if methods.is_some() {
                return None;
            }
            let (ms, q) = match parse_methods(v, p3) {
                Some(x) => x,
                None => {
                    return None;
                },
            };
            methods = Some(ms);
            p4 = q;
        } else {
            return None;
        }
        let p5 = skip_ws(v, p4);
        if p5 < v.len() && v[p5] == 44 {
            let p6 = skip_ws(v, p5 + 1);
            p = p6;
        } else if p5 < v.len() && v[p5] == 125 {
            if !ty {
                return None;
            }
            let pa = match path {
                Some(s) => s,
                None => {
                    return None;
                },
            };
            let ms = match methods {
                Some(m) => m,
                None => {
                    return None;
                },
            };
            return Some((FunctionTrigger::Http { path: pa, methods: ms }, p5 + 1));
        } else {
            return None;
        }
    }
}

/// Reads one function descriptor object.
fn parse_function(v: &[u8], pos: usize) -> (r: Option<(Function, usize)>)
    requires
        pos <= v@.len(),
    ensures
        match r {
            Some((f, end)) => spec_parse_function(v@, pos as int) == Some((f@, end as int)) && pos
                < end <= v@.len(),
            None => spec_parse_function(v@, pos as int) is None,
        },
{
    if pos >= v.len() || v[pos] != 123 {
        return None;
    }
    let mut p = skip_ws(v, pos + 1);
    let mut name: Option<String> = None;
    let mut trig: Option<FunctionTrigger> = None;
    let mut inputs_seen = false;
    let mut outputs: Option<Vec<FunctionOutput>> = None;
    loop
        invariant
            pos < p <= v@.len(),
            spec_parse_function(v@, pos as int) == spec_function_fields(
                v@,
                p as int,
                opt_string_view(name),
                opt_trigger_view(trig),
                inputs_seen,
                opt_outputs_view(outputs),
            ),
        decreases v@.len() - p,
    {
        let (k, p1) = match parse_string(v, p) {
            Some(x) => x,
            None => {
                return None;
            },
        };
        let p2 = skip_ws(v, p1);
        if !(p2 < v.len() && v[p2] == 58) {
            return None;
        }
        let p3 = skip_ws(v, p2 + 1);
        let p4: usize;
        if bytes_eq(k.as_slice(), "name".as_bytes()) {
            if name.is_some() {
                return None;
            }
            let (b, q) = match parse_string(v, p3) {
                Some(x) => x,
                None => {
                    return None;
                },
            };
            let st = match bytes_to_string(b.as_slice()) {
                Some(st) => st,
                None => {
                    return None;
                },
            };
            name = Some(st);
            p4 = q;
        } else if bytes_eq(k.as_slice(), "trigger".as_bytes()) {
            if trig.is_some() {
                return None;
            }
            let (t, q) = match parse_trigger(v, p3) {
                Some(x) => x,
                None => {
                    return None;
                },
            };
            trig = Some(t);
            p4 = q;
        } else if bytes_eq(k.as_slice(), "inputs".as_bytes()) {
            if inputs_seen {
                return None;
            }
            let q = match parse_inputs(v, p3) {
                Some(x) => x,
                None => {
                    return None;
                },
            };
            inputs_seen = true;
            p4 = q;
        } else if bytes_eq(k.as_slice(), "outputs".as_bytes()) {
            if outputs.is_some() {
                return None;
            }
            let (os, q) = match parse_outputs(v, p3) {
                Some(x) => x,
                None => {
                    return None;
                },
            };
            outputs = Some(os);
            p4 = q;
        } else {
            return None;
        }
        let p5 = skip_ws(v, p4);
        if p5 < v.len() && v[p5] == 44 {
            let p6 = skip_ws(v, p5 + 1);
            p = p6;
        } else if p5 < v.len() && v[p5] == 125 {
            if !inputs_seen {
                return None;
            }
            let n = match name {
                Some(s) => s,
                None => {
                    return None;
                },
            };
            let t = match trig {
                Some(t) => t,
                None => {
                    return None;
                },
            };
            let os = match outputs {
                Some(os) => os,
                None => {
                    return None;
                },
            };
            let f = Function { name: n, trigger: t, inputs: Vec::new(), outputs: os };
            proof {
                assert(f.inputs@ =~= Seq::<crate::metadata::FunctionInput>::empty());
            }
            return Some((f, p5 + 1));
        } else {
            return None;
        }
    }
}

/// Reads the descriptors between an array's brackets.
fn parse_functions_items(v: &[u8], pos: usize) -> (r: Option<(Vec<Function>, usize)>)
    requires
        pos <= v@.len(),
    ensures
        match r {
            Some((fs, end)) => spec_functions_items(v@, pos as int) == Some(
                (functions_view(fs@), end as int),
            ) && pos < end <= v@.len(),
            None => spec_functions_items(v@, pos as int) is None,
        },
{
    let mut acc: Vec<Function> = Vec::new();
    let mut p = pos;
    proof {
        if spec_functions_items(v@, p as int) is Some {
            let rest = spec_functions_items(v@, p as int)->Some_0.0;
            assert(functions_view(acc@) + rest =~= rest);
        }
    }
    loop
        invariant
            pos <= p <= v@.len(),
            spec_functions_items(v@, pos as int) == (match spec_functions_items(v@, p as int) {
                Some((rest, pe)) => Some((functions_view(acc@) + rest, pe)),
                None => None::<(Seq<FunctionView>, int)>,
            }),
        decreases v@.len() - p,
    {
        let (f, p1) = match parse_function(v, p) {
            Some(x) => x,
            None => {
                return None;
            },
        };
        let p2 = skip_ws(v, p1);
        let ghost old_acc = functions_view(acc@);
        if p2 < v.len() && v[p2] == 44 {
            let p3 = skip_ws(v, p2 + 1);
            let ghost fv = f@;
            acc.push(f);
            proof {
                assert(functions_view(acc@) =~= old_acc + seq![fv]);
                if spec_functions_items(v@, p3 as int) is Some {
                    let rest = spec_functions_items(v@, p3 as int)->Some_0.0;
                    assert(old_acc + (seq![fv] + rest) =~= functions_view(acc@) + rest);
                }
            }
            p = p3;
        } else if p2 < v.len() && v[p2] == 93 {
            let ghost fv = f@;
            acc.push(f);
            proof {
                assert(functions_view(acc@) =~= old_acc + seq![fv]);
            }
            return Some((acc, p2 + 1));
        } else {
            return None;
        }
    }
}

/// Reads one record's function descriptors: a whole payload holding
/// one array of descriptor objects and nothing else.
pub fn parse_functions_payload(v: &[u8]) -> (r: Option<Vec<Function>>)
    ensures
        match r {
            Some(fs) => spec_parse_functions_payload(v@) == Some(functions_view(fs@)),
            None => spec_parse_functions_payload(v@) is None,
        },
{
    let p = skip_ws(v, 0);
    if !(p < v.len() && v[p] == 91) {
        return None;
    }
    let p1 = skip_ws(v, p + 1);
    if p1 < v.len() && v[p1] == 93 {
        if skip_ws(v, p1 + 1) == v.len() {
            let fs: Vec<Function> = Vec::new();
            proof {
                assert(functions_view(fs@) =~= Seq::<FunctionView>::empty());
            }
            return Some(fs);
        }
        return None;
    }
    let (fs, p2) = match parse_functions_items(v, p1) {
        Some(x) => x,
        None => {
            return None;
        },
    };
    if skip_ws(v, p2) == v.len() {
        Some(fs)
    } else {
        None
    }
}

/// Reads the names between an array's brackets.
fn parse_vars_items(v: &[u8], pos: usize) -> (r: Option<(Vec<String>, usize)>)
    requires
        pos <= v@.len(),
    ensures
        match r {
            Some((vs, end)) => spec_vars_items(v@, pos as int) == Some(
                (strings_view(vs@), end as int),
            ) && pos < end <= v@.len(),
            None => spec_vars_items(v@, pos as int) is None,
        },
{
    let mut acc: Vec<String> = Vec::new();
    let mut p = pos;
    proof {
        if spec_vars_items(v@, p as int) is Some {
            let rest = spec_vars_items(v@, p as int)->Some_0.0;
            assert(strings_view(acc@) + rest =~= rest);
        }
    }
    loop
        invariant
            pos <= p <= v@.len(),
            spec_vars_items(v@, pos as int) == (match spec_vars_items(v@, p as int) {
                Some((rest, pe)) => Some((strings_view(acc@) + rest, pe)),
                None => None::<(Seq<Seq<char>>, int)>,
            }),
        decreases v@.len() - p,
    {
        let (b, p1) = match parse_string(v, p) {
            Some(x) => x,
            None => {
                return None;
            },
        };
        let st = match bytes_to_string(b.as_slice()) {
            Some(st) => st,
            None => {
                return None;
            },
        };
        let p2 = skip_ws(v, p1);
        let ghost old_acc = strings_view(acc@);
        if p2 < v.len() && v[p2] == 44 {
            let p3 = skip_ws(v, p2 + 1);
            let ghost sv = st@;
            acc.push(st);
            proof {
                assert(strings_view(acc@) =~= old_acc + seq![sv]);
                if spec_vars_items(v@, p3 as int) is Some {
                    let rest = spec_vars_items(v@, p3 as int)->Some_0.0;
                    assert(old_acc + (seq![sv] + rest) =~= strings_view(acc@) + rest);
                }
            }
            p = p3;
        } else if p2 < v.len() && v[p2] == 93 {
            let ghost sv = st@;
            acc.push(st);
            proof {
                assert(strings_view(acc@) =~= old_acc + seq![sv]);
            }
            return Some((acc, p2 + 1));
        } else {
            return None;
        }
    }
}

/// Reads one record's variable names: a whole payload holding one
/// array of strings and nothing else.
pub fn parse_vars_payload(v: &[u8]) -> (r: Option<Vec<String>>)
    ensures
        match r {
            Some(vs) => spec_parse_vars_payload(v@) == Some(strings_view(vs@)),
            None => spec_parse_vars_payload(v@) is None,
        },
{
    let p = skip_ws(v, 0);
    if !(p < v.len() && v[p] == 91) {
        return None;
    }
    let p1 = skip_ws(v, p + 1);
    if p1 < v.len() && v[p1] == 93 {
        if skip_ws(v, p1 + 1) == v.len() {
            let vs: Vec<String> = Vec::new();
            proof {
                assert(strings_view(vs@) =~= Seq::<Seq<char>>::empty());
            }
            return Some(vs);
        }
        return None;
    }
    let (vs, p2) = match parse_vars_items(v, p1) {
        Some(x) => x,
        None => {
            return None;
        },
    };
    if skip_ws(v, p2) == v.len() {
        Some(vs)
    } else {
        None
    }
}

} // verus!
