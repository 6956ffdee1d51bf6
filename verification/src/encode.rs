//! Printing descriptor records: the canonical byte form of function
//! descriptors and variable names, bit-exact with the form the
//! external binding generator embeds in a module's reserved sections.
//!
//! Strings are quoted with the quote, the backslash and every control
//! byte escaped — control bytes outside the short escapes as a
//! four-digit lowercase hexadecimal escape — and everything else kept
//! as it stands.  A batch of descriptors becomes one JSON array in one
//! length-prefixed record.

use vstd::prelude::*;
use vstd::utf8::encode_utf8;

use crate::codec::FramingError;
use crate::codec::encode_record;
use crate::codec::spec_frame;
use crate::json::kw;
use crate::json::spec_method_of_bytes;
use crate::json::spec_methods_items;
use crate::json::spec_parse_methods;
use crate::json::spec_parse_output;
use crate::json::spec_parse_outputs;
use crate::json::spec_outputs_items;
use crate::json::spec_parse_chars;
use crate::json::spec_parse_vars_payload;
use crate::json::spec_skip_ws;
use crate::json::spec_vars_items;
use crate::json::spec_parse_escape;
use crate::json::spec_parse_string;
use crate::json::spec_utf8_of_scalar;
use crate::json::spec_hex_digit;
use crate::metadata::Function;
use crate::metadata::FunctionOutput;
use crate::metadata::FunctionTrigger;
use crate::metadata::FunctionView;
use crate::metadata::Method;
use crate::metadata::functions_view;
use crate::metadata::strings_view;

verus! {

/// The lowercase hexadecimal digit of a value below sixteen.
pub open spec fn spec_hex_char(d: int) -> u8 {
    if d < 10 {
        (48 + d) as u8
    } else {
        (87 + d) as u8
    }
}

/// The bytes one byte prints as inside a quoted string.
pub open spec fn spec_escape_byte(b: u8) -> Seq<u8> {
    if b == 34 {
        seq![92u8, 34u8]
    } else if b == 92 {
        seq![92u8, 92u8]
    } else if b == 8 {
        seq![92u8, 98u8]
    } else if b == 9 {
        seq![92u8, 116u8]
    } else if b == 10 {
        seq![92u8, 110u8]
    } else if b == 12 {
        seq![92u8, 102u8]
    } else if b == 13 {
        seq![92u8, 114u8]
    } else if b < 32 {
        seq![92u8, 117u8, 48u8, 48u8, spec_hex_char(b as int / 16), spec_hex_char(b as int % 16)]
    } else {
        seq![b]
    }
}

/// The bytes a byte sequence prints as inside a quoted string.
pub open spec fn spec_escape(s: Seq<u8>) -> Seq<u8>
    decreases s.len(),
{
    if s.len() == 0 {
        Seq::empty()
    } else {
        spec_escape_byte(s[0]) + spec_escape(s.skip(1))
    }
}

/// A quoted string token over already-encoded bytes.
pub open spec fn spec_quote(s: Seq<u8>) -> Seq<u8> {
    seq![34u8] + spec_escape(s) + seq![34u8]
}

/// A quoted string token for text.
pub open spec fn spec_encode_string(s: Seq<char>) -> Seq<u8> {
    spec_quote(encode_utf8(s))
}

/// A method list, comma-separated, without its brackets.
pub open spec fn spec_encode_methods(ms: Seq<Method>) -> Seq<u8>
    decreases ms.len(),
{
    if ms.len() == 0 {
        Seq::empty()
    } else if ms.len() == 1 {
        spec_encode_string(ms[0].spec_name())
    } else {
        spec_encode_string(ms[0].spec_name()) + seq![44u8] + spec_encode_methods(ms.skip(1))
    }
}

/// An output list, comma-separated, without its brackets.
pub open spec fn spec_encode_outputs(os: Seq<FunctionOutput>) -> Seq<u8>
    decreases os.len(),
{
    if os.len() == 0 {
        Seq::empty()
    } else if os.len() == 1 {
        kw("{\"type\":\"http\"}")
    } else {
        kw("{\"type\":\"http\"}") + seq![44u8] + spec_encode_outputs(os.skip(1))
    }
}

/// One function descriptor in canonical form: the fields in
/// declaration order, the trigger tag first, no whitespace, and an
/// empty input list whatever the descriptor holds — no input kind is
/// defined to print.
pub open spec fn spec_encode_function(f: FunctionView) -> Seq<u8> {
    kw("{\"name\":") + spec_encode_string(f.name) + kw(
        ",\"trigger\":{\"type\":\"http\",\"path\":",
    ) + spec_encode_string(f.trigger.path) + kw(",\"methods\":[") + spec_encode_methods(
        f.trigger.methods,
    ) + kw("]},\"inputs\":[],\"outputs\":[") + spec_encode_outputs(f.outputs) + kw("]}")
}

/// A batch of descriptors, comma-separated, without its brackets.
pub open spec fn spec_encode_functions_items(fs: Seq<FunctionView>) -> Seq<u8>
    decreases fs.len(),
{
    if fs.len() == 0 {
        Seq::empty()
    } else if fs.len() == 1 {
        spec_encode_function(fs[0])
    } else {
        spec_encode_function(fs[0]) + seq![44u8] + spec_encode_functions_items(fs.skip(1))
    }
}

/// One record's payload for a batch of descriptors: one JSON array.
pub open spec fn spec_encode_functions_payload(fs: Seq<FunctionView>) -> Seq<u8> {
    seq![91u8] + spec_encode_functions_items(fs) + seq![93u8]
}

/// A batch of names, comma-separated, without its brackets.
pub open spec fn spec_encode_vars_items(vs: Seq<Seq<char>>) -> Seq<u8>
    decreases vs.len(),
{
    if vs.len() == 0 {
        Seq::empty()
    } else if vs.len() == 1 {
        spec_encode_string(vs[0])
    } else {
        spec_encode_string(vs[0]) + seq![44u8] + spec_encode_vars_items(vs.skip(1))
    }
}

/// One record's payload for a batch of names: one JSON array.
pub open spec fn spec_encode_vars_payload(vs: Seq<Seq<char>>) -> Seq<u8> {
    seq![91u8] + spec_encode_vars_items(vs) + seq![93u8]
}

/// Appends a slice.
fn push_slice(out: &mut Vec<u8>, s: &[u8])
    ensures
        final(out)@ == old(out)@ + s@,
{
    let mut i: usize = 0;
    proof {
        assert(out@ =~= old(out)@ + s@.take(0));
    }
    while i < s.len()
        invariant
            i <= s@.len(),
            out@ == old(out)@ + s@.take(i as int),
        decreases s@.len() - i,
    {
        out.push(s[i]);
        proof {
            assert(out@ =~= old(out)@ + s@.take(i as int + 1));
        }
        i += 1;
    }
    proof {
        assert(s@.take(s@.len() as int) =~= s@);
    }
}

/// Appends a keyword's bytes.
fn push_kw(out: &mut Vec<u8>, s: &str)
    ensures
        final(out)@ == old(out)@ + kw(s),
{
    push_slice(out, s.as_bytes());
}

/// The lowercase hexadecimal digit of a value below sixteen.
fn hex_char(d: u8) -> (r: u8)
    requires
        d < 16,
    ensures
        r == spec_hex_char(d as int),
{
    if d < 10 {
        48 + d
    } else {
        87 + d
    }
}

/// Appends the escaped form of a byte sequence.
fn escape_into(out: &mut Vec<u8>, s: &[u8])
    ensures
        final(out)@ == old(out)@ + spec_escape(s@),
{
    let mut i: usize = 0;
    let ghost whole = s@;
    proof {
        assert(whole.skip(0) =~= whole);
        assert(out@ + Seq::<u8>::empty() =~= out@);
    }
    while i < s.len()
        invariant
            i <= s@.len(),
            out@ + spec_escape(s@.skip(i as int)) == old(out)@ + spec_escape(s@),
        decreases s@.len() - i,
    {
        let b = s[i];
        let ghost before = out@;
        proof {
            assert(s@.skip(i as int)[0] == b);
            assert(s@.skip(i as int).skip(1) =~= s@.skip(i as int + 1));
            assert(spec_escape(s@.skip(i as int)) == spec_escape_byte(b) + spec_escape(
                s@.skip(i as int + 1),
            ));
        }
        if b == 34 {
            out.push(92);
            out.push(34);
        } else if b == 92 {
            out.push(92);
            out.push(92);
        } else if b == 8 {
            out.push(92);
            out.push(98);
        } else if b == 9 {
            out.push(92);
            out.push(116);
        } else if b == 10 {
            out.push(92);
            out.push(110);
        } else if b == 12 {
            out.push(92);
            out.push(102);
        } else if b == 13 {
            out.push(92);
            out.push(114);
        } else if b < 32 {
            out.push(92);
            out.push(117);
            out.push(48);
            out.push(48);
            out.push(hex_char(b / 16));
            out.push(hex_char(b % 16));
        } else {
            out.push(b);
        }
        proof {
            assert(out@ =~= before + spec_escape_byte(b));
            assert((before + spec_escape_byte(b)) + spec_escape(s@.skip(i as int + 1)) =~= before
                + (spec_escape_byte(b) + spec_escape(s@.skip(i as int + 1))));
        }
        i += 1;
    }
    proof {
        assert(s@.skip(s@.len() as int) =~= Seq::<u8>::empty());
        assert(out@ + Seq::<u8>::empty() =~= out@);
    }
}

/// Appends a quoted string token.
fn encode_string_into(out: &mut Vec<u8>, s: &str)
    ensures
        final(out)@ == old(out)@ + spec_encode_string(s@),
{
    let ghost start = out@;
    out.push(34);
    escape_into(out, s.as_bytes());
    out.push(34);
    proof {
        assert(out@ =~= start + spec_encode_string(s@));
    }
}

/// Appends one descriptor in canonical form.
fn encode_function_into(out: &mut Vec<u8>, f: &Function)
    ensures
        final(out)@ == old(out)@ + spec_encode_function(f@),
{
    let ghost start = out@;
    push_kw(out, "{\"name\":");
    encode_string_into(out, f.name.as_str());
    push_kw(out, ",\"trigger\":{\"type\":\"http\",\"path\":");
    let FunctionTrigger::Http { path: ref pattern, methods: ref ms } = f.trigger;
    encode_string_into(out, pattern.as_str());
    push_kw(out, ",\"methods\":[");
    let mut k: usize = 0;
    let ghost mstart = out@;
    proof {
        assert(ms@.skip(0) =~= ms@);
        assert(out@ + Seq::<u8>::empty() =~= out@);
    }
    while k < ms.len()
        invariant
            k <= ms@.len(),
            out@ + spec_encode_methods(ms@.skip(k as int)) == mstart + spec_encode_methods(ms@),
        decreases ms@.len() - k,
    {
        let ghost before = out@;
        proof {
            assert(ms@.skip(k as int)[0] == ms@[k as int]);
            assert(ms@.skip(k as int).skip(1) =~= ms@.skip(k as int + 1));
        }
        encode_string_into(out, ms[k].as_ref());
        if k + 1 < ms.len() {
            out.push(44);
            proof {
                assert(out@ =~= before + (spec_encode_string(ms@[k as int].spec_name()) + seq![
                    44u8,
                ]));
                assert((before + (spec_encode_string(ms@[k as int].spec_name()) + seq![44u8]))
                    + spec_encode_methods(ms@.skip(k as int + 1)) =~= before + spec_encode_methods(
                    ms@.skip(k as int),
                ));
            }
        } else {
            proof {
                assert(ms@.skip(k as int).len() == 1);
                assert(out@ + spec_encode_methods(ms@.skip(k as int + 1)) =~= before
                    + spec_encode_methods(ms@.skip(k as int)));
            }
        }
        k += 1;
    }
    proof {
        assert(ms@.skip(ms@.len() as int) =~= Seq::<Method>::empty());
        assert(out@ + Seq::<u8>::empty() =~= out@);
    }
    push_kw(out, "]},\"inputs\":[],\"outputs\":[");
    let mut j: usize = 0;
    let ghost ostart = out@;
    proof {
        assert(f.outputs@.skip(0) =~= f.outputs@);
        assert(out@ + Seq::<u8>::empty() =~= out@);
    }
    while j < f.outputs.len()
        invariant
            j <= f.outputs@.len(),
            out@ + spec_encode_outputs(f.outputs@.skip(j as int)) == ostart + spec_encode_outputs(
                f.outputs@,
            ),
        decreases f.outputs@.len() - j,
    {
        let ghost before = out@;
        proof {
            assert(f.outputs@.skip(j as int).skip(1) =~= f.outputs@.skip(j as int + 1));
        }
        push_kw(out, "{\"type\":\"http\"}");
        if j + 1 < f.outputs.len() {
            out.push(44);
            proof {
                assert(out@ =~= before + (kw("{\"type\":\"http\"}") + seq![44u8]));
                assert((before + (kw("{\"type\":\"http\"}") + seq![44u8])) + spec_encode_outputs(
                    f.outputs@.skip(j as int + 1),
                ) =~= before + spec_encode_outputs(f.outputs@.skip(j as int)));
            }
        } else {
            proof {
                assert(f.outputs@.skip(j as int).len() == 1);
                assert(out@ + spec_encode_outputs(f.outputs@.skip(j as int + 1)) =~= before
                    + spec_encode_outputs(f.outputs@.skip(j as int)));
            }
        }
        j += 1;
    }
    proof {
        assert(f.outputs@.skip(f.outputs@.len() as int) =~= Seq::<FunctionOutput>::empty());
        assert(out@ + Seq::<u8>::empty() =~= out@);
    }
    push_kw(out, "]}");
    proof {
        assert(out@ =~= start + spec_encode_function(f@));
    }
}

/// Prints a batch of descriptors as one record payload: one JSON
/// array in canonical form.
pub fn encode_functions_payload(functions: &Vec<Function>) -> (r: Vec<u8>)
    ensures
        r@ == spec_encode_functions_payload(functions_view(functions@)),
{
    let ghost fs = functions_view(functions@);
    let mut out: Vec<u8> = Vec::new();
    out.push(91);
    let ghost istart = out@;
    let mut i: usize = 0;
    proof {
        assert(fs.skip(0) =~= fs);
        assert(out@ + Seq::<u8>::empty() =~= out@);
    }
    while i < functions.len()
        invariant
            i <= functions@.len(),
            fs == functions_view(functions@),
            out@ + spec_encode_functions_items(fs.skip(i as int)) == istart
                + spec_encode_functions_items(fs),
        decreases functions@.len() - i,
    {
        let ghost before = out@;
        proof {
            assert(fs.skip(i as int)[0] == functions@[i as int]@);
            assert(fs.skip(i as int).skip(1) =~= fs.skip(i as int + 1));
        }
        encode_function_into(&mut out, &functions[i]);
        if i + 1 < functions.len() {
            out.push(44);
            proof {
                assert(out@ =~= before + (spec_encode_function(fs.skip(i as int)[0]) + seq![
                    44u8,
                ]));
                assert((before + (spec_encode_function(fs.skip(i as int)[0]) + seq![44u8]))
                    + spec_encode_functions_items(fs.skip(i as int + 1)) =~= before
                    + spec_encode_functions_items(fs.skip(i as int)));
            }
        } else {
            proof {
                assert(fs.skip(i as int).len() == 1);
                assert(out@ + spec_encode_functions_items(fs.skip(i as int + 1)) =~= before
                    + spec_encode_functions_items(fs.skip(i as int)));
            }
        }
        i += 1;
    }
    proof {
        assert(fs.skip(fs.len() as int) =~= Seq::<FunctionView>::empty());
        assert(out@ + Seq::<u8>::empty() =~= out@);
    }
    out.push(93);
    proof {
        assert(out@ =~= seq![91u8] + spec_encode_functions_items(fs) + seq![93u8]);
    }
    out
}

/// Prints a batch of names as one record payload: one JSON array in
/// canonical form.
pub fn encode_vars_payload(vars: &Vec<String>) -> (r: Vec<u8>)
    ensures
        r@ == spec_encode_vars_payload(strings_view(vars@)),
{
    let ghost vs = strings_view(vars@);
    let mut out: Vec<u8> = Vec::new();
    out.push(91);
    let ghost istart = out@;
    let mut i: usize = 0;
    proof {
        assert(vs.skip(0) =~= vs);
        assert(out@ + Seq::<u8>::empty() =~= out@);
    }
    while i < vars.len()
        invariant
            i <= vars@.len(),
            vs == strings_view(vars@),
            out@ + spec_encode_vars_items(vs.skip(i as int)) == istart + spec_encode_vars_items(
                vs,
            ),
        decreases vars@.len() - i,
    {
        let ghost before = out@;
        proof {
            assert(vs.skip(i as int)[0] == vars@[i as int]@);
            assert(vs.skip(i as int).skip(1) =~= vs.skip(i as int + 1));
        }
        encode_string_into(&mut out, vars[i].as_str());
        if i + 1 < vars.len() {
            out.push(44);
            proof {
                assert(out@ =~= before + (spec_encode_string(vs.skip(i as int)[0]) + seq![44u8]));
                assert((before + (spec_encode_string(vs.skip(i as int)[0]) + seq![44u8]))
                    + spec_encode_vars_items(vs.skip(i as int + 1)) =~= before
                    + spec_encode_vars_items(vs.skip(i as int)));
            }
        } else {
            proof {
                assert(vs.skip(i as int).len() == 1);
                assert(out@ + spec_encode_vars_items(vs.skip(i as int + 1)) =~= before
                    + spec_encode_vars_items(vs.skip(i as int)));
            }
        }
        i += 1;
    }
    proof {
        assert(vs.skip(vs.len() as int) =~= Seq::<Seq<char>>::empty());
        assert(out@ + Seq::<u8>::empty() =~= out@);
    }
    out.push(93);
    proof {
        assert(out@ =~= seq![91u8] + spec_encode_vars_items(vs) + seq![93u8]);
    }
    out
}

/// Frames a batch of descriptors as one record, ready to stand in the
/// routing section, unless the payload outgrows the length field.
pub fn encode_functions(functions: &Vec<Function>) -> (r: Result<Vec<u8>, FramingError>)
    ensures
        match r {
            Ok(bytes) => bytes@ == spec_frame(
                spec_encode_functions_payload(functions_view(functions@)),
            ),
            Err(e) => e == FramingError::LengthOverflow && spec_encode_functions_payload(
                functions_view(functions@),
            ).len() >= 0x1_0000_0000,
        },
{
    let payload = encode_functions_payload(functions);
    encode_record(payload.as_slice())
}

/// Frames a batch of variable names as one record, ready to stand in
/// the variables section, unless the payload outgrows the length
/// field.
pub fn encode_vars(vars: &Vec<String>) -> (r: Result<Vec<u8>, FramingError>)
    ensures
        match r {
            Ok(bytes) => bytes@ == spec_frame(spec_encode_vars_payload(strings_view(vars@))),
            Err(e) => e == FramingError::LengthOverflow && spec_encode_vars_payload(
                strings_view(vars@),
            ).len() >= 0x1_0000_0000,
        },
{
    let payload = encode_vars_payload(vars);
    encode_record(payload.as_slice())
}

/// One escape sequence reads back as exactly the byte it printed.
proof fn lemma_escape_byte_reads_back(v: Seq<u8>, pos: int, b: u8)
    requires
        0 <= pos,
        pos + spec_escape_byte(b).len() <= v.len(),
        v.subrange(pos, pos + spec_escape_byte(b).len()) == spec_escape_byte(b),
        spec_escape_byte(b).len() >= 2,
    ensures
        v[pos] == 92,
        spec_parse_escape(v, pos + 1) == Some(
            (seq![b], pos + spec_escape_byte(b).len()),
        ),
{
    let e = spec_escape_byte(b);
    assert(v[pos] == e[0]);
    assert(v[pos + 1] == e[1]);
    if b == 34 || b == 92 || b == 8 || b == 9 || b == 10 || b == 12 || b == 13 {
        assert(spec_parse_escape(v, pos + 1) == Some((seq![b], pos + 2)));
    } else {
        assert(b < 32);
        assert(v[pos + 2] == e[2] && v[pos + 3] == e[3] && v[pos + 4] == e[4] && v[pos + 5]
            == e[5]);
        let hi = b as int / 16;
        let lo = b as int % 16;
        assert(spec_hex_digit(48u8) == Some(0int));
        assert(spec_hex_digit(spec_hex_char(hi)) == Some(hi));
        assert(spec_hex_digit(spec_hex_char(lo)) == Some(lo));
        let u = 0 * 0x1000 + 0 * 0x100 + hi * 0x10 + lo;
        assert(u == b as int) by (nonlinear_arith)
            requires
                hi == b as int / 16,
                lo == b as int % 16,
                u == 0 * 0x1000 + 0 * 0x100 + hi * 0x10 + lo,
                b < 32,
        ;
        assert(!(0xD800 <= u < 0xE000));
        assert(spec_utf8_of_scalar(u) =~= seq![b]);
        assert(spec_parse_escape(v, pos + 1) == Some((seq![b], pos + 6)));
    }
}

/// An escaped string body followed by its closing quote reads back as
/// exactly the bytes that were escaped, appended to what was already
/// read.
proof fn lemma_escaped_reads_back(v: Seq<u8>, pos: int, s: Seq<u8>, acc: Seq<u8>)
    requires
        0 <= pos,
        pos + spec_escape(s).len() + 1 <= v.len(),
        v.subrange(pos, pos + spec_escape(s).len() + 1) == spec_escape(s) + seq![34u8],
    ensures
        spec_parse_chars(v, pos, acc) == Some((acc + s, pos + spec_escape(s).len() + 1)),
    decreases s.len(),
{
    let window = spec_escape(s) + seq![34u8];
    assert forall|k: int| 0 <= k < window.len() implies v[pos + k] == #[trigger] window[k] by {
        assert(v.subrange(pos, pos + window.len())[k] == v[pos + k]);
    }
    if s.len() == 0 {
        assert(spec_escape(s) =~= Seq::<u8>::empty());
        assert(window[0] == 34);
        assert(v[pos + 0] == window[0]);
        assert(acc + s =~= acc);
        assert(spec_parse_chars(v, pos, acc) == Some((acc, pos + 1)));
    } else {
        let b = s[0];
        let e = spec_escape_byte(b);
        let rest = s.skip(1);
        assert(spec_escape(s) == e + spec_escape(rest));
        let pos2 = pos + e.len();
        let subwindow = spec_escape(rest) + seq![34u8];
        assert forall|j: int|
            0 <= j < subwindow.len() implies v[pos2 + j] == #[trigger] subwindow[j] by {
            assert(window[e.len() + j] == subwindow[j]);
            assert(v[pos + (e.len() + j)] == window[e.len() + j]);
        }
        assert(v.subrange(pos2, pos2 + spec_escape(rest).len() + 1) =~= subwindow);
        assert forall|j: int| 0 <= j < e.len() implies v[pos + j] == #[trigger] e[j] by {
            assert(window[j] == e[j]);
        }
        if e.len() >= 2 {
            assert(v.subrange(pos, pos + e.len()) =~= e);
            lemma_escape_byte_reads_back(v, pos, b);
            assert(v[pos + 0] == e[0]);
            assert(v[pos] == 92);
            lemma_escaped_reads_back(v, pos2, rest, acc + seq![b]);
            assert(acc + seq![b] + rest =~= acc + s);
            assert(spec_parse_chars(v, pos, acc) == spec_parse_chars(v, pos2, acc + seq![b]));
        } else {
            assert(e =~= seq![b]);
            assert(e[0] == b);
            assert(v[pos + 0] == e[0]);
            assert(v[pos] == b);
            assert(b != 34 && b != 92 && b >= 32);
            lemma_escaped_reads_back(v, pos + 1, rest, acc.push(b));
            assert(acc.push(b) + rest =~= acc + s);
            assert(spec_parse_chars(v, pos, acc) == spec_parse_chars(v, pos + 1, acc.push(b)));
        }
    }
}

/// Law: string tokens round-trip.  A quoted string prints, then
/// parses back from anywhere in a larger text, to exactly the bytes
/// that were quoted, ending right after its closing quote.
pub proof fn lemma_quoted_string_roundtrip(v: Seq<u8>, pos: int, s: Seq<u8>)
    requires
        0 <= pos,
        pos + spec_quote(s).len() <= v.len(),
        v.subrange(pos, pos + spec_quote(s).len()) == spec_quote(s),
    ensures
        spec_parse_string(v, pos) == Some((s, pos + spec_quote(s).len())),
{
    let q = spec_quote(s);
    assert forall|k: int| 0 <= k < q.len() implies v[pos + k] == #[trigger] q[k] by {
        assert(v.subrange(pos, pos + q.len())[k] == v[pos + k]);
    }
    assert(q[0] == 34);
    assert(v[pos + 0] == q[0]);
    let subwindow = spec_escape(s) + seq![34u8];
    assert forall|j: int|
        0 <= j < subwindow.len() implies v[pos + 1 + j] == #[trigger] subwindow[j] by {
        assert(q[1 + j] == subwindow[j]);
        assert(v[pos + (1 + j)] == q[1 + j]);
    }
    assert(v.subrange(pos + 1, pos + 1 + spec_escape(s).len() + 1) =~= subwindow);
    lemma_escaped_reads_back(v, pos + 1, s, Seq::empty());
    assert(Seq::<u8>::empty() + s =~= s);
    assert(spec_parse_string(v, pos) == spec_parse_chars(v, pos + 1, Seq::empty()));
}

/// A printed batch of names followed by its closing bracket reads
/// back as exactly those names, ending right after the bracket.
proof fn lemma_vars_items_read_back(v: Seq<u8>, pos: int, vs: Seq<Seq<char>>)
    requires
        vs.len() >= 1,
        0 <= pos,
        pos + spec_encode_vars_items(vs).len() + 1 <= v.len(),
        v.subrange(pos, pos + spec_encode_vars_items(vs).len() + 1) == spec_encode_vars_items(vs)
            + seq![93u8],
    ensures
        spec_vars_items(v, pos) == Some((vs, pos + spec_encode_vars_items(vs).len() + 1)),
    decreases vs.len(),
{
    broadcast use vstd::utf8::encode_utf8_valid_utf8;
    broadcast use vstd::utf8::encode_utf8_decode_utf8;

    let items = spec_encode_vars_items(vs);
    let window = items + seq![93u8];
    assert forall|k: int| 0 <= k < window.len() implies v[pos + k] == #[trigger] window[k] by {
        assert(v.subrange(pos, pos + window.len())[k] == v[pos + k]);
    }
    let s0 = vs[0];
    let b0 = encode_utf8(s0);
    let q = spec_quote(b0);
    assert(q.len() >= 2);
    if vs.len() == 1 {
        assert(items == q);
        assert forall|j: int| 0 <= j < q.len() implies v[pos + j] == #[trigger] q[j] by {
            assert(window[j] == q[j]);
        }
        assert(v.subrange(pos, pos + q.len()) =~= q);
        lemma_quoted_string_roundtrip(v, pos, b0);
        let p1 = pos + q.len();
        assert(v[pos + q.len() as int] == window[q.len() as int]);
        assert(window[q.len() as int] == 93);
        assert(spec_skip_ws(v, p1) == p1);
        assert(seq![vstd::utf8::decode_utf8(b0)] =~= vs);
    } else {
        let rest = vs.skip(1);
        let rest_items = spec_encode_vars_items(rest);
        assert(items == q + seq![44u8] + rest_items);
        assert forall|j: int| 0 <= j < q.len() implies v[pos + j] == #[trigger] q[j] by {
            assert(window[j] == q[j]);
        }
        assert(v.subrange(pos, pos + q.len()) =~= q);
        lemma_quoted_string_roundtrip(v, pos, b0);
        let p1 = pos + q.len();
        assert(v[pos + q.len() as int] == window[q.len() as int]);
        assert(window[q.len() as int] == 44);
        assert(spec_skip_ws(v, p1) == p1);
        let p3 = p1 + 1;
        let subwindow = rest_items + seq![93u8];
        assert forall|j: int|
            0 <= j < subwindow.len() implies v[p3 + j] == #[trigger] subwindow[j] by {
            assert(window[q.len() + 1 + j] == subwindow[j]);
            assert(v[pos + (q.len() + 1 + j)] == window[q.len() + 1 + j]);
        }
        assert(v.subrange(p3, p3 + rest_items.len() + 1) =~= subwindow);
        lemma_vars_items_read_back(v, p3, rest);
        assert(rest_items[0] == spec_encode_string(rest[0])[0]);
        assert(spec_encode_string(rest[0])[0] == 34);
        assert(v[p3 + 0] == subwindow[0]);
        assert(subwindow[0] == 34);
        assert(spec_skip_ws(v, p3) == p3);
        assert(seq![vstd::utf8::decode_utf8(b0)] + rest =~= vs);
    }
}

/// Law: a batch of variable names round-trips through its record
/// payload.  Printing any names as one canonical array and decoding
/// that payload yields exactly the same names, in order.
pub proof fn lemma_vars_payload_roundtrip(vs: Seq<Seq<char>>)
    ensures
        spec_parse_vars_payload(spec_encode_vars_payload(vs)) == Some(vs),
{
    let w = spec_encode_vars_payload(vs);
    let items = spec_encode_vars_items(vs);
    assert(w == seq![91u8] + items + seq![93u8]);
    assert(w[0] == 91);
    assert(spec_skip_ws(w, 0) == 0);
    if vs.len() == 0 {
        assert(items =~= Seq::<u8>::empty());
        assert(w.len() == 2);
        assert(w[1] == 93);
        assert(spec_skip_ws(w, 1) == 1);
        assert(spec_skip_ws(w, 2) == 2);
        assert(spec_parse_vars_payload(w) == Some(Seq::<Seq<char>>::empty()));
        assert(Seq::<Seq<char>>::empty() =~= vs);
    } else {
        assert(items.len() >= 2) by {
            assert(items[0] == spec_encode_string(vs[0])[0]);
        }
        assert(w[1] == items[0]);
        assert(items[0] == spec_encode_string(vs[0])[0]);
        assert(spec_encode_string(vs[0])[0] == 34);
        assert(spec_skip_ws(w, 1) == 1);
        assert(w.subrange(1, 1 + items.len() as int + 1) =~= items + seq![93u8]);
        lemma_vars_items_read_back(w, 1, vs);
        assert(spec_skip_ws(w, w.len() as int) == w.len());
    }
}

/// The concrete bytes of each keyword and fragment of the canonical
/// form, read off their literals.
proof fn lemma_kw_bytes()
    ensures
        kw("name") == seq![110u8, 97u8, 109u8, 101u8],
        kw("trigger") == seq![116u8, 114u8, 105u8, 103u8, 103u8, 101u8, 114u8],
        kw("inputs") == seq![105u8, 110u8, 112u8, 117u8, 116u8, 115u8],
        kw("outputs") == seq![111u8, 117u8, 116u8, 112u8, 117u8, 116u8, 115u8],
        kw("type") == seq![116u8, 121u8, 112u8, 101u8],
        kw("path") == seq![112u8, 97u8, 116u8, 104u8],
        kw("http") == seq![104u8, 116u8, 116u8, 112u8],
        kw("GET") == seq![71u8, 69u8, 84u8],
        kw("HEAD") == seq![72u8, 69u8, 65u8, 68u8],
        kw("POST") == seq![80u8, 79u8, 83u8, 84u8],
        kw("PUT") == seq![80u8, 85u8, 84u8],
        kw("DELETE") == seq![68u8, 69u8, 76u8, 69u8, 84u8, 69u8],
        kw("CONNECT") == seq![67u8, 79u8, 78u8, 78u8, 69u8, 67u8, 84u8],
        kw("OPTIONS") == seq![79u8, 80u8, 84u8, 73u8, 79u8, 78u8, 83u8],
        kw("TRACE") == seq![84u8, 82u8, 65u8, 67u8, 69u8],
        kw("PATCH") == seq![80u8, 65u8, 84u8, 67u8, 72u8],
        kw("{\"name\":") == seq![123u8, 34u8, 110u8, 97u8, 109u8, 101u8, 34u8, 58u8],
        kw(",\"trigger\":") == seq![44u8, 34u8, 116u8, 114u8, 105u8, 103u8, 103u8, 101u8, 114u8, 34u8, 58u8],
        kw("{\"type\":\"http\",\"path\":") == seq![123u8, 34u8, 116u8, 121u8, 112u8, 101u8, 34u8, 58u8, 34u8, 104u8, 116u8, 116u8, 112u8, 34u8, 44u8, 34u8, 112u8, 97u8, 116u8, 104u8, 34u8, 58u8],
        kw(",\"methods\":[") == seq![44u8, 34u8, 109u8, 101u8, 116u8, 104u8, 111u8, 100u8, 115u8, 34u8, 58u8, 91u8],
        kw("]},\"inputs\":[],\"outputs\":[") == seq![93u8, 125u8, 44u8, 34u8, 105u8, 110u8, 112u8, 117u8, 116u8, 115u8, 34u8, 58u8, 91u8, 93u8, 44u8, 34u8, 111u8, 117u8, 116u8, 112u8, 117u8, 116u8, 115u8, 34u8, 58u8, 91u8],
        kw("]}") == seq![93u8, 125u8],
        kw("{\"type\":\"http\"}") == seq![123u8, 34u8, 116u8, 121u8, 112u8, 101u8, 34u8, 58u8, 34u8, 104u8, 116u8, 116u8, 112u8, 34u8, 125u8],
        kw(",\"trigger\":{\"type\":\"http\",\"path\":") == seq![44u8, 34u8, 116u8, 114u8, 105u8, 103u8, 103u8, 101u8, 114u8, 34u8, 58u8, 123u8, 34u8, 116u8, 121u8, 112u8, 101u8, 34u8, 58u8, 34u8, 104u8, 116u8, 116u8, 112u8, 34u8, 44u8, 34u8, 112u8, 97u8, 116u8, 104u8, 34u8, 58u8],
{
    broadcast use vstd::utf8::is_ascii_chars_encode_utf8;

    reveal_strlit("name");
    assert("name"@ =~= seq!['n', 'a', 'm', 'e']);
    assert(vstd::utf8::is_ascii_chars("name"@));
    assert(kw("name") =~= seq![110u8, 97u8, 109u8, 101u8]);
    reveal_strlit("trigger");
    assert("trigger"@ =~= seq!['t', 'r', 'i', 'g', 'g', 'e', 'r']);
    assert(vstd::utf8::is_ascii_chars("trigger"@));
    assert(kw("trigger") =~= seq![116u8, 114u8, 105u8, 103u8, 103u8, 101u8, 114u8]);
    reveal_strlit("inputs");
    assert("inputs"@ =~= seq!['i', 'n', 'p', 'u', 't', 's']);
    assert(vstd::utf8::is_ascii_chars("inputs"@));
    assert(kw("inputs") =~= seq![105u8, 110u8, 112u8, 117u8, 116u8, 115u8]);
    reveal_strlit("outputs");
    assert("outputs"@ =~= seq!['o', 'u', 't', 'p', 'u', 't', 's']);
    assert(vstd::utf8::is_ascii_chars("outputs"@));
    assert(kw("outputs") =~= seq![111u8, 117u8, 116u8, 112u8, 117u8, 116u8, 115u8]);
    reveal_strlit("type");
    assert("type"@ =~= seq!['t', 'y', 'p', 'e']);
    assert(vstd::utf8::is_ascii_chars("type"@));
    assert(kw("type") =~= seq![116u8, 121u8, 112u8, 101u8]);
    reveal_strlit("path");
    assert("path"@ =~= seq!['p', 'a', 't', 'h']);
    assert(vstd::utf8::is_ascii_chars("path"@));
    assert(kw("path") =~= seq![112u8, 97u8, 116u8, 104u8]);
    reveal_strlit("http");
    assert("http"@ =~= seq!['h', 't', 't', 'p']);
    assert(vstd::utf8::is_ascii_chars("http"@));
    assert(kw("http") =~= seq![104u8, 116u8, 116u8, 112u8]);
    reveal_strlit("GET");
    assert("GET"@ =~= seq!['G', 'E', 'T']);
    assert(vstd::utf8::is_ascii_chars("GET"@));
    assert(kw("GET") =~= seq![71u8, 69u8, 84u8]);
    reveal_strlit("HEAD");
    assert("HEAD"@ =~= seq!['H', 'E', 'A', 'D']);
    assert(vstd::utf8::is_ascii_chars("HEAD"@));
    assert(kw("HEAD") =~= seq![72u8, 69u8, 65u8, 68u8]);
    reveal_strlit("POST");
    assert("POST"@ =~= seq!['P', 'O', 'S', 'T']);
    assert(vstd::utf8::is_ascii_chars("POST"@));
    assert(kw("POST") =~= seq![80u8, 79u8, 83u8, 84u8]);
    reveal_strlit("PUT");
    assert("PUT"@ =~= seq!['P', 'U', 'T']);
    assert(vstd::utf8::is_ascii_chars("PUT"@));
    assert(kw("PUT") =~= seq![80u8, 85u8, 84u8]);
    reveal_strlit("DELETE");
    assert("DELETE"@ =~= seq!['D', 'E', 'L', 'E', 'T', 'E']);
    assert(vstd::utf8::is_ascii_chars("DELETE"@));
    assert(kw("DELETE") =~= seq![68u8, 69u8, 76u8, 69u8, 84u8, 69u8]);
    reveal_strlit("CONNECT");
    assert("CONNECT"@ =~= seq!['C', 'O', 'N', 'N', 'E', 'C', 'T']);
    assert(vstd::utf8::is_ascii_chars("CONNECT"@));
    assert(kw("CONNECT") =~= seq![67u8, 79u8, 78u8, 78u8, 69u8, 67u8, 84u8]);
    reveal_strlit("OPTIONS");
    assert("OPTIONS"@ =~= seq!['O', 'P', 'T', 'I', 'O', 'N', 'S']);
    assert(vstd::utf8::is_ascii_chars("OPTIONS"@));
    assert(kw("OPTIONS") =~= seq![79u8, 80u8, 84u8, 73u8, 79u8, 78u8, 83u8]);
    reveal_strlit("TRACE");
    assert("TRACE"@ =~= seq!['T', 'R', 'A', 'C', 'E']);
    assert(vstd::utf8::is_ascii_chars("TRACE"@));
    assert(kw("TRACE") =~= seq![84u8, 82u8, 65u8, 67u8, 69u8]);
    reveal_strlit("PATCH");
    assert("PATCH"@ =~= seq!['P', 'A', 'T', 'C', 'H']);
    assert(vstd::utf8::is_ascii_chars("PATCH"@));
    assert(kw("PATCH") =~= seq![80u8, 65u8, 84u8, 67u8, 72u8]);
    reveal_strlit("{\"name\":");
    assert("{\"name\":"@ =~= seq!['{', '"', 'n', 'a', 'm', 'e', '"', ':']);
    assert(vstd::utf8::is_ascii_chars("{\"name\":"@));
    assert(kw("{\"name\":") =~= seq![123u8, 34u8, 110u8, 97u8, 109u8, 101u8, 34u8, 58u8]);
    reveal_strlit(",\"trigger\":");
    assert(",\"trigger\":"@ =~= seq![',', '"', 't', 'r', 'i', 'g', 'g', 'e', 'r', '"', ':']);
    assert(vstd::utf8::is_ascii_chars(",\"trigger\":"@));
    assert(kw(",\"trigger\":") =~= seq![44u8, 34u8, 116u8, 114u8, 105u8, 103u8, 103u8, 101u8, 114u8, 34u8, 58u8]);
    reveal_strlit("{\"type\":\"http\",\"path\":");
    assert("{\"type\":\"http\",\"path\":"@ =~= seq!['{', '"', 't', 'y', 'p', 'e', '"', ':', '"', 'h', 't', 't', 'p', '"', ',', '"', 'p', 'a', 't', 'h', '"', ':']);
    assert(vstd::utf8::is_ascii_chars("{\"type\":\"http\",\"path\":"@));
    assert(kw("{\"type\":\"http\",\"path\":") =~= seq![123u8, 34u8, 116u8, 121u8, 112u8, 101u8, 34u8, 58u8, 34u8, 104u8, 116u8, 116u8, 112u8, 34u8, 44u8, 34u8, 112u8, 97u8, 116u8, 104u8, 34u8, 58u8]);
    reveal_strlit(",\"methods\":[");
    assert(",\"methods\":["@ =~= seq![',', '"', 'm', 'e', 't', 'h', 'o', 'd', 's', '"', ':', '[']);
    assert(vstd::utf8::is_ascii_chars(",\"methods\":["@));
    assert(kw(",\"methods\":[") =~= seq![44u8, 34u8, 109u8, 101u8, 116u8, 104u8, 111u8, 100u8, 115u8, 34u8, 58u8, 91u8]);
    reveal_strlit("]},\"inputs\":[],\"outputs\":[");
    assert("]},\"inputs\":[],\"outputs\":["@ =~= seq![']', '}', ',', '"', 'i', 'n', 'p', 'u', 't', 's', '"', ':', '[', ']', ',', '"', 'o', 'u', 't', 'p', 'u', 't', 's', '"', ':', '[']);
    assert(vstd::utf8::is_ascii_chars("]},\"inputs\":[],\"outputs\":["@));
    assert(kw("]},\"inputs\":[],\"outputs\":[") =~= seq![93u8, 125u8, 44u8, 34u8, 105u8, 110u8, 112u8, 117u8, 116u8, 115u8, 34u8, 58u8, 91u8, 93u8, 44u8, 34u8, 111u8, 117u8, 116u8, 112u8, 117u8, 116u8, 115u8, 34u8, 58u8, 91u8]);
    reveal_strlit("]}");
    assert("]}"@ =~= seq![']', '}']);
    assert(vstd::utf8::is_ascii_chars("]}"@));
    assert(kw("]}") =~= seq![93u8, 125u8]);
    reveal_strlit("{\"type\":\"http\"}");
    assert("{\"type\":\"http\"}"@ =~= seq!['{', '"', 't', 'y', 'p', 'e', '"', ':', '"', 'h', 't', 't', 'p', '"', '}']);
    assert(vstd::utf8::is_ascii_chars("{\"type\":\"http\"}"@));
    assert(kw("{\"type\":\"http\"}") =~= seq![123u8, 34u8, 116u8, 121u8, 112u8, 101u8, 34u8, 58u8, 34u8, 104u8, 116u8, 116u8, 112u8, 34u8, 125u8]);
    reveal_strlit(",\"trigger\":{\"type\":\"http\",\"path\":");
    assert(",\"trigger\":{\"type\":\"http\",\"path\":"@ =~= seq![',', '"', 't', 'r', 'i', 'g', 'g', 'e', 'r', '"', ':', '{', '"', 't', 'y', 'p', 'e', '"', ':', '"', 'h', 't', 't', 'p', '"', ',', '"', 'p', 'a', 't', 'h', '"', ':']);
    assert(vstd::utf8::is_ascii_chars(",\"trigger\":{\"type\":\"http\",\"path\":"@));
    assert(kw(",\"trigger\":{\"type\":\"http\",\"path\":") =~= seq![44u8, 34u8, 116u8, 114u8, 105u8, 103u8, 103u8, 101u8, 114u8, 34u8, 58u8, 123u8, 34u8, 116u8, 121u8, 112u8, 101u8, 34u8, 58u8, 34u8, 104u8, 116u8, 116u8, 112u8, 34u8, 44u8, 34u8, 112u8, 97u8, 116u8, 104u8, 34u8, 58u8]);
}

/// Escaping leaves a sequence of plain bytes — printable, no quote,
/// no backslash — exactly as it stands.
proof fn lemma_escape_plain(s: Seq<u8>)
    requires
        forall|i: int| 0 <= i < s.len() ==> 32 <= (#[trigger] s[i]) && s[i] != 34 && s[i] != 92,
    ensures
        spec_escape(s) == s,
    decreases s.len(),
{
    if s.len() > 0 {
        assert(spec_escape_byte(s[0]) == seq![s[0]]);
        lemma_escape_plain(s.skip(1));
        assert(seq![s[0]] + s.skip(1) =~= s);
    }
}

/// Each method name's bytes read back as exactly that method.
proof fn lemma_method_bytes_roundtrip(m: Method)
    ensures
        spec_method_of_bytes(encode_utf8(m.spec_name())) == Some(m),
        spec_quote(encode_utf8(m.spec_name())) == seq![34u8] + encode_utf8(m.spec_name()) + seq![
            34u8,
        ],
        encode_utf8(m.spec_name()).len() >= 3,
        forall|i: int|
            0 <= i < encode_utf8(m.spec_name()).len() ==> 32 <= (
            #[trigger] encode_utf8(m.spec_name())[i]) && encode_utf8(m.spec_name())[i] != 34
                && encode_utf8(m.spec_name())[i] != 92,
{
    lemma_kw_bytes();
    match m {
        Method::Get => {},
        Method::Head => {},
        Method::Post => {},
        Method::Put => {},
        Method::Delete => {},
        Method::Connect => {},
        Method::Options => {},
        Method::Trace => {},
        Method::Patch => {},
    }
    lemma_escape_plain(encode_utf8(m.spec_name()));
}

/// A printed method list followed by its closing bracket reads back
/// as exactly those methods, ending right after the bracket.
proof fn lemma_methods_items_read_back(v: Seq<u8>, pos: int, ms: Seq<Method>)
    requires
        ms.len() >= 1,
        0 <= pos,
        pos + spec_encode_methods(ms).len() + 1 <= v.len(),
        v.subrange(pos, pos + spec_encode_methods(ms).len() + 1) == spec_encode_methods(ms)
            + seq![93u8],
    ensures
        spec_methods_items(v, pos) == Some((ms, pos + spec_encode_methods(ms).len() + 1)),
    decreases ms.len(),
{
    let items = spec_encode_methods(ms);
    let window = items + seq![93u8];
    assert forall|k: int| 0 <= k < window.len() implies v[pos + k] == #[trigger] window[k] by {
        assert(v.subrange(pos, pos + window.len())[k] == v[pos + k]);
    }
    let m0 = ms[0];
    lemma_method_bytes_roundtrip(m0);
    let b0 = encode_utf8(m0.spec_name());
    let q = spec_quote(b0);
    lemma_escape_plain(b0);
    assert(q =~= seq![34u8] + b0 + seq![34u8]);
    if ms.len() == 1 {
        assert(items == q);
        assert forall|j: int| 0 <= j < q.len() implies v[pos + j] == #[trigger] q[j] by {
            assert(window[j] == q[j]);
        }
        assert(v.subrange(pos, pos + q.len() as int) =~= q);
        lemma_quoted_string_roundtrip(v, pos, b0);
        let p1 = pos + q.len() as int;
        assert(v[p1] == window[q.len() as int]);
        assert(window[q.len() as int] == 93);
        assert(spec_skip_ws(v, p1) == p1);
        assert(seq![m0] =~= ms);
    } else {
        let rest = ms.skip(1);
        let rest_items = spec_encode_methods(rest);
        assert(items == q + seq![44u8] + rest_items);
        assert forall|j: int| 0 <= j < q.len() implies v[pos + j] == #[trigger] q[j] by {
            assert(window[j] == q[j]);
        }
        assert(v.subrange(pos, pos + q.len() as int) =~= q);
        lemma_quoted_string_roundtrip(v, pos, b0);
        let p1 = pos + q.len() as int;
        assert(v[p1] == window[q.len() as int]);
        assert(window[q.len() as int] == 44);
        assert(spec_skip_ws(v, p1) == p1);
        let p3 = p1 + 1;
        let subwindow = rest_items + seq![93u8];
        assert forall|j: int|
            0 <= j < subwindow.len() implies v[p3 + j] == #[trigger] subwindow[j] by {
            assert(window[q.len() as int + 1 + j] == subwindow[j]);
            assert(v[pos + (q.len() as int + 1 + j)] == window[q.len() as int + 1 + j]);
        }
        assert(v.subrange(p3, p3 + rest_items.len() as int + 1) =~= subwindow);
        lemma_methods_items_read_back(v, p3, rest);
        lemma_method_bytes_roundtrip(rest[0]);
        lemma_escape_plain(encode_utf8(rest[0].spec_name()));
        assert(rest_items[0] == spec_encode_string(rest[0].spec_name())[0]);
        assert(spec_encode_string(rest[0].spec_name())[0] == 34);
        assert(v[p3 + 0] == subwindow[0]);
        assert(subwindow[0] == 34);
        assert(spec_skip_ws(v, p3) == p3);
        assert(seq![m0] + rest =~= ms);
    }
}

/// Law: a printed method list round-trips.  Printing any methods as
/// one canonical bracketed list and reading that token back yields
/// exactly the same methods, in order.
pub proof fn lemma_methods_read_back(v: Seq<u8>, pos: int, ms: Seq<Method>)
    requires
        0 <= pos,
        pos + spec_encode_methods(ms).len() + 2 <= v.len(),
        v.subrange(pos, pos + spec_encode_methods(ms).len() + 2) == seq![91u8]
            + spec_encode_methods(ms) + seq![93u8],
    ensures
        spec_parse_methods(v, pos) == Some((ms, pos + spec_encode_methods(ms).len() + 2)),
{
    let items = spec_encode_methods(ms);
    let window = seq![91u8] + items + seq![93u8];
    assert forall|k: int| 0 <= k < window.len() implies v[pos + k] == #[trigger] window[k] by {
        assert(v.subrange(pos, pos + window.len())[k] == v[pos + k]);
    }
    assert(window[0] == 91);
    assert(v[pos + 0] == window[0]);
    if ms.len() == 0 {
        assert(items =~= Seq::<u8>::empty());
        assert(window[1] == 93);
        assert(v[pos + 1] == window[1]);
        assert(spec_skip_ws(v, pos + 1) == pos + 1);
        assert(Seq::<Method>::empty() =~= ms);
    } else {
        lemma_method_bytes_roundtrip(ms[0]);
        lemma_escape_plain(encode_utf8(ms[0].spec_name()));
        assert(items[0] == spec_encode_string(ms[0].spec_name())[0]);
        assert(spec_encode_string(ms[0].spec_name())[0] == 34);
        assert(window[1] == items[0]);
        assert(v[pos + 1] == window[1]);
        assert(spec_skip_ws(v, pos + 1) == pos + 1);
        let subwindow = items + seq![93u8];
        assert forall|j: int|
            0 <= j < subwindow.len() implies v[pos + 1 + j] == #[trigger] subwindow[j] by {
            assert(window[1 + j] == subwindow[j]);
            assert(v[pos + (1 + j)] == window[1 + j]);
        }
        assert(v.subrange(pos + 1, pos + 1 + items.len() as int + 1) =~= subwindow);
        lemma_methods_items_read_back(v, pos + 1, ms);
    }
}

/// One printed output object reads back as the HTTP output kind.
#[verifier::rlimit(100)]
#[verifier::spinoff_prover]
proof fn lemma_output_reads_back(v: Seq<u8>, pos: int)
    requires
        0 <= pos,
        pos + 15 <= v.len(),
        v.subrange(pos, pos + 15) == kw("{\"type\":\"http\"}"),
    ensures
        spec_parse_output(v, pos) == Some((FunctionOutput::Http, pos + 15)),
{
    lemma_kw_bytes();
    let window = kw("{\"type\":\"http\"}");
    assert forall|k: int| 0 <= k < 15 implies v[pos + k] == #[trigger] window[k] by {
        assert(v.subrange(pos, pos + 15)[k] == v[pos + k]);
    }
    assert(v[pos + 0] == 123);
    assert(v[pos + 1] == 34);
    assert(spec_skip_ws(v, pos + 1) == pos + 1);
    let tyq = spec_quote(kw("type"));
    lemma_escape_plain(kw("type"));
    assert(tyq =~= seq![34u8] + kw("type") + seq![34u8]);
    assert forall|j: int| 0 <= j < 6 implies v[pos + 1 + j] == #[trigger] tyq[j] by {
        assert(v[pos + (1 + j)] == window[1 + j]);
    }
    assert(v.subrange(pos + 1, pos + 7) =~= tyq);
    lemma_quoted_string_roundtrip(v, pos + 1, kw("type"));
    assert(v[pos + 7] == 58);
    assert(spec_skip_ws(v, pos + 7) == pos + 7);
    assert(v[pos + 8] == 34);
    assert(spec_skip_ws(v, pos + 8) == pos + 8);
    let htq = spec_quote(kw("http"));
    lemma_escape_plain(kw("http"));
    assert(htq =~= seq![34u8] + kw("http") + seq![34u8]);
    assert forall|j: int| 0 <= j < 6 implies v[pos + 8 + j] == #[trigger] htq[j] by {
        assert(v[pos + (8 + j)] == window[8 + j]);
    }
    assert(v.subrange(pos + 8, pos + 14) =~= htq);
    lemma_quoted_string_roundtrip(v, pos + 8, kw("http"));
    assert(v[pos + 14] == 125);
    assert(spec_skip_ws(v, pos + 14) == pos + 14);
}

/// A printed output list followed by its closing bracket reads back
/// as exactly those outputs, ending right after the bracket.
proof fn lemma_outputs_items_read_back(v: Seq<u8>, pos: int, os: Seq<FunctionOutput>)
    requires
        os.len() >= 1,
        0 <= pos,
        pos + spec_encode_outputs(os).len() + 1 <= v.len(),
        v.subrange(pos, pos + spec_encode_outputs(os).len() + 1) == spec_encode_outputs(os)
            + seq![93u8],
    ensures
        spec_outputs_items(v, pos) == Some((os, pos + spec_encode_outputs(os).len() + 1)),
    decreases os.len(),
{
    lemma_kw_bytes();
    let items = spec_encode_outputs(os);
    let window = items + seq![93u8];
    assert forall|k: int| 0 <= k < window.len() implies v[pos + k] == #[trigger] window[k] by {
        assert(v.subrange(pos, pos + window.len())[k] == v[pos + k]);
    }
    let e = kw("{\"type\":\"http\"}");
    assert(os[0] == FunctionOutput::Http);
    if os.len() == 1 {
        assert(items == e);
        assert forall|j: int| 0 <= j < 15 implies v[pos + j] == #[trigger] e[j] by {
            assert(window[j] == e[j]);
        }
        assert(v.subrange(pos, pos + 15) =~= e);
        lemma_output_reads_back(v, pos);
        assert(v[pos + 15] == window[15]);
        assert(window[15] == 93);
        assert(spec_skip_ws(v, pos + 15) == pos + 15);
        assert(seq![FunctionOutput::Http] =~= os);
    } else {
        let rest = os.skip(1);
        let rest_items = spec_encode_outputs(rest);
        assert(items == e + seq![44u8] + rest_items);
        assert forall|j: int| 0 <= j < 15 implies v[pos + j] == #[trigger] e[j] by {
            assert(window[j] == e[j]);
        }
        assert(v.subrange(pos, pos + 15) =~= e);
        lemma_output_reads_back(v, pos);
        assert(v[pos + 15] == window[15]);
        assert(window[15] == 44);
        assert(spec_skip_ws(v, pos + 15) == pos + 15);
        let p3 = pos + 16;
        let subwindow = rest_items + seq![93u8];
        assert forall|j: int|
            0 <= j < subwindow.len() implies v[p3 + j] == #[trigger] subwindow[j] by {
            assert(window[16 + j] == subwindow[j]);
            assert(v[pos + (16 + j)] == window[16 + j]);
        }
        assert(v.subrange(p3, p3 + rest_items.len() as int + 1) =~= subwindow);
        lemma_outputs_items_read_back(v, p3, rest);
        assert(rest_items[0] == 123);
        assert(v[p3 + 0] == subwindow[0]);
        assert(subwindow[0] == 123);
        assert(spec_skip_ws(v, p3) == p3);
        assert(seq![FunctionOutput::Http] + rest =~= os);
    }
}

/// Law: a printed output list round-trips.  Printing any outputs as
/// one canonical bracketed list and reading that token back yields
/// exactly the same outputs.
pub proof fn lemma_outputs_read_back(v: Seq<u8>, pos: int, os: Seq<FunctionOutput>)
    requires
        0 <= pos,
        pos + spec_encode_outputs(os).len() + 2 <= v.len(),
        v.subrange(pos, pos + spec_encode_outputs(os).len() + 2) == seq![91u8]
            + spec_encode_outputs(os) + seq![93u8],
    ensures
        spec_parse_outputs(v, pos) == Some((os, pos + spec_encode_outputs(os).len() + 2)),
{
    lemma_kw_bytes();
    let items = spec_encode_outputs(os);
    let window = seq![91u8] + items + seq![93u8];
    assert forall|k: int| 0 <= k < window.len() implies v[pos + k] == #[trigger] window[k] by {
        assert(v.subrange(pos, pos + window.len())[k] == v[pos + k]);
    }
    assert(window[0] == 91);
    assert(v[pos + 0] == window[0]);
    if os.len() == 0 {
        assert(items =~= Seq::<u8>::empty());
        assert(window[1] == 93);
        assert(v[pos + 1] == window[1]);
        assert(spec_skip_ws(v, pos + 1) == pos + 1);
        assert(Seq::<FunctionOutput>::empty() =~= os);
    } else {
        assert(items[0] == kw("{\"type\":\"http\"}")[0]);
        assert(window[1] == items[0]);
        assert(v[pos + 1] == window[1]);
        assert(v[pos + 1] == 123);
        assert(spec_skip_ws(v, pos + 1) == pos + 1);
        let subwindow = items + seq![93u8];
        assert forall|j: int|
            0 <= j < subwindow.len() implies v[pos + 1 + j] == #[trigger] subwindow[j] by {
            assert(window[1 + j] == subwindow[j]);
            assert(v[pos + (1 + j)] == window[1 + j]);
        }
        assert(v.subrange(pos + 1, pos + 1 + items.len() as int + 1) =~= subwindow);
        lemma_outputs_items_read_back(v, pos + 1, os);
    }
}


} // verus!
