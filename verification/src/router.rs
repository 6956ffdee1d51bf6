//! Routing: matching an inbound method and path against the functions
//! a module declares.
//!
//! A trigger path is a `/`-separated pattern; a segment starting with
//! `:` captures the request's segment as a route parameter, any other
//! segment must match exactly.  An empty method list matches any
//! method.  The first structurally matching function wins, and at most
//! one function answers a request; no match is a normal outcome, not an
//! error.

use vstd::prelude::*;
use vstd::utf8::encode_utf8;

use crate::cookies::find_byte_range;
use crate::cookies::lemma_find_byte;
use crate::cookies::spec_find_byte;
use crate::metadata::Function;
use crate::metadata::FunctionView;
use crate::metadata::Method;
use crate::metadata::TriggerView;
use crate::metadata::functions_view;
use crate::resource::pairs_view;
use crate::text::bytes_eq;
use crate::text::copy_range;

verus! {

/// The `/`-separated segments of a path, empty segments kept.
pub open spec fn spec_segments(v: Seq<u8>) -> Seq<Seq<u8>>
    decreases v.len(),
{
    let i = spec_find_byte(v, 47);
    if 0 <= i < v.len() {
        seq![v.take(i)] + spec_segments(v.skip(i + 1))
    } else {
        seq![v]
    }
}

/// How pattern segments match path segments: a `:name` segment captures
/// the path's segment under `name`, any other segment must be equal,
/// and the counts must agree.
pub open spec fn spec_segs_match(ps: Seq<Seq<u8>>, ss: Seq<Seq<u8>>) -> Option<
    Seq<(Seq<u8>, Seq<u8>)>,
>
    decreases ps.len(),
{
    if ps.len() != ss.len() {
        None
    } else if ps.len() == 0 {
        Some(Seq::empty())
    } else {
        let p0 = ps[0];
        if p0.len() > 0 && p0[0] == 58 {
            match spec_segs_match(ps.skip(1), ss.skip(1)) {
                Some(rest) => Some(seq![(p0.skip(1), ss[0])] + rest),
                None => None,
            }
        } else if p0 == ss[0] {
            spec_segs_match(ps.skip(1), ss.skip(1))
        } else {
            None
        }
    }
}

/// Whether a pattern matches a path, and the route parameters the
/// match captures.
pub open spec fn spec_path_match(pattern: Seq<u8>, path: Seq<u8>) -> Option<
    Seq<(Seq<u8>, Seq<u8>)>,
> {
    spec_segs_match(spec_segments(pattern), spec_segments(path))
}

/// Whether a method list admits an inbound method: an empty list admits
/// any method, a non-empty list exactly its own.
pub open spec fn spec_method_allowed(ms: Seq<Method>, method: Seq<u8>) -> bool {
    ms.len() == 0 || exists|k: int|
        0 <= k < ms.len() && encode_utf8((#[trigger] ms[k]).spec_name()) == method
}

/// Whether one trigger answers an inbound method and path, and the
/// parameters it captures.
pub open spec fn spec_trigger_match(t: TriggerView, method: Seq<u8>, path: Seq<u8>) -> Option<
    Seq<(Seq<u8>, Seq<u8>)>,
> {
    if spec_method_allowed(t.methods, method) {
        spec_path_match(encode_utf8(t.path), path)
    } else {
        None
    }
}

/// The first function from position `i` whose trigger answers the
/// request, with the parameters its pattern captures.
pub open spec fn spec_route_from(
    fs: Seq<FunctionView>,
    method: Seq<u8>,
    path: Seq<u8>,
    i: int,
) -> Option<(int, Seq<(Seq<u8>, Seq<u8>)>)>
    decreases fs.len() - i,
{
    if i < 0 || i >= fs.len() {
        None
    } else {
        match spec_trigger_match(fs[i].trigger, method, path) {
            Some(params) => Some((i, params)),
            None => spec_route_from(fs, method, path, i + 1),
        }
    }
}

/// The first function whose trigger answers the request — first
/// structural match wins — or nothing: an unmatched request is a
/// normal outcome.
pub open spec fn spec_route(fs: Seq<FunctionView>, method: Seq<u8>, path: Seq<u8>) -> Option<
    (int, Seq<(Seq<u8>, Seq<u8>)>),
> {
    spec_route_from(fs, method, path, 0)
}

/// Splits a path into its `/`-separated segments.
fn segments(v: &[u8]) -> (r: Vec<Vec<u8>>)
    ensures
        segs_view(r@) == spec_segments(v@),
{
    let mut acc: Vec<Vec<u8>> = Vec::new();
    let mut pos: usize = 0;
    proof {
        assert(v@.skip(0) =~= v@);
        assert(segs_view(acc@) + spec_segments(v@) =~= spec_segments(v@));
    }
    loop
        invariant
            pos <= v@.len(),
            spec_segments(v@) == segs_view(acc@) + spec_segments(v@.skip(pos as int)),
        decreases v@.len() - pos,
    {
        let ghost tail = v@.skip(pos as int);
        let i = find_byte_range(v, pos, v.len(), 47);
        proof {
            assert(v@.subrange(pos as int, v@.len() as int) =~= tail);
            lemma_find_byte(tail, 47);
        }
        let seg = copy_range(v, pos, i);
        let ghost old_acc = segs_view(acc@);
        acc.push(seg);
        proof {
            assert(segs_view(acc@) =~= old_acc.push(v@.subrange(pos as int, i as int)));
            assert(tail.take(i - pos as int) =~= v@.subrange(pos as int, i as int));
        }
        if i < v.len() {
            proof {
                assert(tail.skip(i - pos as int + 1) =~= v@.skip(i as int + 1));
                assert(spec_segments(tail) == seq![tail.take(i - pos as int)] + spec_segments(
                    v@.skip(i as int + 1),
                ));
                assert(old_acc + (seq![tail.take(i - pos as int)] + spec_segments(
                    v@.skip(i as int + 1),
                )) =~= segs_view(acc@) + spec_segments(v@.skip(i as int + 1)));
            }
            pos = i + 1;
        } else {
            proof {
                assert(spec_segments(tail) == seq![tail]);
                assert(tail.take(i - pos as int) =~= tail);
                assert(old_acc + seq![tail] =~= segs_view(acc@));
                assert(segs_view(acc@) =~= spec_segments(v@));
            }
            return acc;
        }
    }
}

/// The mathematical value of a list of byte segments.
pub open spec fn segs_view(s: Seq<Vec<u8>>) -> Seq<Seq<u8>> {
    Seq::new(s.len(), |i: int| s[i]@)
}

/// Matches pattern segments against path segments, capturing route
/// parameters.
fn segs_match(ps: &Vec<Vec<u8>>, ss: &Vec<Vec<u8>>) -> (r: Option<Vec<(Vec<u8>, Vec<u8>)>>)
    ensures
        match r {
            Some(params) => spec_segs_match(segs_view(ps@), segs_view(ss@)) == Some(
                pairs_view(params@),
            ),
            None => spec_segs_match(segs_view(ps@), segs_view(ss@)) is None,
        },
{
    if ps.len() != ss.len() {
        return None;
    }
    let mut params: Vec<(Vec<u8>, Vec<u8>)> = Vec::new();
    let mut i: usize = 0;
    proof {
        assert(segs_view(ps@).skip(0) =~= segs_view(ps@));
        assert(segs_view(ss@).skip(0) =~= segs_view(ss@));
        if spec_segs_match(segs_view(ps@), segs_view(ss@)) is Some {
            let rest = spec_segs_match(segs_view(ps@), segs_view(ss@))->Some_0;
            assert(pairs_view(params@) + rest =~= rest);
        }
    }
    while i < ps.len()
        invariant
            i <= ps@.len(),
            ps@.len() == ss@.len(),
            spec_segs_match(segs_view(ps@), segs_view(ss@)) == (match spec_segs_match(
                segs_view(ps@).skip(i as int),
                segs_view(ss@).skip(i as int),
            ) {
                Some(rest) => Some(pairs_view(params@) + rest),
                None => None::<Seq<(Seq<u8>, Seq<u8>)>>,
            }),
        decreases ps@.len() - i,
    {
        let ghost ptail = segs_view(ps@).skip(i as int);
        let ghost stail = segs_view(ss@).skip(i as int);
        proof {
            assert(ptail[0] == ps@[i as int]@);
            assert(stail[0] == ss@[i as int]@);
            assert(ptail.skip(1) =~= segs_view(ps@).skip(i as int + 1));
            assert(stail.skip(1) =~= segs_view(ss@).skip(i as int + 1));
        }
        let p0 = &ps[i];
        if p0.len() > 0 && p0[0] == 58 {
            let name = copy_range(p0.as_slice(), 1, p0.len());
            let value = copy_range(ss[i].as_slice(), 0, ss[i].len());
            proof {
                assert(name@ =~= ps@[i as int]@.skip(1));
                assert(value@ =~= ss@[i as int]@);
            }
            let ghost old_params = pairs_view(params@);
            params.push((name, value));
            proof {
                assert(pairs_view(params@) =~= old_params.push(
                    (ps@[i as int]@.skip(1), ss@[i as int]@),
                ));
                if spec_segs_match(
                    segs_view(ps@).skip(i as int + 1),
                    segs_view(ss@).skip(i as int + 1),
                ) is Some {
                    let rest = spec_segs_match(
                        segs_view(ps@).skip(i as int + 1),
                        segs_view(ss@).skip(i as int + 1),
                    )->Some_0;
                    assert(old_params + (seq![(ps@[i as int]@.skip(1), ss@[i as int]@)] + rest)
                        =~= pairs_view(params@) + rest);
                }
            }
        } else {
            if !bytes_eq(p0.as_slice(), ss[i].as_slice()) {
                return None;
            }
        }
        i += 1;
    }
    proof {
        assert(segs_view(ps@).skip(i as int) =~= Seq::<Seq<u8>>::empty());
        assert(segs_view(ss@).skip(i as int) =~= Seq::<Seq<u8>>::empty());
        assert(pairs_view(params@) + Seq::<(Seq<u8>, Seq<u8>)>::empty() =~= pairs_view(params@));
    }
    Some(params)
}

/// Whether a method list admits the inbound method.
fn method_allowed(ms: &Vec<Method>, method: &[u8]) -> (r: bool)
    ensures
        r == spec_method_allowed(ms@, method@),
{
    if ms.len() == 0 {
        return true;
    }
    let mut k: usize = 0;
    while k < ms.len()
        invariant
            k <= ms@.len(),
            forall|j: int|
                0 <= j < k ==> encode_utf8((#[trigger] ms@[j]).spec_name()) != method@,
        decreases ms@.len() - k,
    {
        if bytes_eq(ms[k].as_ref().as_bytes(), method) {
            proof {
                assert(encode_utf8(ms@[k as int].spec_name()) == method@);
            }
            return true;
        }
        k += 1;
    }
    false
}

/// Matches one trigger against an inbound method and path.
fn trigger_match(
    path_pattern: &str,
    ms: &Vec<Method>,
    method: &[u8],
    path: &[u8],
) -> (r: Option<Vec<(Vec<u8>, Vec<u8>)>>)
    ensures
        match r {
            Some(params) => spec_trigger_match(
                (TriggerView { path: path_pattern@, methods: ms@ }),
                method@,
                path@,
            ) == Some(pairs_view(params@)),
            None => spec_trigger_match(
                (TriggerView { path: path_pattern@, methods: ms@ }),
                method@,
                path@,
            ) is None,
        },
{
    if !method_allowed(ms, method) {
        return None;
    }
    let pattern_segs = segments(path_pattern.as_bytes());
    let path_segs = segments(path);
    segs_match(&pattern_segs, &path_segs)
}

/// Routes an inbound method and path to the first matching function,
/// yielding its index and the captured route parameters, or nothing
/// when no function matches.
pub fn route(functions: &Vec<Function>, method: &[u8], path: &[u8]) -> (r: Option<
    (usize, Vec<(Vec<u8>, Vec<u8>)>),
>)
    ensures
        match r {
            Some((i, params)) => spec_route(functions_view(functions@), method@, path@) == Some(
                (i as int, pairs_view(params@)),
            ),
            None => spec_route(functions_view(functions@), method@, path@) is None,
        },
{
    let ghost fs = functions_view(functions@);
    let mut i: usize = 0;
    while i < functions.len()
        invariant
            i <= functions@.len(),
            fs == functions_view(functions@),
            spec_route(fs, method@, path@) == spec_route_from(fs, method@, path@, i as int),
        decreases functions@.len() - i,
    {
        proof {
            assert(fs[i as int] == functions@[i as int]@);
        }
        let f = &functions[i];
        let crate::metadata::FunctionTrigger::Http { path: ref pattern, methods: ref ms } =
            f.trigger;
        match trigger_match(pattern.as_str(), ms, method, path) {
            Some(params) => {
                return Some((i, params));
            },
            None => {},
        }
        i += 1;
    }
    None
}

} // verus!
