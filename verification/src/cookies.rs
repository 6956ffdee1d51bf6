//! Reading cookies out of a request's `Cookie` header.
//!
//! The header holds items separated by `;`, each item a `name=value`
//! pair, possibly after spaces.  An item without `=` names no cookie and
//! is passed over.  Lookup is by exact name, first match.

use vstd::prelude::*;

use crate::resource::pairs_view;
use crate::resource::spec_lookup;
use crate::resource::spec_lookup_ci;
use crate::resource::find_pair_ci;
use crate::text::bytes_eq;
use crate::text::copy_range;

verus! {

/// The index of the first occurrence of `sep`, or the length when the
/// byte does not occur.
pub open spec fn spec_find_byte(v: Seq<u8>, sep: u8) -> int
    decreases v.len(),
{
    if v.len() == 0 {
        0
    } else if v[0] == sep {
        0
    } else {
        1 + spec_find_byte(v.skip(1), sep)
    }
}

/// The bytes after any leading spaces.
pub open spec fn spec_trim_left(s: Seq<u8>) -> Seq<u8>
    decreases s.len(),
{
    if s.len() > 0 && s[0] == 32 {
        spec_trim_left(s.skip(1))
    } else {
        s
    }
}

/// The name/value pair one cookie item holds, if it holds one: leading
/// spaces dropped, split at the first `=`.
pub open spec fn spec_item_pair(item: Seq<u8>) -> Option<(Seq<u8>, Seq<u8>)> {
    let t = spec_trim_left(item);
    let j = spec_find_byte(t, 61);
    if j < t.len() {
        Some((t.take(j), t.skip(j + 1)))
    } else {
        None
    }
}

/// The cookie pairs a `Cookie` header value holds, in order.
pub open spec fn spec_cookie_pairs(v: Seq<u8>) -> Seq<(Seq<u8>, Seq<u8>)>
    decreases v.len(),
{
    if v.len() == 0 {
        Seq::empty()
    } else {
        let i = spec_find_byte(v, 59);
        if 0 <= i < v.len() {
            let rest = spec_cookie_pairs(v.skip(i + 1));
            match spec_item_pair(v.take(i)) {
                Some(p) => seq![p] + rest,
                None => rest,
            }
        } else {
            match spec_item_pair(v) {
                Some(p) => seq![p],
                None => Seq::empty(),
            }
        }
    }
}

/// The name of the header cookies arrive in, as bytes.
pub open spec fn spec_cookie_header_name() -> Seq<u8> {
    seq![99u8, 111u8, 111u8, 107u8, 105u8, 101u8]
}

/// The value of the request cookie named `name`: the first matching
/// pair of the first `Cookie` header, when there is one.
pub open spec fn spec_cookie_lookup(headers: Seq<(Seq<u8>, Seq<u8>)>, name: Seq<u8>) -> Option<
    Seq<u8>,
> {
    match spec_lookup_ci(headers, spec_cookie_header_name()) {
        Some(v) => spec_lookup(spec_cookie_pairs(v), name),
        None => None,
    }
}

/// Where the first occurrence of `sep` falls: in range, on the byte,
/// and after none of it.
pub(crate) proof fn lemma_find_byte(v: Seq<u8>, sep: u8)
    ensures
        0 <= spec_find_byte(v, sep) <= v.len(),
        spec_find_byte(v, sep) < v.len() ==> v[spec_find_byte(v, sep)] == sep,
        forall|j: int| 0 <= j < spec_find_byte(v, sep) ==> v[j] != sep,
    decreases v.len(),
{
    if v.len() > 0 && v[0] != sep {
        lemma_find_byte(v.skip(1), sep);
        assert forall|j: int| 0 <= j < spec_find_byte(v, sep) implies v[j] != sep by {
            if j > 0 {
                assert(v.skip(1)[j - 1] == v[j]);
                assert(v.skip(1)[j - 1] != sep);
            }
        }
    }
}

/// A position with no `sep` before it that sits on `sep` or at the end
/// is exactly where the first occurrence falls.
proof fn lemma_find_byte_at(v: Seq<u8>, sep: u8, i: int)
    requires
        0 <= i <= v.len(),
        forall|j: int| 0 <= j < i ==> v[j] != sep,
        i < v.len() ==> v[i] == sep,
    ensures
        spec_find_byte(v, sep) == i,
    decreases v.len(),
{
    if v.len() > 0 {
        if i == 0 {
            if v[0] != sep {
                assert(v.len() == 0);
            }
        } else {
            assert(v[0] != sep);
            lemma_find_byte_at(v.skip(1), sep, i - 1);
        }
    }
}

/// Finds the first occurrence of `sep` between two positions.
pub(crate) fn find_byte_range(v: &[u8], from: usize, to: usize, sep: u8) -> (r: usize)
    requires
        from <= to <= v@.len(),
    ensures
        from <= r <= to,
        r - from == spec_find_byte(v@.subrange(from as int, to as int), sep),
{
    let ghost win = v@.subrange(from as int, to as int);
    let mut i: usize = from;
    while i < to
        invariant
            from <= i <= to <= v@.len(),
            win == v@.subrange(from as int, to as int),
            forall|j: int| 0 <= j < i - from ==> win[j] != sep,
        decreases to - i,
    {
        if v[i] == sep {
            proof {
                assert(win[i - from] == sep);
                lemma_find_byte_at(win, sep, i - from);
            }
            return i;
        }
        proof {
            assert(win[i - from] == v@[i as int]);
        }
        i += 1;
    }
    proof {
        lemma_find_byte_at(win, sep, to - from);
    }
    to
}

/// Leading spaces end exactly where the first non-space byte stands.
proof fn lemma_trim_left_at(s: Seq<u8>, k: int)
    requires
        0 <= k <= s.len(),
        forall|j: int| 0 <= j < k ==> s[j] == 32,
        k < s.len() ==> s[k] != 32,
    ensures
        spec_trim_left(s) == s.skip(k),
    decreases s.len(),
{
    if k == 0 {
        assert(s.skip(0) =~= s);
    } else {
        assert(s[0] == 32);
        lemma_trim_left_at(s.skip(1), k - 1);
        assert(s.skip(1).skip(k - 1) =~= s.skip(k));
    }
}

/// Looks up a request cookie by exact name in the request's headers.
pub fn cookie_header_lookup(headers: &Vec<(Vec<u8>, Vec<u8>)>, name: &[u8]) -> (r: Option<Vec<u8>>)
    ensures
        match r {
            Some(v) => spec_cookie_lookup(pairs_view(headers@), name@) == Some(v@),
            None => spec_cookie_lookup(pairs_view(headers@), name@) is None,
        },
{
    let mut header_name: Vec<u8> = Vec::new();
    header_name.push(99);
    header_name.push(111);
    header_name.push(111);
    header_name.push(107);
    header_name.push(105);
    header_name.push(101);
    proof {
        assert(header_name@ =~= spec_cookie_header_name());
    }
    let value = match find_pair_ci(headers, header_name.as_slice()) {
        Some(v) => v,
        None => {
            return None;
        },
    };
    cookie_value_lookup(value.as_slice(), name)
}

/// Looks up a cookie by exact name inside one `Cookie` header value.
fn cookie_value_lookup(v: &[u8], name: &[u8]) -> (r: Option<Vec<u8>>)
    ensures
        match r {
            Some(value) => spec_lookup(spec_cookie_pairs(v@), name@) == Some(value@),
            None => spec_lookup(spec_cookie_pairs(v@), name@) is None,
        },
{
    let ghost whole = v@;
    proof {
        assert(whole.skip(0) =~= whole);
    }
    let mut pos: usize = 0;
    loop
        invariant
            pos <= v@.len(),
            spec_lookup(spec_cookie_pairs(v@.skip(pos as int)), name@) == spec_lookup(
                spec_cookie_pairs(v@),
                name@,
            ),
        decreases v@.len() - pos,
    {
        if pos >= v.len() {
            proof {
                assert(v@.skip(pos as int) =~= Seq::<u8>::empty());
            }
            return None;
        }
        let ghost tail = v@.skip(pos as int);
        let item_end = find_byte_range(v, pos, v.len(), 59);
        proof {
            assert(v@.subrange(pos as int, v@.len() as int) =~= tail);
            lemma_find_byte(tail, 59);
        }
        let ghost item = tail.take(item_end - pos as int);
        proof {
            assert(item =~= v@.subrange(pos as int, item_end as int));
        }

        // Skip the item's leading spaces.
        let mut t_start: usize = pos;
        while t_start < item_end && v[t_start] == 32
            invariant
                pos <= t_start <= item_end <= v@.len(),
                forall|j: int| 0 <= j < t_start - pos ==> v@.subrange(
                    pos as int,
                    item_end as int,
                )[j] == 32,
            decreases item_end - t_start,
        {
            proof {
                let ghost here = t_start as int;
                assert(v@.subrange(pos as int, item_end as int)[here - pos] == v@[here]);
            }
            t_start += 1;
        }
        proof {
            if t_start < item_end {
                let here = t_start as int;
                assert(v@.subrange(pos as int, item_end as int)[here - pos] == v@[here]);
            }
            lemma_trim_left_at(item, t_start - pos as int);
            assert(spec_trim_left(item) =~= v@.subrange(t_start as int, item_end as int));
        }
        let ghost trimmed = v@.subrange(t_start as int, item_end as int);

        // Split the item at its first `=`.
        let eq_at = find_byte_range(v, t_start, item_end, 61);
        proof {
            lemma_find_byte(trimmed, 61);
        }
        if eq_at < item_end {
            // The item names a cookie: compare the name.
            let item_name = copy_range(v, t_start, eq_at);
            proof {
                assert(trimmed.take(eq_at - t_start as int) =~= v@.subrange(
                    t_start as int,
                    eq_at as int,
                ));
            }
            if bytes_eq(item_name.as_slice(), name) {
                let value = copy_range(v, eq_at + 1, item_end);
                proof {
                    assert(trimmed.skip(eq_at - t_start as int + 1) =~= v@.subrange(
                        eq_at as int + 1,
                        item_end as int,
                    ));
                    assert(spec_item_pair(item) == Some((name@, value@)));
                    if item_end < v.len() {
                        assert(spec_cookie_pairs(tail)[0] == (name@, value@));
                    } else {
                        assert(spec_cookie_pairs(tail)[0] == (name@, value@));
                    }
                }
                return Some(value);
            }
            proof {
                assert(spec_item_pair(item) matches Some(p) && p.0 != name@);
            }
        } else {
            proof {
                assert(spec_item_pair(item) is None);
            }
        }
        proof {
            if item_end < v.len() {
                assert(tail.skip(item_end - pos as int + 1) =~= v@.skip(item_end as int + 1));
                match spec_item_pair(item) {
                    Some(p) => {
                        assert(spec_cookie_pairs(tail) == seq![p] + spec_cookie_pairs(
                            v@.skip(item_end as int + 1),
                        ));
                        assert((seq![p] + spec_cookie_pairs(v@.skip(item_end as int + 1))).skip(1)
                            =~= spec_cookie_pairs(v@.skip(item_end as int + 1)));
                    },
                    None => {},
                }
            } else {
                match spec_item_pair(item) {
                    Some(p) => {
                        assert(spec_cookie_pairs(tail) == seq![p]);
                        assert(seq![p].skip(1) =~= Seq::<(Seq<u8>, Seq<u8>)>::empty());
                        assert(v@.skip(v@.len() as int) =~= Seq::<u8>::empty());
                    },
                    None => {
                        assert(v@.skip(v@.len() as int) =~= Seq::<u8>::empty());
                    },
                }
            }
        }
        if item_end >= v.len() {
            pos = v.len();
        } else {
            pos = item_end + 1;
        }
    }
}

} // verus!
