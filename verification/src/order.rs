//! Lexicographic order on strings (by character code point), and sorted,
//! deduplicated listings built with it.

use vstd::prelude::*;
use crate::strutil::{chars_of, push_string};

verus! {

/// Whether `a[k..]` is strictly below `b[k..]` in lexicographic order.
pub open spec fn lex_lt_at(a: Seq<char>, b: Seq<char>, k: int) -> bool
    decreases b.len() - k when 0 <= k
{
    if k >= b.len() {
        false
    } else if k >= a.len() {
        true
    } else if a[k] != b[k] {
        a[k] < b[k]
    } else {
        lex_lt_at(a, b, k + 1)
    }
}

/// Strict lexicographic order on character sequences.
pub open spec fn lex_lt(a: Seq<char>, b: Seq<char>) -> bool {
    lex_lt_at(a, b, 0)
}

/// A sequence is strictly ascending: each element below its successor.
/// Strict ascent implies that no element repeats.
pub open spec fn strictly_sorted(s: Seq<Seq<char>>) -> bool {
    forall|k: int| 0 <= k < s.len() - 1 ==> lex_lt(#[trigger] s[k], s[k + 1])
}

proof fn lemma_lex_lt_at_exclusive(a: Seq<char>, b: Seq<char>, k: int)
    requires
        0 <= k,
    ensures
        lex_lt_at(a, b, k) ==> !lex_lt_at(b, a, k),
    decreases b.len() - k,
{
    if k >= b.len() {
    } else if k >= a.len() {
    } else if a[k] != b[k] {
    } else {
        lemma_lex_lt_at_exclusive(a, b, k + 1);
    }
}

/// The order is irreflexive and asymmetric: at most one of `a < b`,
/// `b < a` holds, and never on equal sequences.
pub proof fn lemma_lex_lt_asymmetric(a: Seq<char>, b: Seq<char>)
    ensures
        lex_lt(a, b) ==> !lex_lt(b, a),
        lex_lt(a, b) ==> a != b,
    decreases b.len(),
{
    lemma_lex_lt_at_exclusive(a, b, 0);
    lemma_lex_lt_at_irreflexive(a, 0);
}

proof fn lemma_lex_lt_at_irreflexive(a: Seq<char>, k: int)
    requires
        0 <= k,
    ensures
        !lex_lt_at(a, a, k),
    decreases a.len() - k,
{
    if k < a.len() {
        lemma_lex_lt_at_irreflexive(a, k + 1);
    }
}

/// The order is total: two distinct sequences compare one way or the
/// other.
pub proof fn lemma_lex_lt_total(a: Seq<char>, b: Seq<char>)
    ensures
        lex_lt(a, b) || lex_lt(b, a) || a == b,
{
    lemma_lex_lt_at_total(a, b, 0);
}

proof fn lemma_lex_lt_at_total(a: Seq<char>, b: Seq<char>, k: int)
    requires
        0 <= k <= a.len(),
        k <= b.len(),
        forall|m: int| 0 <= m < k ==> a[m] == b[m],
    ensures
        lex_lt_at(a, b, k) || lex_lt_at(b, a, k) || a == b,
    decreases b.len() - k,
{
    if k >= b.len() {
        if k >= a.len() {
            assert(a =~= b);
        }
    } else if k >= a.len() {
    } else if a[k] != b[k] {
    } else {
        lemma_lex_lt_at_total(a, b, k + 1);
    }
}

/// Transitivity of the order.
pub proof fn lemma_lex_lt_trans(a: Seq<char>, b: Seq<char>, c: Seq<char>)
    requires
        lex_lt(a, b),
        lex_lt(b, c),
    ensures
        lex_lt(a, c),
{
    lemma_lex_lt_at_trans(a, b, c, 0);
}

proof fn lemma_lex_lt_at_trans(a: Seq<char>, b: Seq<char>, c: Seq<char>, k: int)
    requires
        0 <= k,
        lex_lt_at(a, b, k),
        lex_lt_at(b, c, k),
    ensures
        lex_lt_at(a, c, k),
    decreases c.len() - k,
{
    if k >= c.len() {
    } else if k >= b.len() {
    } else if k >= a.len() {
    } else {
        if a[k] == b[k] && b[k] == c[k] {
            lemma_lex_lt_at_trans(a, b, c, k + 1);
        }
    }
}

/// In a strictly ascending sequence every earlier element is strictly
/// below every later one.
pub proof fn lemma_strictly_sorted_global(s: Seq<Seq<char>>, x: int, y: int)
    requires
        strictly_sorted(s),
        0 <= x < y < s.len(),
    ensures
        lex_lt(s[x], s[y]),
    decreases y - x,
{
    if y == x + 1 {
    } else {
        lemma_strictly_sorted_global(s, x, y - 1);
        lemma_lex_lt_trans(s[x], s[y - 1], s[y]);
    }
}

/// Whether `a` is strictly below `b`, comparing character by character.
pub fn str_lt(a: &String, b: &String) -> (r: bool)
    ensures
        r == lex_lt(a@, b@),
{
    let av = chars_of(a.as_str());
    let bv = chars_of(b.as_str());
    let mut k: usize = 0;
    loop
        invariant
            av@ == a@,
            bv@ == b@,
            0 <= k <= av@.len(),
            k <= bv@.len(),
            lex_lt_at(a@, b@, 0) == lex_lt_at(a@, b@, k as int),
        decreases bv@.len() - k,
    {
        if k >= bv.len() {
            return false;
        }
        if k >= av.len() {
            return true;
        }
        if av[k] != bv[k] {
            return av[k] < bv[k];
        }
        k = k + 1;
    }
}

/// Inserts `s` into the strictly ascending `out` unless an equal string
/// is already there.
fn insert_sorted(out: &mut Vec<String>, s: String)
    requires
        strictly_sorted(old(out).deep_view()),
    ensures
        strictly_sorted(final(out).deep_view()),
        forall|t: Seq<char>|
            final(out).deep_view().contains(t) <==> (old(out).deep_view().contains(t) || t == s@),
{
    let ghost dv0 = out.deep_view();
    let ghost sv = s@;
    let mut pos: usize = 0;
    while pos < out.len() && str_lt(&out[pos], &s)
        invariant
            out.deep_view() == dv0,
            s@ == sv,
            pos <= out@.len(),
            forall|k: int| 0 <= k < pos ==> lex_lt(dv0[k], sv),
        decreases out@.len() - pos,
    {
        proof {
            assert(out.deep_view()[pos as int] == out@[pos as int]@);
        }
        pos = pos + 1;
    }
    // here: everything before pos is strictly below s
    if pos < out.len() && out[pos] == s {
        // already present: out is unchanged
        proof {
            assert(out.deep_view()[pos as int] == out@[pos as int]@);
            assert(out.deep_view().contains(sv));
        }
        return ;
    }
    proof {
        assert(pos < out@.len() ==> out.deep_view()[pos as int] == out@[pos as int]@);
        if pos < dv0.len() {
            lemma_lex_lt_total(dv0[pos as int], sv);
        }
    }
    let ghost rows0 = out@;
    out.insert(pos, s);
    proof {
        rows0.insert_ensures(pos as int, out@[pos as int]);
        let dv1 = out.deep_view();
        assert forall|k: int| 0 <= k < dv1.len() implies dv1[k] == (if k < pos {
            dv0[k]
        } else if k == pos {
            sv
        } else {
            dv0[k - 1]
        }) by {
            assert(dv1[k] == out@[k]@);
        }
        // sortedness: the neighbours of the new element are ordered around it
        assert forall|k: int| 0 <= k < dv1.len() - 1 implies lex_lt(#[trigger] dv1[k], dv1[k + 1]) by {
            if k + 1 < pos {
                assert(lex_lt(dv0[k], dv0[k + 1]));
            } else if k + 1 == pos {
                assert(lex_lt(dv0[k], sv));
            } else if k == pos {
                assert(lex_lt(sv, dv0[k]));
            } else {
                assert(lex_lt(dv0[k - 1], dv0[k]));
            }
        }
        // membership
        assert forall|t: Seq<char>| dv1.contains(t) implies (dv0.contains(t) || t == sv) by {
            let w = choose|w: int| 0 <= w < dv1.len() && dv1[w] == t;
            if w < pos {
                assert(dv0[w] == t);
            } else if w > pos {
                assert(dv0[w - 1] == t);
            }
        }
        assert forall|t: Seq<char>| dv0.contains(t) || t == sv implies dv1.contains(t) by {
            if t == sv {
                assert(dv1[pos as int] == sv);
            } else {
                let w = choose|w: int| 0 <= w < dv0.len() && dv0[w] == t;
                if w < pos {
                    assert(dv1[w] == t);
                } else {
                    assert(dv1[w + 1] == t);
                }
            }
        }
    }
}

/// The distinct strings of `v`, in strictly ascending lexicographic
/// order.
pub fn sort_dedup_strings(v: &Vec<String>) -> (r: Vec<String>)
    ensures
        strictly_sorted(r.deep_view()),
        forall|t: Seq<char>| r.deep_view().contains(t) <==> v.deep_view().contains(t),
{
    let mut out: Vec<String> = Vec::new();
    let mut i: usize = 0;
    while i < v.len()
        invariant
            i <= v@.len(),
            strictly_sorted(out.deep_view()),
            forall|t: Seq<char>|
                out.deep_view().contains(t) <==> v.deep_view().subrange(0, i as int).contains(t),
        decreases v@.len() - i,
    {
        let ghost before = out.deep_view();
        insert_sorted(&mut out, v[i].clone());
        i = i + 1;
        proof {
            let pre = v.deep_view().subrange(0, i - 1);
            let cur = v.deep_view().subrange(0, i as int);
            assert(v.deep_view()[i - 1] == v@[i - 1]@);
            assert forall|t: Seq<char>| out.deep_view().contains(t) implies cur.contains(t) by {
                if pre.contains(t) {
                    let w = choose|w: int| 0 <= w < pre.len() && pre[w] == t;
                    assert(cur[w] == t);
                } else {
                    assert(cur[i - 1] == t);
                }
            }
            assert forall|t: Seq<char>| cur.contains(t) implies out.deep_view().contains(t) by {
                let w = choose|w: int| 0 <= w < cur.len() && cur[w] == t;
                if w < i - 1 {
                    assert(pre[w] == t);
                }
            }
        }
    }
    proof {
        assert(v.deep_view().subrange(0, v.deep_view().len() as int) =~= v.deep_view());
    }
    out
}

} // verus!
