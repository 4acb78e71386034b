//! Consistency operations: renaming a note and repairing the wiki-links
//! that point at it inside other notes' text.
//!
//! The rewriting scans text exactly as the extractor does, so what the
//! extractor reads out of a rewritten note is the old reading with the
//! renamed target substituted — proved below.

use vstd::prelude::*;
use crate::database::{contains_title, Database};
use crate::errors::EngineError;
use crate::extract::{
    collapse_chars, collapse_ws, find_close, is_close_at, is_open_at, lemma_find_close_bounds,
    links_from,
};
use crate::strutil::{chars_of, string_from_chars, subvec};
use crate::zettel::Zettel;

verus! {

/// A title that can stand inside `[[ ... ]]` and be read back unchanged:
/// free of brackets, non-empty, and already whitespace-collapsed.
pub open spec fn link_target_ok(t: Seq<char>) -> bool {
    &&& t.len() > 0
    &&& collapse_ws(t) == t
    &&& forall|k: int| 0 <= k < t.len() ==> t[k] != '[' && t[k] != ']'
}

/// The substitution a rename applies to a list of link targets.
pub open spec fn subst_title(l: Seq<char>, old_t: Seq<char>, new_t: Seq<char>) -> Seq<char> {
    if l == old_t {
        new_t
    } else {
        l
    }
}

/// `s` from position `i` on, with every wiki-link whose collapsed target
/// is `old_t` re-pointed at `new_t`; everything else is copied as it
/// stands.
pub open spec fn rewrite_from(s: Seq<char>, i: int, old_t: Seq<char>, new_t: Seq<char>) -> Seq<char>
    decreases s.len() - i when 0 <= i
{
    if i >= s.len() {
        Seq::empty()
    } else if i + 1 >= s.len() {
        seq![s[i]]
    } else if is_open_at(s, i) && find_close(s, i + 2) < s.len() {
        proof {
            lemma_find_close_bounds(s, i + 2);
        }
        (seq!['[', '['] + (if collapse_ws(s.subrange(i + 2, find_close(s, i + 2))) == old_t {
            new_t
        } else {
            s.subrange(i + 2, find_close(s, i + 2))
        }) + seq![']', ']']) + rewrite_from(s, find_close(s, i + 2) + 2, old_t, new_t)
    } else {
        seq![s[i]] + rewrite_from(s, i + 1, old_t, new_t)
    }
}

/// The whole text, rewritten.
pub open spec fn spec_rewrite(s: Seq<char>, old_t: Seq<char>, new_t: Seq<char>) -> Seq<char> {
    rewrite_from(s, 0, old_t, new_t)
}

/// Replace every occurrence of `[[old_title]]` — however its internal
/// whitespace was written — with `[[new_title]]`.
pub fn rewrite_links(contents: &str, old_title: &String, new_title: &String) -> (r: String)
    ensures
        r@ == spec_rewrite(contents@, old_title@, new_title@),
{
    let cs = chars_of(contents);
    let new_cs = chars_of(new_title.as_str());
    let mut out: Vec<char> = Vec::new();
    let mut i: usize = 0;
    while i < cs.len()
        invariant
            i <= cs@.len(),
            new_cs@ == new_title@,
            out@ + rewrite_from(cs@, i as int, old_title@, new_title@) == rewrite_from(
                cs@,
                0,
                old_title@,
                new_title@,
            ),
        decreases cs@.len() - i,
    {
        let ghost i0 = i as int;
        let mut plain = true;
        if i + 1 < cs.len() && cs[i] == '[' && cs[i + 1] == '[' {
            let j = crate::extract::scan_close(&cs, i + 2);
            proof {
                lemma_find_close_bounds(cs@, i0 + 2);
            }
            if j < cs.len() {
                let inner = subvec(&cs, i + 2, j);
                let collapsed = collapse_chars(&inner);
                let olds = chars_of(old_title.as_str());
                out.push('[');
                out.push('[');
                if crate::strutil::chars_eq(&collapsed, &olds) {
                    crate::strutil::push_all_chars(&mut out, &new_cs);
                } else {
                    crate::strutil::push_all_chars(&mut out, &inner);
                }
                out.push(']');
                out.push(']');
                proof {
                    assert(out@ + rewrite_from(cs@, j + 2, old_title@, new_title@) =~= rewrite_from(
                        cs@,
                        0,
                        old_title@,
                        new_title@,
                    ));
                }
                i = j + 2;
                plain = false;
            }
        }
        if plain {
            out.push(cs[i]);
            proof {
                assert(out@ + rewrite_from(cs@, i0 + 1, old_title@, new_title@) =~= rewrite_from(
                    cs@,
                    0,
                    old_title@,
                    new_title@,
                ));
            }
            i = i + 1;
        }
    }
    proof {
        assert(out@ =~= rewrite_from(cs@, cs@.len() as int, old_title@, new_title@) + out@);
        assert(out@ =~= rewrite_from(cs@, 0, old_title@, new_title@));
    }
    string_from_chars(&out)
}

/// Positions shift under a prefix: the first close of the suffix is the
/// first close after the prefix.
proof fn lemma_find_close_shift(p: Seq<char>, s2: Seq<char>, m: int)
    requires
        0 <= m <= s2.len(),
    ensures
        find_close(p + s2, p.len() + m) == p.len() + find_close(s2, m),
    decreases s2.len() - m,
{
    let u = p + s2;
    if m + 1 >= s2.len() {
        assert(u.len() == p.len() + s2.len());
    } else if is_close_at(s2, m) {
        assert(u[p.len() + m] == s2[m]);
        assert(u[p.len() + m + 1] == s2[m + 1]);
        assert(is_close_at(u, p.len() + m));
    } else {
        assert(u[p.len() + m] == s2[m]);
        assert(u[p.len() + m + 1] == s2[m + 1]);
        assert(!is_close_at(u, p.len() + m));
        lemma_find_close_shift(p, s2, m + 1);
    }
}

/// Scanning for links is position-independent: reading a concatenation
/// from inside the suffix reads the suffix.
proof fn lemma_links_shift(p: Seq<char>, s2: Seq<char>, m: int)
    requires
        0 <= m <= s2.len(),
    ensures
        links_from(p + s2, p.len() + m) == links_from(s2, m),
    decreases s2.len() - m,
{
    let u = p + s2;
    if m + 1 >= s2.len() {
        assert(links_from(u, p.len() + m) =~= Seq::<Seq<char>>::empty());
    } else {
        assert(u[p.len() + m] == s2[m]);
        assert(u[p.len() + m + 1] == s2[m + 1]);
        assert(is_open_at(u, p.len() + m) == is_open_at(s2, m));
        if is_open_at(s2, m) {
            lemma_find_close_shift(p, s2, m + 2);
            let j = find_close(s2, m + 2);
            lemma_find_close_bounds(s2, m + 2);
            if j < s2.len() {
                assert(u.subrange(p.len() + m + 2, p.len() + j) =~= s2.subrange(m + 2, j));
                lemma_links_shift(p, s2, j + 2);
                assert(links_from(u, p.len() + m) == seq![
                    collapse_ws(u.subrange(p.len() + m + 2, p.len() + j)),
                ] + links_from(u, p.len() + j + 2));
            } else {
                lemma_links_shift(p, s2, m + 1);
            }
        } else {
            lemma_links_shift(p, s2, m + 1);
        }
    }
}

/// Where no closing `]]` remains, nothing is rewritten and nothing is
/// read: the text is copied as it stands and holds no links.
proof fn lemma_no_close(s: Seq<char>, i: int, old_t: Seq<char>, new_t: Seq<char>)
    requires
        0 <= i <= s.len(),
        forall|k: int| i <= k < s.len() ==> !is_close_at(s, k),
    ensures
        rewrite_from(s, i, old_t, new_t) == s.subrange(i, s.len() as int),
        links_from(s, i) == Seq::<Seq<char>>::empty(),
    decreases s.len() - i,
{
    if i >= s.len() {
        assert(rewrite_from(s, i, old_t, new_t) =~= s.subrange(i, s.len() as int));
        assert(links_from(s, i) =~= Seq::<Seq<char>>::empty());
    } else if i + 1 >= s.len() {
        assert(rewrite_from(s, i, old_t, new_t) =~= s.subrange(i, s.len() as int));
        assert(links_from(s, i) =~= Seq::<Seq<char>>::empty());
    } else {
        lemma_find_close_bounds(s, i + 2);
        if is_open_at(s, i) && find_close(s, i + 2) < s.len() {
            assert(is_close_at(s, find_close(s, i + 2)));
            assert(false);
        }
        lemma_no_close(s, i + 1, old_t, new_t);
        assert(rewrite_from(s, i, old_t, new_t) =~= s.subrange(i, s.len() as int));
    }
}

/// A close found exactly: nothing closes before `j`, and `j` closes.
pub proof fn lemma_find_close_exact(u: Seq<char>, start: int, j: int)
    requires
        0 <= start <= j,
        is_close_at(u, j),
        forall|k: int| start <= k < j ==> !is_close_at(u, k),
    ensures
        find_close(u, start) == j,
    decreases j - start,
{
    if start == j {
    } else {
        lemma_find_close_exact(u, start + 1, j);
    }
}

/// The rewritten text never loses its first character.
proof fn lemma_rewrite_first(s: Seq<char>, i: int, old_t: Seq<char>, new_t: Seq<char>)
    requires
        0 <= i < s.len(),
    ensures
        rewrite_from(s, i, old_t, new_t).len() >= 1,
        rewrite_from(s, i, old_t, new_t)[0] == s[i],
{
    if i + 1 >= s.len() {
    } else if is_open_at(s, i) && find_close(s, i + 2) < s.len() {
        assert(s[i] == '[');
    } else {
    }
}

/// Rewriting commutes with extraction: the links read out of the
/// rewritten text are the links of the original text, with `old_t`
/// substituted by `new_t`. This is what makes the backlink repair of a
/// rename exhaustive: after the rewrite, a note's recorded links carry
/// the new title wherever they carried the old one.
pub proof fn lemma_rewrite_preserves_links(
    s: Seq<char>,
    i: int,
    old_t: Seq<char>,
    new_t: Seq<char>,
)
    requires
        0 <= i <= s.len(),
        link_target_ok(new_t),
    ensures
        links_from(rewrite_from(s, i, old_t, new_t), 0) == links_from(s, i).map_values(
            |l: Seq<char>| subst_title(l, old_t, new_t),
        ),
    decreases s.len() - i,
{
    let f = |l: Seq<char>| subst_title(l, old_t, new_t);
    let out = rewrite_from(s, i, old_t, new_t);
    if i + 1 >= s.len() {
        // at most one character: no link on either side
        assert(out.len() <= 1);
        assert(links_from(out, 0) =~= Seq::<Seq<char>>::empty());
        assert(links_from(s, i) =~= Seq::<Seq<char>>::empty());
        assert(links_from(s, i).map_values(f) =~= Seq::<Seq<char>>::empty());
    } else if is_open_at(s, i) && find_close(s, i + 2) < s.len() {
        lemma_find_close_bounds(s, i + 2);
        let j = find_close(s, i + 2);
        let inner = s.subrange(i + 2, j);
        let matched = collapse_ws(inner) == old_t;
        let rep = if matched {
            new_t
        } else {
            inner
        };
        let block = seq!['[', '['] + rep + seq![']', ']'];
        let rest = rewrite_from(s, j + 2, old_t, new_t);
        assert(out == block + rest);
        // the block's interior holds no close, so its own `]]` is the first
        assert forall|x: int| 2 <= x < 2 + rep.len() as int implies !is_close_at(block + rest, x) by {
            let u = block + rest;
            assert(u[x] == rep[x - 2]);
            if x < 2 + rep.len() as int - 1 {
                assert(u[x + 1] == rep[x - 1]);
                if matched {
                } else {
                    assert(rep[x - 2] == s[i + 2 + (x - 2)]);
                    assert(rep[x - 1] == s[i + 2 + (x - 1)]);
                    assert(!is_close_at(s, i + x));
                }
            } else {
                // boundary: the last character of the target, then `]`
                if matched {
                } else {
                    assert(rep[x - 2] == s[j - 1]);
                    if s[j - 1] == ']' {
                        assert(is_close_at(s, j - 1));
                        assert(!is_close_at(s, j - 1));
                    }
                }
            }
        }
        let u = block + rest;
        assert(u[2 + rep.len() as int] == ']');
        assert(u[2 + rep.len() as int + 1] == ']');
        assert(is_close_at(u, 2 + rep.len() as int));
        lemma_find_close_exact(u, 2, 2 + rep.len() as int);
        assert(u[0] == '[');
        assert(u[1] == '[');
        assert(is_open_at(u, 0));
        assert(links_from(u, 0) == seq![collapse_ws(u.subrange(2, 2 + rep.len() as int))] + links_from(
            u,
            2 + rep.len() as int + 2,
        ));
        assert(u.subrange(2, 2 + rep.len() as int) =~= rep);
        // the rewritten target reads back as the substituted link
        if matched {
            assert(collapse_ws(rep) == new_t);
            assert(collapse_ws(rep) == f(collapse_ws(inner)));
        } else {
            assert(collapse_ws(rep) == f(collapse_ws(inner)));
        }
        // past the block, scanning continues in the rewritten remainder
        assert(block.len() == 2 + rep.len() as int + 2);
        lemma_links_shift(block, rest, 0);
        assert(links_from(u, block.len() as int) == links_from(rest, 0));
        lemma_rewrite_preserves_links(s, j + 2, old_t, new_t);
        assert(links_from(s, i) == seq![collapse_ws(inner)] + links_from(s, j + 2));
        assert(links_from(out, 0) =~= links_from(s, i).map_values(f)) by {
            assert(links_from(out, 0) == seq![f(collapse_ws(inner))] + links_from(
                s,
                j + 2,
            ).map_values(f));
        }
    } else {
        let rest = rewrite_from(s, i + 1, old_t, new_t);
        assert(out == seq![s[i]] + rest);
        lemma_rewrite_first(s, i + 1, old_t, new_t);
        assert(out[0] == s[i]);
        assert(out[1] == rest[0]);
        assert(out[1] == s[i + 1]);
        if is_open_at(s, i) {
            // an opening without a close: nothing is read from here on
            lemma_find_close_bounds(s, i + 2);
            assert(find_close(s, i + 2) == s.len());
            assert forall|k: int| i + 1 <= k < s.len() implies !is_close_at(s, k) by {
                if k == i + 1 {
                    assert(s[i + 1] == '[');
                }
            }
            lemma_no_close(s, i + 1, old_t, new_t);
            assert(out =~= s.subrange(i, s.len() as int));
            assert forall|k: int| 0 <= k < out.len() implies !is_close_at(out, k) by {
                assert(out[k] == s[i + k]);
                if k + 1 < out.len() {
                    assert(out[k + 1] == s[i + k + 1]);
                    if k == 0 {
                        assert(s[i] == '[');
                    } else {
                        assert(!is_close_at(s, i + k));
                    }
                }
            }
            lemma_no_close(out, 0, old_t, new_t);
            assert(links_from(s, i) == links_from(s, i + 1));
            assert(links_from(s, i).map_values(f) =~= Seq::<Seq<char>>::empty());
        } else {
            assert(!is_open_at(out, 0));
            assert(links_from(out, 0) == links_from(out, 1));
            lemma_links_shift(seq![s[i]], rest, 0);
            assert(links_from(out, 1) == links_from(rest, 0));
            lemma_rewrite_preserves_links(s, i + 1, old_t, new_t);
            assert(links_from(s, i) == links_from(s, i + 1));
        }
    }
}

/// After a rename's rewrite, no link points at the old title any more
/// (the titles being distinct), and every link to the old title now
/// points at the new one; all other links are untouched.
pub proof fn lemma_rewrite_repairs_backlinks(s: Seq<char>, old_t: Seq<char>, new_t: Seq<char>)
    requires
        link_target_ok(new_t),
        old_t != new_t,
    ensures
        !links_from(spec_rewrite(s, old_t, new_t), 0).contains(old_t),
        links_from(spec_rewrite(s, old_t, new_t), 0) == links_from(s, 0).map_values(
            |l: Seq<char>| subst_title(l, old_t, new_t),
        ),
{
    lemma_rewrite_preserves_links(s, 0, old_t, new_t);
    let f = |l: Seq<char>| subst_title(l, old_t, new_t);
    let mapped = links_from(s, 0).map_values(f);
    if mapped.contains(old_t) {
        let w = choose|w: int| 0 <= w < mapped.len() && mapped[w] == old_t;
        assert(f(links_from(s, 0)[w]) == old_t);
    }
}

/// What must hold before a rename may touch anything: the old title
/// names an existing note, the new title is free, and the two differ.
pub fn check_rename(db: &Database, old_title: &String, new_title: &String) -> (r: Result<
    Zettel,
    EngineError,
>)
    requires
        db.wf(),
    ensures
        r is Ok <==> (old_title@ != new_title@ && contains_title(db@, old_title@)
            && !contains_title(db@, new_title@)),
        r matches Ok(z) ==> z@.title == old_title@ && db@.contains(z@),
        (old_title@ == new_title@ || (old_title@ != new_title@ && contains_title(
            db@,
            new_title@,
        ))) ==> r == Err::<Zettel, EngineError>(EngineError::DuplicateTitle),
        (old_title@ != new_title@ && !contains_title(db@, new_title@) && !contains_title(
            db@,
            old_title@,
        )) ==> r == Err::<Zettel, EngineError>(EngineError::NotFound),
{
    if *old_title == *new_title {
        return Err(EngineError::DuplicateTitle);
    }
    if db.has_title(new_title) {
        return Err(EngineError::DuplicateTitle);
    }
    let found = db.find_by_title(old_title, true);
    if found.len() == 0 {
        proof {
            broadcast use vstd::seq_lib::group_filter_ensures;

            let pred = |zv: crate::zettel::ZettelView| crate::database::pattern_matches(
                old_title@,
                zv.title,
                true,
            );
            if contains_title(db@, old_title@) {
                let w = choose|w: int|
                    0 <= w < db@.len() && #[trigger] db@[w].title == old_title@;
                assert(pred(db@[w]));
                assert(db@.filter(pred).contains(db@[w]));
                assert(found.deep_view().len() > 0);
            }
        }
        return Err(EngineError::NotFound);
    }
    let z = found[0].duplicate();
    proof {
        broadcast use vstd::seq_lib::group_filter_ensures;

        let pred = |zv: crate::zettel::ZettelView| crate::database::pattern_matches(
            old_title@,
            zv.title,
            true,
        );
        assert(found.deep_view()[0] == found@[0]@);
        assert(pred(db@.filter(pred)[0]));
        crate::database::lemma_filter_elem(db@, pred, 0);
        let u = choose|u: int| 0 <= u < db@.len() && #[trigger] db@[u] == db@.filter(pred)[0];
        assert(db@[u].title == old_title@);
        assert(contains_title(db@, old_title@));
    }
    Ok(z)
}

} // verus!
