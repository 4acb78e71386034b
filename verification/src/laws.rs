//! The laws of the engine, stated and proved in one place: what holds of
//! extraction, of the store across inserts and rebuilds, of renames, of
//! query composition, and of the ghost set.

use vstd::prelude::*;
use crate::builder::{rebuild_rows, rebuild_skipped};
use crate::database::{
    contains_title, has_link_to, is_ghost_title, lemma_filter_unique, pattern_matches,
    retitle_row, unique_titles,
};
use crate::builder::NoteFileView;
use crate::extract::{collapse_from, collapse_ws, is_ws_char, links_from};
use crate::zettel::ZettelView;

verus! {

/// Every whitespace character of a collapsed text is a plain space.
pub open spec fn ws_normal(t: Seq<char>) -> bool {
    forall|k: int| 0 <= k < t.len() && is_ws_char(#[trigger] t[k]) ==> t[k] == ' '
}

/// A collapsed text has no two adjacent whitespace characters.
pub open spec fn no_ws_run(t: Seq<char>) -> bool {
    forall|k: int| 0 <= k < t.len() - 1 ==> !(is_ws_char(#[trigger] t[k]) && is_ws_char(t[k + 1]))
}

/// The shape of collapsed text: normal whitespace, no runs, and the
/// first character preserved (whitespace becoming a space).
proof fn lemma_collapse_shape(s: Seq<char>, i: int)
    requires
        0 <= i <= s.len(),
    ensures
        ws_normal(collapse_from(s, i)),
        no_ws_run(collapse_from(s, i)),
        (collapse_from(s, i).len() > 0) == (i < s.len()),
        i < s.len() && is_ws_char(s[i]) ==> collapse_from(s, i)[0] == ' ',
        i < s.len() && !is_ws_char(s[i]) ==> collapse_from(s, i)[0] == s[i],
    decreases s.len() - i,
{
    if i >= s.len() {
    } else {
        lemma_collapse_shape(s, i + 1);
        let rest = collapse_from(s, i + 1);
        if is_ws_char(s[i]) && i + 1 < s.len() && is_ws_char(s[i + 1]) {
            // the run continues: this position contributes nothing
        } else if is_ws_char(s[i]) {
            let whole = seq![' '] + rest;
            assert forall|k: int|
                0 <= k < whole.len() - 1 implies !(is_ws_char(#[trigger] whole[k]) && is_ws_char(
                whole[k + 1],
            )) by {
                if k == 0 {
                    if i + 1 < s.len() {
                        assert(whole[1] == rest[0]);
                        assert(!is_ws_char(s[i + 1]));
                        assert(rest[0] == s[i + 1]);
                    }
                } else {
                    assert(whole[k] == rest[k - 1]);
                    assert(whole[k + 1] == rest[k]);
                }
            }
            assert forall|k: int|
                0 <= k < whole.len() && is_ws_char(#[trigger] whole[k]) implies whole[k] == ' ' by {
                if k > 0 {
                    assert(whole[k] == rest[k - 1]);
                }
            }
        } else {
            let whole = seq![s[i]] + rest;
            assert forall|k: int|
                0 <= k < whole.len() - 1 implies !(is_ws_char(#[trigger] whole[k]) && is_ws_char(
                whole[k + 1],
            )) by {
                if k == 0 {
                    assert(!is_ws_char(whole[0]));
                } else {
                    assert(whole[k] == rest[k - 1]);
                    assert(whole[k + 1] == rest[k]);
                }
            }
            assert forall|k: int|
                0 <= k < whole.len() && is_ws_char(#[trigger] whole[k]) implies whole[k] == ' ' by {
                if k > 0 {
                    assert(whole[k] == rest[k - 1]);
                }
            }
        }
    }
}

/// Text already in collapsed shape collapses to itself.
proof fn lemma_collapse_fixed_from(t: Seq<char>, i: int)
    requires
        0 <= i <= t.len(),
        ws_normal(t),
        no_ws_run(t),
    ensures
        collapse_from(t, i) == t.subrange(i, t.len() as int),
    decreases t.len() - i,
{
    if i >= t.len() {
        assert(collapse_from(t, i) =~= t.subrange(i, t.len() as int));
    } else {
        lemma_collapse_fixed_from(t, i + 1);
        if is_ws_char(t[i]) {
            assert(!(i + 1 < t.len() && is_ws_char(t[i + 1])));
            assert(t[i] == ' ');
            assert(seq![' '] + collapse_from(t, i + 1) =~= t.subrange(i, t.len() as int));
        } else {
            assert(seq![t[i]] + collapse_from(t, i + 1) =~= t.subrange(i, t.len() as int));
        }
    }
}

/// Collapsing whitespace is idempotent: a second pass changes nothing.
/// This is the sense in which extraction is stable under repetition —
/// normalization happens once.
pub proof fn lemma_collapse_ws_idempotent(s: Seq<char>)
    ensures
        collapse_ws(collapse_ws(s)) == collapse_ws(s),
{
    lemma_collapse_shape(s, 0);
    lemma_collapse_fixed_from(collapse_ws(s), 0);
    assert(collapse_ws(s).subrange(0, collapse_ws(s).len() as int) =~= collapse_ws(s));
}

/// Every link target the extractor reads is already normalized:
/// extracting a target out of well-formed text a second time yields the
/// same title.
pub proof fn lemma_extracted_links_normalized(s: Seq<char>, i: int)
    requires
        0 <= i,
    ensures
        forall|w: int|
            0 <= w < links_from(s, i).len() ==> collapse_ws(#[trigger] links_from(s, i)[w])
                == links_from(s, i)[w],
    decreases s.len() - i,
{
    if i + 1 >= s.len() {
        assert(links_from(s, i) =~= Seq::<Seq<char>>::empty());
    } else if crate::extract::is_open_at(s, i) && crate::extract::find_close(s, i + 2) < s.len() {
        crate::extract::lemma_find_close_bounds(s, i + 2);
        let j = crate::extract::find_close(s, i + 2);
        lemma_extracted_links_normalized(s, j + 2);
        lemma_collapse_ws_idempotent(s.subrange(i + 2, j));
        assert forall|w: int|
            0 <= w < links_from(s, i).len() implies collapse_ws(#[trigger] links_from(s, i)[w])
            == links_from(s, i)[w] by {
            if w == 0 {
                assert(links_from(s, i)[0] == collapse_ws(s.subrange(i + 2, j)));
            } else {
                assert(links_from(s, i)[w] == links_from(s, j + 2)[w - 1]);
            }
        }
    } else {
        lemma_extracted_links_normalized(s, i + 1);
        assert(links_from(s, i) == links_from(s, i + 1));
    }
}

/// Rendering a title as a wiki-link and extracting again yields exactly
/// that title: for text that only holds well-formed markers, extraction
/// reads back what was written.
pub proof fn lemma_link_render_round_trip(t: Seq<char>)
    requires
        crate::rename::link_target_ok(t),
    ensures
        links_from(seq!['[', '['] + t + seq![']', ']'], 0) == seq![t],
{
    let u = seq!['[', '['] + t + seq![']', ']'];
    assert(u.len() == t.len() + 4);
    assert forall|k: int| 2 <= k < 2 + t.len() as int implies !crate::extract::is_close_at(
        u,
        k,
    ) by {
        assert(u[k] == t[k - 2]);
    }
    assert(u[2 + t.len() as int] == ']');
    assert(u[2 + t.len() as int + 1] == ']');
    assert(crate::extract::is_close_at(u, 2 + t.len() as int));
    crate::rename::lemma_find_close_exact(u, 2, 2 + t.len() as int);
    assert(u[0] == '[');
    assert(u[1] == '[');
    assert(crate::extract::is_open_at(u, 0));
    assert(links_from(u, 0) == seq![collapse_ws(u.subrange(2, 2 + t.len() as int))] + links_from(
        u,
        2 + t.len() as int + 2,
    ));
    assert(u.subrange(2, 2 + t.len() as int) =~= t);
    assert(links_from(u, 2 + t.len() as int + 2) =~= Seq::<Seq<char>>::empty());
    assert(links_from(u, 0) =~= seq![t]);
}

/// Nothing survives a filter that nothing satisfies.
pub proof fn lemma_filter_none<A>(s: Seq<A>, pred: spec_fn(A) -> bool)
    requires
        forall|k: int| 0 <= k < s.len() ==> !pred(#[trigger] s[k]),
    ensures
        s.filter(pred) == Seq::<A>::empty(),
    decreases s.len(),
{
    reveal(Seq::filter);
    if s.len() > 0 {
        lemma_filter_none(s.drop_last(), pred);
    }
}

/// Round trip: after inserting a note whose title is free, an exact
/// title lookup returns exactly that note.
pub proof fn lemma_insert_find_round_trip(rows: Seq<ZettelView>, zv: ZettelView)
    requires
        !contains_title(rows, zv.title),
    ensures
        rows.push(zv).filter(|r: ZettelView| pattern_matches(zv.title, r.title, true)) == seq![zv],
{
    reveal(Seq::filter);
    let pred = |r: ZettelView| pattern_matches(zv.title, r.title, true);
    let pushed = rows.push(zv);
    assert(pushed.drop_last() =~= rows);
    assert(pred(zv));
    assert forall|k: int| 0 <= k < rows.len() implies !pred(#[trigger] rows[k]) by {
        if rows[k].title == zv.title {
            assert(contains_title(rows, zv.title));
        }
    }
    lemma_filter_none(rows, pred);
    assert(pushed.filter(pred) =~= seq![zv]);
}

/// Uniqueness: under the store invariant at most one row carries any
/// given title, so an exact lookup never returns two rows.
pub proof fn lemma_at_most_one_row(rows: Seq<ZettelView>, t: Seq<char>)
    requires
        unique_titles(rows),
    ensures
        rows.filter(|r: ZettelView| pattern_matches(t, r.title, true)).len() <= 1,
{
    broadcast use vstd::seq_lib::group_filter_ensures;

    let pred = |r: ZettelView| pattern_matches(t, r.title, true);
    let out = rows.filter(pred);
    if out.len() >= 2 {
        lemma_filter_unique(rows, pred, 0, 1);
        assert(pred(out[0]));
        assert(pred(out[1]));
        assert(out[0].title == t && out[1].title == t);
    }
}

/// Rebuild determinism: the rows and the skip list a rebuild produces
/// are functions of the file tree alone, so rebuilding an unchanged
/// tree twice yields equal index contents.
pub proof fn lemma_rebuild_deterministic(
    root: Seq<char>,
    fs1: Seq<NoteFileView>,
    fs2: Seq<NoteFileView>,
)
    requires
        fs1 == fs2,
    ensures
        rebuild_rows(root, fs1, fs1.len() as int) == rebuild_rows(root, fs2, fs2.len() as int),
        rebuild_skipped(root, fs1, fs1.len() as int) == rebuild_skipped(
            root,
            fs2,
            fs2.len() as int,
        ),
{
}

/// Rename keeps referential integrity at the store: after patching the
/// title in place, the old title names no row, the new title names the
/// row that carried the old one — with its links, tags and project
/// untouched — and every other row is exactly as it was.
pub proof fn lemma_rename_store(rows: Seq<ZettelView>, old_t: Seq<char>, new_t: Seq<char>)
    requires
        unique_titles(rows),
        contains_title(rows, old_t),
        !contains_title(rows, new_t),
        old_t != new_t,
    ensures
        ({
            let out = rows.map_values(|zv: ZettelView| retitle_row(zv, old_t, new_t));
            &&& !contains_title(out, old_t)
            &&& contains_title(out, new_t)
            &&& exists|k: int|
                0 <= k < rows.len() && #[trigger] rows[k].title == old_t && out[k] == ZettelView {
                    title: new_t,
                    ..rows[k]
                }
            &&& forall|k: int|
                0 <= k < rows.len() && #[trigger] rows[k].title != old_t ==> out[k] == rows[k]
        }),
{
    let out = rows.map_values(|zv: ZettelView| retitle_row(zv, old_t, new_t));
    let w = choose|w: int| 0 <= w < rows.len() && #[trigger] rows[w].title == old_t;
    assert(out[w] == ZettelView { title: new_t, ..rows[w] });
    assert(out[w].title == new_t);
    assert(contains_title(out, new_t));
    if contains_title(out, old_t) {
        let u = choose|u: int| 0 <= u < out.len() && #[trigger] out[u].title == old_t;
        assert(out[u] == retitle_row(rows[u], old_t, new_t));
        assert(rows[u].title == old_t);
        assert(out[u].title == new_t);
    }
}

/// Rename keeps referential integrity at the files: when a rewritten
/// note is re-extracted and its row refreshed, the fresh row's links
/// are the old links with the renamed title substituted — in
/// particular, none of them is the old title any more. Its title and
/// project, which come from the path, are untouched.
pub proof fn lemma_refresh_after_rewrite(
    root: Seq<char>,
    path: Seq<char>,
    content: Seq<char>,
    old_t: Seq<char>,
    new_t: Seq<char>,
)
    requires
        crate::rename::link_target_ok(new_t),
        old_t != new_t,
    ensures
        ({
            let before = crate::builder::spec_zettel_from(root, path, content);
            let after = crate::builder::spec_zettel_from(
                root,
                path,
                crate::rename::spec_rewrite(content, old_t, new_t),
            );
            &&& after.links == before.links.map_values(
                |l: Seq<char>| crate::rename::subst_title(l, old_t, new_t),
            )
            &&& !after.links.contains(old_t)
            &&& after.title == before.title
            &&& after.project == before.project
        }),
{
    crate::rename::lemma_rewrite_repairs_backlinks(content, old_t, new_t);
}

/// Query conjunction: filtering by one predicate and then another is
/// filtering by their conjunction; and a note is in the conjunction's
/// result exactly when it is in both single results — set intersection,
/// in either order.
pub proof fn lemma_query_conjunction(
    zs: Seq<ZettelView>,
    p: spec_fn(ZettelView) -> bool,
    q: spec_fn(ZettelView) -> bool,
    pq: spec_fn(ZettelView) -> bool,
)
    requires
        forall|zv: ZettelView| #[trigger] pq(zv) == (p(zv) && q(zv)),
    ensures
        zs.filter(p).filter(q) == zs.filter(pq),
        zs.filter(q).filter(p) == zs.filter(pq),
        forall|x: ZettelView|
            #[trigger] zs.filter(pq).contains(x) <==> (zs.filter(p).contains(x) && zs.filter(
                q,
            ).contains(x)),
{
    lemma_filter_filter(zs, p, q, pq);
    lemma_filter_filter(zs, q, p, pq);
    broadcast use vstd::seq_lib::group_filter_ensures;

    assert forall|x: ZettelView|
        #[trigger] zs.filter(pq).contains(x) <==> (zs.filter(p).contains(x) && zs.filter(
            q,
        ).contains(x)) by {
        if zs.filter(pq).contains(x) {
            let w = choose|w: int| 0 <= w < zs.filter(pq).len() && #[trigger] zs.filter(pq)[w] == x;
            crate::database::lemma_filter_elem(zs, pq, w);
            assert(pq(x));
            let u = choose|u: int| 0 <= u < zs.len() && #[trigger] zs[u] == x;
            assert(zs.filter(p).contains(zs[u]));
            assert(zs.filter(q).contains(zs[u]));
        }
        if zs.filter(p).contains(x) && zs.filter(q).contains(x) {
            let w = choose|w: int| 0 <= w < zs.filter(p).len() && #[trigger] zs.filter(p)[w] == x;
            crate::database::lemma_filter_elem(zs, p, w);
            assert(p(x));
            let w2 = choose|w2: int|
                0 <= w2 < zs.filter(q).len() && #[trigger] zs.filter(q)[w2] == x;
            crate::database::lemma_filter_elem(zs, q, w2);
            assert(q(x));
            let u = choose|u: int| 0 <= u < zs.len() && #[trigger] zs[u] == x;
            assert(pq(zs[u]));
            assert(zs.filter(pq).contains(zs[u]));
        }
    }
}

proof fn lemma_filter_filter(
    zs: Seq<ZettelView>,
    p: spec_fn(ZettelView) -> bool,
    q: spec_fn(ZettelView) -> bool,
    pq: spec_fn(ZettelView) -> bool,
)
    requires
        forall|zv: ZettelView| #[trigger] pq(zv) == (p(zv) && q(zv)),
    ensures
        zs.filter(p).filter(q) == zs.filter(pq),
    decreases zs.len(),
{
    reveal(Seq::filter);
    if zs.len() == 0 {
        assert(zs.filter(p).filter(q) =~= zs.filter(pq));
    } else {
        let prefix = zs.drop_last();
        let e = zs.last();
        lemma_filter_filter(prefix, p, q, pq);
        assert(pq(e) == (p(e) && q(e)));
        if p(e) {
            assert(zs.filter(p) == prefix.filter(p).push(e));
            assert(zs.filter(p).drop_last() =~= prefix.filter(p));
            assert(zs.filter(p).last() == e);
        } else {
            assert(zs.filter(p) == prefix.filter(p));
        }
    }
}

/// The titles that appear as some row's link target.
pub open spec fn all_link_targets(rows: Seq<ZettelView>) -> Set<Seq<char>> {
    Set::new(|t: Seq<char>| has_link_to(rows, t))
}

/// The titles the rows themselves carry.
pub open spec fn all_titles(rows: Seq<ZettelView>) -> Set<Seq<char>> {
    Set::new(|t: Seq<char>| contains_title(rows, t))
}

/// The ghost titles.
pub open spec fn ghost_titles(rows: Seq<ZettelView>) -> Set<Seq<char>> {
    Set::new(|t: Seq<char>| is_ghost_title(rows, t))
}

/// Ghost correctness: the ghosts are exactly the link targets minus the
/// existing titles.
pub proof fn lemma_ghosts_are_difference(rows: Seq<ZettelView>)
    ensures
        ghost_titles(rows) == all_link_targets(rows).difference(all_titles(rows)),
{
    assert(ghost_titles(rows) =~= all_link_targets(rows).difference(all_titles(rows)));
}

} // verus!
