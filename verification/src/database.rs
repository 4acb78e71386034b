//! The index store: one row of metadata per note, with title uniqueness
//! enforced on insert.
//!
//! The store is an in-memory value; the surrounding application loads it
//! from and saves it to the persistent index file. Every operation here is
//! specified against the sequence of row views.

use vstd::prelude::*;
use crate::errors::EngineError;
use crate::order::{sort_dedup_strings, strictly_sorted};
use crate::patterns::{glob_match, glob_matches};
use crate::strutil::push_string;
use crate::zettel::{push_zettel, Zettel, ZettelView};

verus! {

/// A row sequence holds a row with the given title.
pub open spec fn contains_title(rows: Seq<ZettelView>, title: Seq<char>) -> bool {
    exists|k: int| 0 <= k < rows.len() && #[trigger] rows[k].title == title
}

/// No two rows share a title.
pub open spec fn unique_titles(rows: Seq<ZettelView>) -> bool {
    forall|a: int, b: int|
        0 <= a < b < rows.len() ==> #[trigger] rows[a].title != #[trigger] rows[b].title
}

/// How a store lookup pattern matches a field: byte-for-byte when
/// `exact`, else as a restricted glob where `*` matches any run of
/// characters.
pub open spec fn pattern_matches(pattern: Seq<char>, field: Seq<char>, exact: bool) -> bool {
    if exact {
        pattern == field
    } else {
        glob_match(pattern, field)
    }
}

/// Some element of `field` (a multi-valued column) matches the pattern.
pub open spec fn any_matches(pattern: Seq<char>, field: Seq<Seq<char>>, exact: bool) -> bool {
    exists|m: int| 0 <= m < field.len() && pattern_matches(pattern, #[trigger] field[m], exact)
}

/// Some row carries the given tag.
pub open spec fn has_tag(rows: Seq<ZettelView>, tag: Seq<char>) -> bool {
    exists|k: int| 0 <= k < rows.len() && (#[trigger] rows[k].tags).contains(tag)
}

/// Some row names the given project.
pub open spec fn has_project(rows: Seq<ZettelView>, project: Seq<char>) -> bool {
    exists|k: int| 0 <= k < rows.len() && #[trigger] rows[k].project == project
}

/// Some row links to the given title.
pub open spec fn has_link_to(rows: Seq<ZettelView>, title: Seq<char>) -> bool {
    exists|k: int| 0 <= k < rows.len() && (#[trigger] rows[k].links).contains(title)
}

/// A ghost: a title that some row links to while no row carries it.
pub open spec fn is_ghost_title(rows: Seq<ZettelView>, title: Seq<char>) -> bool {
    has_link_to(rows, title) && !contains_title(rows, title)
}

/// The row with its title replaced when it is the one being renamed.
pub open spec fn retitle_row(zv: ZettelView, old_title: Seq<char>, new_title: Seq<char>) -> ZettelView {
    if zv.title == old_title {
        ZettelView { title: new_title, ..zv }
    } else {
        zv
    }
}

/// The row with its project replaced when its title is the given one.
pub open spec fn reproject_row(zv: ZettelView, title: Seq<char>, new_project: Seq<char>) -> ZettelView {
    if zv.title == title {
        ZettelView { project: new_project, ..zv }
    } else {
        zv
    }
}

/// The index store: a sequence of note rows whose titles are unique.
pub struct Database {
    rows: Vec<Zettel>,
}

impl View for Database {
    type V = Seq<ZettelView>;

    closed spec fn view(&self) -> Seq<ZettelView> {
        self.rows.deep_view()
    }
}

impl Database {
    /// The store's invariant: at most one row per title.
    pub open spec fn wf(&self) -> bool {
        unique_titles(self@)
    }

    /// An empty store.
    pub fn new() -> (r: Database)
        ensures
            r@ == Seq::<ZettelView>::empty(),
            r.wf(),
    {
        let r = Database { rows: Vec::new() };
        proof {
            assert(r@ =~= Seq::<ZettelView>::empty());
        }
        r
    }

    /// Whether a row with this title exists.
    pub fn has_title(&self, title: &String) -> (r: bool)
        ensures
            r == contains_title(self@, title@),
    {
        let mut k: usize = 0;
        while k < self.rows.len()
            invariant
                k <= self.rows@.len(),
                self@.len() == self.rows@.len(),
                forall|m: int| 0 <= m < k ==> #[trigger] self@[m].title != title@,
            decreases self.rows@.len() - k,
        {
            proof {
                assert(self@[k as int] == self.rows@[k as int]@);
            }
            if self.rows[k].title == *title {
                proof {
                    assert(self@[k as int].title == title@);
                }
                return true;
            }
            k = k + 1;
        }
        false
    }

    /// Save a note's metadata as a new row. Fails with `DuplicateTitle`,
    /// leaving the store unchanged, exactly when a row with the same
    /// title is already present.
    pub fn save(&mut self, zettel: &Zettel) -> (r: Result<(), EngineError>)
        requires
            old(self).wf(),
        ensures
            final(self).wf(),
            r is Ok <==> !contains_title(old(self)@, zettel@.title),
            r is Ok ==> final(self)@ == old(self)@.push(zettel@),
            r is Err ==> final(self)@ == old(self)@ && r == Err::<(), EngineError>(
                EngineError::DuplicateTitle,
            ),
    {
        if self.has_title(&zettel.title) {
            Err(EngineError::DuplicateTitle)
        } else {
            push_zettel(&mut self.rows, zettel.duplicate());
            proof {
                let rows = self@;
                assert forall|a: int, b: int| 0 <= a < b < rows.len() implies #[trigger] rows[a].title
                    != #[trigger] rows[b].title by {
                    if b == rows.len() - 1 {
                        assert(!contains_title(old(self)@, rows[b].title));
                    }
                }
            }
            Ok(())
        }
    }

    /// Delete the row carrying this note's title; absence is not an
    /// error and leaves the store as it was.
    pub fn delete(&mut self, zettel: &Zettel)
        ensures
            final(self)@ == old(self)@.filter(|zv: ZettelView| zv.title != zettel@.title),
            old(self).wf() ==> final(self).wf(),
    {
        let mut kept: Vec<Zettel> = Vec::new();
        let mut k: usize = 0;
        proof {
            reveal(Seq::filter);
            assert(old(self)@.subrange(0, 0).filter(|zv: ZettelView| zv.title != zettel@.title)
                =~= Seq::<ZettelView>::empty());
        }
        while k < self.rows.len()
            invariant
                k <= self.rows@.len(),
                self@ == old(self)@,
                self@.len() == self.rows@.len(),
                kept.deep_view() == old(self)@.subrange(0, k as int).filter(
                    |zv: ZettelView| zv.title != zettel@.title,
                ),
            decreases self.rows@.len() - k,
        {
            let ghost pred = |zv: ZettelView| zv.title != zettel@.title;
            let ghost pre = old(self)@.subrange(0, k as int);
            let ghost cur = old(self)@.subrange(0, k as int + 1);
            proof {
                assert(self@[k as int] == self.rows@[k as int]@);
                reveal(Seq::filter);
                assert(cur.drop_last() =~= pre);
                assert(cur.last() == old(self)@[k as int]);
                assert(cur.filter(pred) == if pred(cur.last()) {
                    pre.filter(pred).push(cur.last())
                } else {
                    pre.filter(pred)
                });
            }
            let same = self.rows[k].title == zettel.title;
            if !same {
                proof {
                    assert(pred(cur.last()));
                }
                push_zettel(&mut kept, self.rows[k].duplicate());
                proof {
                    assert(kept.deep_view() == pre.filter(pred).push(cur.last()));
                }
            } else {
                proof {
                    assert(!pred(cur.last()));
                }
            }
            k = k + 1;
            proof {
                assert(kept.deep_view() == old(self)@.subrange(0, k as int).filter(pred));
            }
        }
        proof {
            assert(old(self)@.subrange(0, old(self)@.len() as int) =~= old(self)@);
        }
        self.rows = kept;
        proof {
            let pred = |zv: ZettelView| zv.title != zettel@.title;
            broadcast use vstd::seq_lib::group_filter_ensures;

            if old(self).wf() {
                let filtered = old(self)@.filter(pred);
                assert forall|a: int, b: int| 0 <= a < b < filtered.len() implies #[trigger] filtered[a].title != #[trigger] filtered[b].title by {
                    lemma_filter_unique(old(self)@, pred, a, b);
                }
            }
        }
    }

    /// All rows of the store, as notes.
    pub fn all(&self) -> (r: Vec<Zettel>)
        ensures
            r.deep_view() == self@,
    {
        let mut out: Vec<Zettel> = Vec::new();
        let mut k: usize = 0;
        while k < self.rows.len()
            invariant
                k <= self.rows@.len(),
                self@.len() == self.rows@.len(),
                out.deep_view() == self@.subrange(0, k as int),
            decreases self.rows@.len() - k,
        {
            proof {
                assert(self@[k as int] == self.rows@[k as int]@);
            }
            push_zettel(&mut out, self.rows[k].duplicate());
            k = k + 1;
            proof {
                assert(out.deep_view() =~= self@.subrange(0, k as int));
            }
        }
        proof {
            assert(self@.subrange(0, self@.len() as int) =~= self@);
        }
        out
    }

    /// The rows whose title matches the pattern: byte-equality when
    /// `exact`, the store's glob language otherwise.
    pub fn find_by_title(&self, pattern: &String, exact: bool) -> (r: Vec<Zettel>)
        ensures
            r.deep_view() == self@.filter(
                |zv: ZettelView| pattern_matches(pattern@, zv.title, exact),
            ),
    {
        let mut out: Vec<Zettel> = Vec::new();
        let mut k: usize = 0;
        proof {
            reveal(Seq::filter);
            assert(self@.subrange(0, 0).filter(
                |zv: ZettelView| pattern_matches(pattern@, zv.title, exact),
            ) =~= Seq::<ZettelView>::empty());
        }
        while k < self.rows.len()
            invariant
                k <= self.rows@.len(),
                self@.len() == self.rows@.len(),
                out.deep_view() == self@.subrange(0, k as int).filter(
                    |zv: ZettelView| pattern_matches(pattern@, zv.title, exact),
                ),
            decreases self.rows@.len() - k,
        {
            let ghost pred = |zv: ZettelView| pattern_matches(pattern@, zv.title, exact);
            let ghost pre = self@.subrange(0, k as int);
            let ghost cur = self@.subrange(0, k as int + 1);
            proof {
                assert(self@[k as int] == self.rows@[k as int]@);
                reveal(Seq::filter);
                assert(cur.drop_last() =~= pre);
                assert(cur.last() == self@[k as int]);
                assert(cur.filter(pred) == if pred(cur.last()) {
                    pre.filter(pred).push(cur.last())
                } else {
                    pre.filter(pred)
                });
            }
            let hit = if exact {
                self.rows[k].title == *pattern
            } else {
                glob_matches(pattern.as_str(), self.rows[k].title.as_str())
            };
            if hit {
                push_zettel(&mut out, self.rows[k].duplicate());
            }
            k = k + 1;
        }
        proof {
            assert(self@.subrange(0, self@.len() as int) =~= self@);
        }
        out
    }
    /// The rows one of whose tags matches the pattern.
    pub fn find_by_tag(&self, pattern: &String, exact: bool) -> (r: Vec<Zettel>)
        ensures
            r.deep_view() == self@.filter(
                |zv: ZettelView| any_matches(pattern@, zv.tags, exact),
            ),
    {
        let mut out: Vec<Zettel> = Vec::new();
        let mut k: usize = 0;
        proof {
            reveal(Seq::filter);
            assert(self@.subrange(0, 0).filter(
                |zv: ZettelView| any_matches(pattern@, zv.tags, exact),
            ) =~= Seq::<ZettelView>::empty());
        }
        while k < self.rows.len()
            invariant
                k <= self.rows@.len(),
                self@.len() == self.rows@.len(),
                out.deep_view() == self@.subrange(0, k as int).filter(
                    |zv: ZettelView| any_matches(pattern@, zv.tags, exact),
                ),
            decreases self.rows@.len() - k,
        {
            let ghost pred = |zv: ZettelView| any_matches(pattern@, zv.tags, exact);
            let ghost pre = self@.subrange(0, k as int);
            let ghost cur = self@.subrange(0, k as int + 1);
            proof {
                assert(self@[k as int] == self.rows@[k as int]@);
                reveal(Seq::filter);
                assert(cur.drop_last() =~= pre);
                assert(cur.last() == self@[k as int]);
                assert(cur.filter(pred) == if pred(cur.last()) {
                    pre.filter(pred).push(cur.last())
                } else {
                    pre.filter(pred)
                });
            }
            if vec_any_matches(&self.rows[k].tags, pattern, exact) {
                push_zettel(&mut out, self.rows[k].duplicate());
            }
            k = k + 1;
        }
        proof {
            assert(self@.subrange(0, self@.len() as int) =~= self@);
        }
        out
    }

    /// The rows one of whose links matches the pattern.
    pub fn find_by_links_to(&self, pattern: &String, exact: bool) -> (r: Vec<Zettel>)
        ensures
            r.deep_view() == self@.filter(
                |zv: ZettelView| any_matches(pattern@, zv.links, exact),
            ),
    {
        let mut out: Vec<Zettel> = Vec::new();
        let mut k: usize = 0;
        proof {
            reveal(Seq::filter);
            assert(self@.subrange(0, 0).filter(
                |zv: ZettelView| any_matches(pattern@, zv.links, exact),
            ) =~= Seq::<ZettelView>::empty());
        }
        while k < self.rows.len()
            invariant
                k <= self.rows@.len(),
                self@.len() == self.rows@.len(),
                out.deep_view() == self@.subrange(0, k as int).filter(
                    |zv: ZettelView| any_matches(pattern@, zv.links, exact),
                ),
            decreases self.rows@.len() - k,
        {
            let ghost pred = |zv: ZettelView| any_matches(pattern@, zv.links, exact);
            let ghost pre = self@.subrange(0, k as int);
            let ghost cur = self@.subrange(0, k as int + 1);
            proof {
                assert(self@[k as int] == self.rows@[k as int]@);
                reveal(Seq::filter);
                assert(cur.drop_last() =~= pre);
                assert(cur.last() == self@[k as int]);
                assert(cur.filter(pred) == if pred(cur.last()) {
                    pre.filter(pred).push(cur.last())
                } else {
                    pre.filter(pred)
                });
            }
            if vec_any_matches(&self.rows[k].links, pattern, exact) {
                push_zettel(&mut out, self.rows[k].duplicate());
            }
            k = k + 1;
        }
        proof {
            assert(self@.subrange(0, self@.len() as int) =~= self@);
        }
        out
    }

    /// All distinct tags of the store, in ascending order.
    pub fn list_tags(&self) -> (r: Vec<String>)
        ensures
            strictly_sorted(r.deep_view()),
            forall|t: Seq<char>| #[trigger] r.deep_view().contains(t) <==> has_tag(self@, t),
    {
        let mut collected: Vec<String> = Vec::new();
        let mut k: usize = 0;
        proof {
            assert(collected.deep_view() =~= tags_prefix(self@, 0));
        }
        while k < self.rows.len()
            invariant
                k <= self.rows@.len(),
                self@.len() == self.rows@.len(),
                collected.deep_view() == tags_prefix(self@, k as int),
            decreases self.rows@.len() - k,
        {
            proof {
                assert(self@[k as int] == self.rows@[k as int]@);
            }
            let row_tags = &self.rows[k].tags;
            let mut m: usize = 0;
            proof {
                assert(collected.deep_view() =~= tags_prefix(self@, k as int) + self@[k as int].tags.subrange(0, 0));
            }
            while m < row_tags.len()
                invariant
                    m <= row_tags@.len(),
                    k < self@.len(),
                    row_tags.deep_view() == self@[k as int].tags,
                    collected.deep_view() == tags_prefix(self@, k as int) + self@[k as int].tags.subrange(0, m as int),
                decreases row_tags@.len() - m,
            {
                proof {
                    assert(row_tags.deep_view()[m as int] == row_tags@[m as int]@);
                }
                push_string(&mut collected, row_tags[m].clone());
                m = m + 1;
                proof {
                    assert(collected.deep_view() =~= tags_prefix(self@, k as int) + self@[
                        k as int
                    ].tags.subrange(0, m as int));
                }
            }
            k = k + 1;
            proof {
                assert(self@[k - 1].tags.subrange(0, self@[k - 1].tags.len() as int) =~= self@[
                    k - 1
                ].tags);
                assert(collected.deep_view() =~= tags_prefix(self@, k as int));
            }
        }
        let r = sort_dedup_strings(&collected);
        proof {
            assert forall|t: Seq<char>| #[trigger] r.deep_view().contains(t) <==> has_tag(self@, t) by {
                lemma_tags_prefix_contains(self@, self@.len() as int, t);
            }
        }
        r
    }

    /// All distinct project names of the store, the root project's empty
    /// name excluded, in ascending order.
    pub fn list_projects(&self) -> (r: Vec<String>)
        ensures
            strictly_sorted(r.deep_view()),
            forall|t: Seq<char>|
                #[trigger] r.deep_view().contains(t) <==> (has_project(self@, t) && t.len() != 0),
    {
        let mut collected: Vec<String> = Vec::new();
        let mut k: usize = 0;
        proof {
            assert(collected.deep_view() =~= projects_prefix(self@, 0));
        }
        while k < self.rows.len()
            invariant
                k <= self.rows@.len(),
                self@.len() == self.rows@.len(),
                collected.deep_view() == projects_prefix(self@, k as int),
            decreases self.rows@.len() - k,
        {
            proof {
                assert(self@[k as int] == self.rows@[k as int]@);
            }
            if !self.rows[k].project.as_str().is_empty() {
                push_string(&mut collected, self.rows[k].project.clone());
            }
            k = k + 1;
            proof {
                assert(collected.deep_view() =~= projects_prefix(self@, k as int));
            }
        }
        let r = sort_dedup_strings(&collected);
        proof {
            assert forall|t: Seq<char>|
                #[trigger] r.deep_view().contains(t) <==> (has_project(self@, t) && t.len()
                    != 0) by {
                lemma_projects_prefix_contains(self@, self@.len() as int, t);
            }
        }
        r
    }

    /// The ghost set: every title that some row links to while no row
    /// carries it, in ascending order.
    pub fn zettel_not_yet_created(&self) -> (r: Vec<String>)
        ensures
            strictly_sorted(r.deep_view()),
            forall|t: Seq<char>| #[trigger] r.deep_view().contains(t) <==> is_ghost_title(self@, t),
    {
        let mut collected: Vec<String> = Vec::new();
        let mut k: usize = 0;
        proof {
            reveal(Seq::filter);
            assert(collected.deep_view() =~= ghosts_prefix(self@, 0));
        }
        while k < self.rows.len()
            invariant
                k <= self.rows@.len(),
                self@.len() == self.rows@.len(),
                collected.deep_view() == ghosts_prefix(self@, k as int),
            decreases self.rows@.len() - k,
        {
            proof {
                assert(self@[k as int] == self.rows@[k as int]@);
            }
            let ghost pred = |t: Seq<char>| !contains_title(self@, t);
            let mut m: usize = 0;
            proof {
                reveal(Seq::filter);
                assert(self@[k as int].links.subrange(0, 0).filter(pred) =~= Seq::<Seq<char>>::empty());
                assert(collected.deep_view() =~= ghosts_prefix(self@, k as int) + self@[
                    k as int
                ].links.subrange(0, 0).filter(pred));
            }
            while m < self.rows[k].links.len()
                invariant
                    m <= self.rows@[k as int].links@.len(),
                    k < self@.len(),
                    self@.len() == self.rows@.len(),
                    self@[k as int].links.len() == self.rows@[k as int].links@.len(),
                    pred == (|t: Seq<char>| !contains_title(self@, t)),
                    collected.deep_view() == ghosts_prefix(self@, k as int) + self@[
                        k as int
                    ].links.subrange(0, m as int).filter(pred),
                decreases self.rows@[k as int].links@.len() - m,
            {
                let ghost pre = self@[k as int].links.subrange(0, m as int);
                let ghost cur = self@[k as int].links.subrange(0, m as int + 1);
                proof {
                    assert(self@[k as int] == self.rows@[k as int]@);
                    assert(self@[k as int].links[m as int] == self.rows@[k as int].links@[m as int]@);
                    reveal(Seq::filter);
                    assert(cur.drop_last() =~= pre);
                    assert(cur.last() == self@[k as int].links[m as int]);
                    assert(cur.filter(pred) == if pred(cur.last()) {
                        pre.filter(pred).push(cur.last())
                    } else {
                        pre.filter(pred)
                    });
                }
                let target = self.rows[k].links[m].clone();
                if !self.has_title(&target) {
                    push_string(&mut collected, target);
                    proof {
                        assert(collected.deep_view() =~= ghosts_prefix(self@, k as int) + cur.filter(pred));
                    }
                } else {
                    proof {
                        assert(!pred(cur.last()));
                    }
                }
                m = m + 1;
            }
            k = k + 1;
            proof {
                assert(self@[k - 1].links.subrange(0, self@[k - 1].links.len() as int) =~= self@[
                    k - 1
                ].links);
                assert(collected.deep_view() =~= ghosts_prefix(self@, k as int));
            }
        }
        let r = sort_dedup_strings(&collected);
        proof {
            assert forall|t: Seq<char>|
                #[trigger] r.deep_view().contains(t) <==> is_ghost_title(self@, t) by {
                lemma_ghosts_prefix_contains(self@, self@.len() as int, t);
            }
        }
        r
    }

    /// Patch the title of the row carrying `old_title`, in place; every
    /// other row is untouched. Used by the rename operation only.
    pub fn change_title(&mut self, old_title: &String, new_title: &String)
        requires
            old(self).wf(),
            !contains_title(old(self)@, new_title@),
        ensures
            final(self).wf(),
            final(self)@ == old(self)@.map_values(
                |zv: ZettelView| retitle_row(zv, old_title@, new_title@),
            ),
    {
        let ghost f = |zv: ZettelView| retitle_row(zv, old_title@, new_title@);
        let mut out: Vec<Zettel> = Vec::new();
        let mut k: usize = 0;
        proof {
            assert(out.deep_view() =~= old(self)@.subrange(0, 0).map_values(f));
        }
        while k < self.rows.len()
            invariant
                k <= self.rows@.len(),
                self@ == old(self)@,
                self@.len() == self.rows@.len(),
                out.deep_view() == old(self)@.subrange(0, k as int).map_values(f),
                f == (|zv: ZettelView| retitle_row(zv, old_title@, new_title@)),
            decreases self.rows@.len() - k,
        {
            proof {
                assert(self@[k as int] == self.rows@[k as int]@);
            }
            let row = self.rows[k].duplicate();
            if row.title == *old_title {
                let replaced = Zettel {
                    title: new_title.clone(),
                    project: row.project,
                    links: row.links,
                    tags: row.tags,
                };
                proof {
                    assert(replaced@ =~= f(self@[k as int]));
                }
                push_zettel(&mut out, replaced);
            } else {
                proof {
                    assert(row@ =~= f(self@[k as int]));
                }
                push_zettel(&mut out, row);
            }
            k = k + 1;
            proof {
                assert(out.deep_view() =~= old(self)@.subrange(0, k as int).map_values(f));
            }
        }
        proof {
            assert(old(self)@.subrange(0, old(self)@.len() as int) =~= old(self)@);
        }
        self.rows = out;
        proof {
            let rows = self@;
            assert forall|a: int, b: int| 0 <= a < b < rows.len() implies #[trigger] rows[a].title
                != #[trigger] rows[b].title by {
                assert(rows[a] == f(old(self)@[a]));
                assert(rows[b] == f(old(self)@[b]));
                if old(self)@[a].title != old_title@ && old(self)@[b].title == old_title@ {
                    assert(!contains_title(old(self)@, new_title@));
                    assert(rows[a].title == old(self)@[a].title);
                }
                if old(self)@[a].title == old_title@ && old(self)@[b].title != old_title@ {
                    assert(rows[b].title == old(self)@[b].title);
                }
            }
        }
    }

    /// Move the row carrying `title` to another project, in place; every
    /// other row is untouched. Used by the move operation only.
    pub fn change_project(&mut self, title: &String, new_project: &String)
        ensures
            final(self)@ == old(self)@.map_values(
                |zv: ZettelView| reproject_row(zv, title@, new_project@),
            ),
            old(self).wf() ==> final(self).wf(),
    {
        let ghost f = |zv: ZettelView| reproject_row(zv, title@, new_project@);
        let mut out: Vec<Zettel> = Vec::new();
        let mut k: usize = 0;
        proof {
            assert(out.deep_view() =~= old(self)@.subrange(0, 0).map_values(f));
        }
        while k < self.rows.len()
            invariant
                k <= self.rows@.len(),
                self@ == old(self)@,
                self@.len() == self.rows@.len(),
                out.deep_view() == old(self)@.subrange(0, k as int).map_values(f),
                f == (|zv: ZettelView| reproject_row(zv, title@, new_project@)),
            decreases self.rows@.len() - k,
        {
            proof {
                assert(self@[k as int] == self.rows@[k as int]@);
            }
            let row = self.rows[k].duplicate();
            if row.title == *title {
                let replaced = Zettel {
                    title: row.title,
                    project: new_project.clone(),
                    links: row.links,
                    tags: row.tags,
                };
                proof {
                    assert(replaced@ =~= f(self@[k as int]));
                }
                push_zettel(&mut out, replaced);
            } else {
                proof {
                    assert(row@ =~= f(self@[k as int]));
                }
                push_zettel(&mut out, row);
            }
            k = k + 1;
            proof {
                assert(out.deep_view() =~= old(self)@.subrange(0, k as int).map_values(f));
            }
        }
        proof {
            assert(old(self)@.subrange(0, old(self)@.len() as int) =~= old(self)@);
        }
        self.rows = out;
        proof {
            if old(self).wf() {
                let rows = self@;
                assert forall|a: int, b: int| 0 <= a < b < rows.len() implies #[trigger] rows[a].title
                    != #[trigger] rows[b].title by {
                    assert(rows[a] == f(old(self)@[a]));
                    assert(rows[b] == f(old(self)@[b]));
                }
            }
        }
    }

    /// Replace the row of a note whose metadata was re-extracted: the old
    /// row (if any) leaves, the fresh one enters.
    pub fn update(&mut self, zettel: &Zettel)
        requires
            old(self).wf(),
        ensures
            final(self).wf(),
            final(self)@ == old(self)@.filter(|zv: ZettelView| zv.title != zettel@.title).push(
                zettel@,
            ),
    {
        self.delete(zettel);
        let r = self.save(zettel);
        proof {
            broadcast use vstd::seq_lib::group_filter_ensures;

            let pred = |zv: ZettelView| zv.title != zettel@.title;
            let filtered = old(self)@.filter(pred);
            if contains_title(filtered, zettel@.title) {
                let w = choose|w: int|
                    0 <= w < filtered.len() && #[trigger] filtered[w].title == zettel@.title;
                assert(pred(filtered[w]));
            }
            assert(r is Ok);
        }
    }
}

/// Whether an element occurs in a concatenation: exactly when it occurs
/// in one of the parts.
proof fn lemma_contains_add<A>(a: Seq<A>, b: Seq<A>, x: A)
    ensures
        (a + b).contains(x) <==> a.contains(x) || b.contains(x),
{
    if (a + b).contains(x) {
        let w = choose|w: int| 0 <= w < (a + b).len() && (a + b)[w] == x;
        if w < a.len() {
            assert(a[w] == x);
        } else {
            assert(b[w - a.len()] == x);
        }
    }
    if a.contains(x) {
        let w = choose|w: int| 0 <= w < a.len() && a[w] == x;
        assert((a + b)[w] == x);
    }
    if b.contains(x) {
        let w = choose|w: int| 0 <= w < b.len() && b[w] == x;
        assert((a + b)[a.len() + w] == x);
    }
}

/// The tags of the first `k` rows, in row order.
pub open spec fn tags_prefix(rows: Seq<ZettelView>, k: int) -> Seq<Seq<char>>
    decreases k when k >= 0
{
    if k <= 0 {
        Seq::empty()
    } else {
        tags_prefix(rows, k - 1) + rows[k - 1].tags
    }
}

proof fn lemma_tags_prefix_contains(rows: Seq<ZettelView>, k: int, t: Seq<char>)
    requires
        0 <= k <= rows.len(),
    ensures
        tags_prefix(rows, k).contains(t) <==> exists|j: int|
            0 <= j < k && (#[trigger] rows[j].tags).contains(t),
    decreases k,
{
    if k > 0 {
        lemma_tags_prefix_contains(rows, k - 1, t);
        lemma_contains_add(tags_prefix(rows, k - 1), rows[k - 1].tags, t);
        if exists|j: int| 0 <= j < k && (#[trigger] rows[j].tags).contains(t) {
            let j = choose|j: int| 0 <= j < k && (#[trigger] rows[j].tags).contains(t);
            if j < k - 1 {
                assert(exists|j2: int| 0 <= j2 < k - 1 && (#[trigger] rows[j2].tags).contains(t));
            }
        }
    }
}

/// The non-empty project names of the first `k` rows, in row order.
pub open spec fn projects_prefix(rows: Seq<ZettelView>, k: int) -> Seq<Seq<char>>
    decreases k when k >= 0
{
    if k <= 0 {
        Seq::empty()
    } else if rows[k - 1].project.len() != 0 {
        projects_prefix(rows, k - 1) + seq![rows[k - 1].project]
    } else {
        projects_prefix(rows, k - 1)
    }
}

proof fn lemma_projects_prefix_contains(rows: Seq<ZettelView>, k: int, t: Seq<char>)
    requires
        0 <= k <= rows.len(),
    ensures
        projects_prefix(rows, k).contains(t) <==> ((exists|j: int|
            0 <= j < k && #[trigger] rows[j].project == t) && t.len() != 0),
    decreases k,
{
    if k > 0 {
        lemma_projects_prefix_contains(rows, k - 1, t);
        if rows[k - 1].project.len() != 0 {
            lemma_contains_add(projects_prefix(rows, k - 1), seq![rows[k - 1].project], t);
        }
        if (exists|j: int| 0 <= j < k && #[trigger] rows[j].project == t) && t.len() != 0 {
            let j = choose|j: int| 0 <= j < k && #[trigger] rows[j].project == t;
            if j < k - 1 {
                assert(exists|j2: int| 0 <= j2 < k - 1 && #[trigger] rows[j2].project == t);
            } else {
                assert(seq![rows[k - 1].project][0] == t);
            }
        }
    }
}

/// The ghost link targets of the first `k` rows: link targets that no
/// row's title carries, in row order.
pub open spec fn ghosts_prefix(rows: Seq<ZettelView>, k: int) -> Seq<Seq<char>>
    decreases k when k >= 0
{
    if k <= 0 {
        Seq::empty()
    } else {
        ghosts_prefix(rows, k - 1) + rows[k - 1].links.filter(|t: Seq<char>| !contains_title(rows, t))
    }
}

proof fn lemma_ghosts_prefix_contains(rows: Seq<ZettelView>, k: int, t: Seq<char>)
    requires
        0 <= k <= rows.len(),
    ensures
        ghosts_prefix(rows, k).contains(t) <==> ((exists|j: int|
            0 <= j < k && (#[trigger] rows[j].links).contains(t)) && !contains_title(rows, t)),
    decreases k,
{
    broadcast use vstd::seq_lib::group_filter_ensures;

    let pred = |t2: Seq<char>| !contains_title(rows, t2);
    if k > 0 {
        lemma_ghosts_prefix_contains(rows, k - 1, t);
        lemma_contains_add(ghosts_prefix(rows, k - 1), rows[k - 1].links.filter(pred), t);
        if rows[k - 1].links.filter(pred).contains(t) {
            let fs = rows[k - 1].links.filter(pred);
            let w = choose|w: int| 0 <= w < fs.len() && #[trigger] fs[w] == t;
            assert(pred(fs[w]));
            lemma_filter_elem(rows[k - 1].links, pred, w);
        }
        if (exists|j: int| 0 <= j < k && (#[trigger] rows[j].links).contains(t)) && !contains_title(
            rows,
            t,
        ) {
            let j = choose|j: int| 0 <= j < k && (#[trigger] rows[j].links).contains(t);
            if j < k - 1 {
                assert(exists|j2: int| 0 <= j2 < k - 1 && (#[trigger] rows[j2].links).contains(t));
            } else {
                let ls = rows[k - 1].links;
                let w = choose|w: int| 0 <= w < ls.len() && #[trigger] ls[w] == t;
                assert(pred(ls[w]));
                assert(ls.filter(pred).contains(t));
            }
        }
    }
}

/// An element of a filtered sequence occurs in the original sequence.
pub proof fn lemma_filter_elem<A>(s: Seq<A>, pred: spec_fn(A) -> bool, w: int)
    requires
        0 <= w < s.filter(pred).len(),
    ensures
        s.contains(s.filter(pred)[w]),
    decreases s.len(),
{
    reveal(Seq::filter);
    if s.len() > 0 {
        let prefix = s.drop_last();
        if pred(s.last()) && w == s.filter(pred).len() - 1 {
            assert(s[s.len() - 1] == s.filter(pred)[w]);
        } else {
            lemma_filter_elem(prefix, pred, w);
            let u = choose|u: int| 0 <= u < prefix.len() && #[trigger] prefix[u] == s.filter(pred)[w];
            assert(s[u] == s.filter(pred)[w]);
        }
    }
}

/// Whether some element of a multi-valued field matches the pattern.
pub fn vec_any_matches(field: &Vec<String>, pattern: &String, exact: bool) -> (r: bool)
    ensures
        r == any_matches(pattern@, field.deep_view(), exact),
{
    let mut m: usize = 0;
    while m < field.len()
        invariant
            m <= field@.len(),
            field.deep_view().len() == field@.len(),
            forall|w: int|
                0 <= w < m ==> !pattern_matches(pattern@, #[trigger] field.deep_view()[w], exact),
        decreases field@.len() - m,
    {
        proof {
            assert(field.deep_view()[m as int] == field@[m as int]@);
        }
        let hit = if exact {
            field[m] == *pattern
        } else {
            glob_matches(pattern.as_str(), field[m].as_str())
        };
        if hit {
            proof {
                assert(pattern_matches(pattern@, field.deep_view()[m as int], exact));
            }
            return true;
        }
        m = m + 1;
    }
    false
}

/// Rows surviving a filter keep their mutual distinctness: positions in
/// the filtered sequence come from distinct positions of the original.
pub proof fn lemma_filter_unique(
    rows: Seq<ZettelView>,
    pred: spec_fn(ZettelView) -> bool,
    a: int,
    b: int,
)
    requires
        unique_titles(rows),
        0 <= a < b < rows.filter(pred).len(),
    ensures
        rows.filter(pred)[a].title != rows.filter(pred)[b].title,
    decreases rows.len(),
{
    reveal(Seq::filter);
    if rows.len() > 0 {
        let prefix = rows.drop_last();
        assert(unique_titles(prefix)) by {
            assert forall|x: int, y: int| 0 <= x < y < prefix.len() implies #[trigger] prefix[x].title
                != #[trigger] prefix[y].title by {
                assert(rows[x].title != rows[y].title);
            }
        }
        if pred(rows.last()) {
            if b == rows.filter(pred).len() - 1 {
                // rows.filter(pred)[b] is rows.last(); a sits in the prefix's filter
                lemma_filter_element_of(prefix, pred, a);
                assert(contains_title(prefix, rows.filter(pred)[a].title));
                let w = choose|w: int|
                    0 <= w < prefix.len() && #[trigger] prefix[w].title == rows.filter(pred)[a].title;
                assert(rows[w].title != rows.last().title);
            } else {
                lemma_filter_unique(prefix, pred, a, b);
            }
        } else {
            lemma_filter_unique(prefix, pred, a, b);
        }
    }
}

/// Every element of a filtered row sequence carries a title present in
/// the original rows.
proof fn lemma_filter_element_of(rows: Seq<ZettelView>, pred: spec_fn(ZettelView) -> bool, a: int)
    requires
        0 <= a < rows.filter(pred).len(),
    ensures
        contains_title(rows, rows.filter(pred)[a].title),
    decreases rows.len(),
{
    reveal(Seq::filter);
    if rows.len() > 0 {
        let prefix = rows.drop_last();
        if pred(rows.last()) && a == rows.filter(pred).len() - 1 {
            assert(rows[rows.len() - 1].title == rows.filter(pred)[a].title);
        } else {
            lemma_filter_element_of(prefix, pred, a);
            let w = choose|w: int|
                0 <= w < prefix.len() && #[trigger] prefix[w].title == rows.filter(pred)[a].title;
            assert(rows[w].title == rows.filter(pred)[a].title);
        }
    }
}

} // verus!
