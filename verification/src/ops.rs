//! The single-note commands' decisions: creating a note and resolving a
//! move. The surrounding application performs the file work these
//! decisions call for and hands back what it saw.

use vstd::prelude::*;
use crate::database::{contains_title, Database};
use crate::extract::collapse_ws;
use crate::regexw::{regex_is_match, regex_matches, regex_new, regex_pattern, regex_valid};
use crate::strutil::chars_of;
use crate::zettel::{push_zettel, Zettel, ZettelView};

verus! {

/// What a create command decided, and what is left for the caller to
/// do: write the template file (`CreatedNew`), or only report.
#[derive(Clone, Copy, PartialEq, Eq, Debug)]
pub enum CreateOutcome {
    /// The title is empty or reserved; nothing was touched.
    InvalidTitle,
    /// File and row both exist; nothing was touched.
    AlreadyExists,
    /// A row existed without a file: the row was replaced.
    ReplacedEntry,
    /// A file existed without a row: a row was added.
    AddedEntry,
    /// Neither existed: a row was added and the file is to be written.
    CreatedNew,
}

/// A title the engine accepts: non-empty and not dot-prefixed, after
/// whitespace normalization.
pub open spec fn acceptable_title(t: Seq<char>) -> bool {
    t.len() > 0 && t[0] != '.'
}

/// The row a create inserts.
pub open spec fn fresh_row(title: Seq<char>, project: Seq<char>) -> ZettelView {
    ZettelView {
        title: title,
        project: project,
        links: Seq::empty(),
        tags: Seq::empty(),
    }
}

/// Decide and perform a create: normalize the title, reject bad shapes,
/// and reconcile the row with what the file tree shows. The note handed
/// back carries the normalized title; on `CreatedNew` the caller writes
/// its file from the template.
pub fn create(db: &mut Database, title: &str, project: &str, exists_in_fs: bool) -> (r: (
    CreateOutcome,
    Zettel,
))
    requires
        old(db).wf(),
    ensures
        final(db).wf(),
        r.1@ == fresh_row(collapse_ws(title@), project@),
        ({
            let t = collapse_ws(title@);
            let present = contains_title(old(db)@, t);
            &&& !acceptable_title(t) ==> r.0 == CreateOutcome::InvalidTitle && final(db)@ == old(
                db,
            )@
            &&& (acceptable_title(t) && exists_in_fs && present) ==> r.0
                == CreateOutcome::AlreadyExists && final(db)@ == old(db)@
            &&& (acceptable_title(t) && !exists_in_fs && present) ==> r.0
                == CreateOutcome::ReplacedEntry && final(db)@ == old(db)@.filter(
                |zv: ZettelView| zv.title != t,
            ).push(fresh_row(t, project@))
            &&& (acceptable_title(t) && exists_in_fs && !present) ==> r.0
                == CreateOutcome::AddedEntry && final(db)@ == old(db)@.push(fresh_row(t, project@))
            &&& (acceptable_title(t) && !exists_in_fs && !present) ==> r.0
                == CreateOutcome::CreatedNew && final(db)@ == old(db)@.push(fresh_row(t, project@))
        }),
{
    let actual_title = crate::extract::strip_multiple_whitespace(title);
    let zettel = Zettel::new(actual_title.as_str(), project);
    let tchars = chars_of(actual_title.as_str());
    if tchars.len() == 0 || tchars[0] == '.' {
        proof {
            assert(zettel@ =~= fresh_row(collapse_ws(title@), project@));
        }
        return (CreateOutcome::InvalidTitle, zettel);
    }
    proof {
        assert(zettel@ =~= fresh_row(collapse_ws(title@), project@));
    }
    let exists_in_db = db.has_title(&zettel.title);
    if exists_in_fs && exists_in_db {
        (CreateOutcome::AlreadyExists, zettel)
    } else if !exists_in_fs && exists_in_db {
        db.update(&zettel);
        (CreateOutcome::ReplacedEntry, zettel)
    } else {
        let saved = db.save(&zettel);
        proof {
            assert(saved is Ok);
        }
        if exists_in_fs {
            (CreateOutcome::AddedEntry, zettel)
        } else {
            (CreateOutcome::CreatedNew, zettel)
        }
    }
}

/// The notes a move touches: those whose title the pattern matches,
/// anywhere in the title (the move pattern is not anchored). `None`
/// exactly when the pattern does not compile.
pub fn match_titles(zs: &Vec<Zettel>, pattern: &String) -> (r: Option<Vec<Zettel>>)
    ensures
        r is Some <==> regex_valid(pattern@),
        r matches Some(v) ==> v.deep_view() == zs.deep_view().filter(
            |zv: ZettelView| regex_matches(pattern@, zv.title),
        ),
{
    let re = match regex_new(pattern.as_str()) {
        None => {
            return None;
        },
        Some(re) => re,
    };
    let ghost pred = |zv: ZettelView| regex_matches(pattern@, zv.title);
    let mut out: Vec<Zettel> = Vec::new();
    let mut k: usize = 0;
    proof {
        reveal(Seq::filter);
        assert(zs.deep_view().subrange(0, 0).filter(pred) =~= Seq::<ZettelView>::empty());
    }
    while k < zs.len()
        invariant
            k <= zs@.len(),
            zs.deep_view().len() == zs@.len(),
            regex_pattern(&re) == pattern@,
            pred == (|zv: ZettelView| regex_matches(pattern@, zv.title)),
            out.deep_view() == zs.deep_view().subrange(0, k as int).filter(pred),
        decreases zs@.len() - k,
    {
        let ghost pre = zs.deep_view().subrange(0, k as int);
        let ghost cur = zs.deep_view().subrange(0, k as int + 1);
        proof {
            assert(zs.deep_view()[k as int] == zs@[k as int]@);
            reveal(Seq::filter);
            assert(cur.drop_last() =~= pre);
            assert(cur.last() == zs.deep_view()[k as int]);
            assert(cur.filter(pred) == if pred(cur.last()) {
                pre.filter(pred).push(cur.last())
            } else {
                pre.filter(pred)
            });
        }
        if regex_is_match(&re, zs[k].title.as_str()) {
            push_zettel(&mut out, zs[k].duplicate());
        }
        k = k + 1;
    }
    proof {
        assert(zs.deep_view().subrange(0, zs.deep_view().len() as int) =~= zs.deep_view());
    }
    Some(out)
}

} // verus!
