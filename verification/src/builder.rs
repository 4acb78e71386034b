//! The index builder: turning a tree of note files into a fresh store.
//!
//! The surrounding application enumerates the files and reads their
//! contents; this module derives each note's metadata (in parallel — the
//! extraction is pure) and merges the notes into a new store serially,
//! skipping duplicate titles with a warning instead of aborting.

use vstd::prelude::*;
use rayon::iter::{IndexedParallelIterator, IntoParallelRefIterator, ParallelIterator};
use crate::config::ConfigOptions;
use crate::database::{contains_title, Database};
use crate::extract::{collapse_ws, find_links, find_tags, spec_links, spec_tags};
use crate::paths::{basename, basename_of, dirname, dirname_of, replace_extension,
    spec_replace_extension};
use crate::strutil::push_string;
use crate::zettel::{Zettel, ZettelView};

verus! {

/// One note file of the tree: where it lies and what it holds.
pub struct NoteFile {
    pub path: String,
    pub content: String,
}

/// The mathematical value of a note file.
#[verifier::ext_equal]
pub struct NoteFileView {
    pub path: Seq<char>,
    pub content: Seq<char>,
}

impl View for NoteFile {
    type V = NoteFileView;

    open spec fn view(&self) -> NoteFileView {
        NoteFileView { path: self.path@, content: self.content@ }
    }
}

impl DeepView for NoteFile {
    type V = NoteFileView;

    open spec fn deep_view(&self) -> NoteFileView {
        self.view()
    }
}

impl NoteFile {
    pub fn new(path: String, content: String) -> (r: NoteFile)
        ensures
            r@.path == path@,
            r@.content == content@,
    {
        NoteFile { path, content }
    }
}

/// The title a file carries: its base name without the extension, with
/// whitespace runs collapsed.
pub open spec fn spec_title_of_path(path: Seq<char>) -> Seq<char> {
    collapse_ws(basename_of(spec_replace_extension(path, Seq::empty())))
}

/// The project a file belongs to: the root project when the file lies
/// directly under the root, else the name of its directory.
pub open spec fn spec_project_of_path(root: Seq<char>, path: Seq<char>) -> Seq<char> {
    if dirname_of(path) == root {
        Seq::empty()
    } else {
        basename_of(dirname_of(path))
    }
}

/// The note a file denotes: title and project from the path, links and
/// tags extracted from the content.
pub open spec fn spec_zettel_from(root: Seq<char>, path: Seq<char>, content: Seq<char>) -> ZettelView {
    ZettelView {
        title: spec_title_of_path(path),
        project: spec_project_of_path(root, path),
        links: spec_links(content),
        tags: spec_tags(content),
    }
}

/// Create a note from a file, provided the absolute path of the file and
/// its text.
pub fn zettel_from_file(cfg: &ConfigOptions, path: &String, content: &String) -> (r: Zettel)
    ensures
        r@ == spec_zettel_from(cfg.zettelkasten@, path@, content@),
{
    let stem = replace_extension(path.as_str(), "");
    let base = basename(stem.as_str());
    let title = crate::extract::strip_multiple_whitespace(base.as_str());
    let dir = dirname(path.as_str());
    let project = if dir == cfg.zettelkasten {
        String::new()
    } else {
        basename(dir.as_str())
    };
    let r = Zettel { title, project, links: find_links(content.as_str()), tags: find_tags(
        content.as_str(),
    ) };
    proof {
        reveal_strlit("");
        assert(""@ =~= Seq::<char>::empty());
        assert(r@ =~= spec_zettel_from(cfg.zettelkasten@, path@, content@));
    }
    r
}

/// Whether the file's title as written needs normalizing (it contains a
/// whitespace run); the original file is then renamed by the caller.
pub fn title_needs_normalizing(path: &String) -> (r: bool)
    ensures
        r == (spec_title_of_path(path@) != basename_of(spec_replace_extension(
            path@,
            Seq::empty(),
        ))),
{
    let stem = replace_extension(path.as_str(), "");
    let base = basename(stem.as_str());
    let normalized = crate::extract::strip_multiple_whitespace(base.as_str());
    proof {
        reveal_strlit("");
        assert(""@ =~= Seq::<char>::empty());
    }
    !(normalized == base)
}

/// A file the builder passes over: hidden files, whose base name starts
/// with a dot (this covers the index file itself).
pub open spec fn spec_hidden(path: Seq<char>) -> bool {
    basename_of(path).len() > 0 && basename_of(path)[0] == '.'
}

/// Whether the file is hidden (its base name starts with a dot).
pub fn is_hidden(path: &String) -> (r: bool)
    ensures
        r == spec_hidden(path@),
{
    let base = basename(path.as_str());
    let cs = crate::strutil::chars_of(base.as_str());
    cs.len() > 0 && cs[0] == '.'
}

/// The rows a rebuild produces from the first `k` files: each visible
/// file's note, in file order, the first note of each title winning.
pub open spec fn rebuild_rows(root: Seq<char>, fs: Seq<NoteFileView>, k: int) -> Seq<ZettelView>
    decreases k when k >= 0
{
    if k <= 0 {
        Seq::empty()
    } else {
        let prev = rebuild_rows(root, fs, k - 1);
        let z = spec_zettel_from(root, fs[k - 1].path, fs[k - 1].content);
        if !spec_hidden(fs[k - 1].path) && !contains_title(prev, z.title) {
            prev.push(z)
        } else {
            prev
        }
    }
}

/// The titles a rebuild skips among the first `k` files: visible files
/// whose title a previous file already claimed.
pub open spec fn rebuild_skipped(root: Seq<char>, fs: Seq<NoteFileView>, k: int) -> Seq<Seq<char>>
    decreases k when k >= 0
{
    if k <= 0 {
        Seq::empty()
    } else {
        let prev = rebuild_rows(root, fs, k - 1);
        let z = spec_zettel_from(root, fs[k - 1].path, fs[k - 1].content);
        if !spec_hidden(fs[k - 1].path) && contains_title(prev, z.title) {
            rebuild_skipped(root, fs, k - 1).push(z.title)
        } else {
            rebuild_skipped(root, fs, k - 1)
        }
    }
}

/// Relies on rayon's parallel iterator over a slice: maps every file
/// through the pure extractor on a worker pool; `collect_into_vec`
/// writes the results in input order.
#[verifier::external_body]
fn par_extract(cfg: &ConfigOptions, files: &Vec<NoteFile>) -> (r: Vec<Zettel>)
    ensures
        r@.len() == files@.len(),
        forall|k: int|
            0 <= k < files@.len() ==> (#[trigger] r@[k])@ == spec_zettel_from(
                cfg.zettelkasten@,
                files@[k].path@,
                files@[k].content@,
            ),
{
    let mut out: Vec<Zettel> = Vec::new();
    files.par_iter().map(|f| zettel_from_file(cfg, &f.path, &f.content)).collect_into_vec(
        &mut out,
    );
    out
}

impl Database {
    /// Look at the given note files and build a fresh store from their
    /// metadata. Hidden files are passed over; a duplicate title is
    /// skipped and reported in the second component, never a reason to
    /// abort.
    pub fn generate(cfg: &ConfigOptions, files: &Vec<NoteFile>) -> (r: (Database, Vec<String>))
        ensures
            r.0@ == rebuild_rows(cfg.zettelkasten@, files.deep_view(), files@.len() as int),
            r.0.wf(),
            r.1.deep_view() == rebuild_skipped(
                cfg.zettelkasten@,
                files.deep_view(),
                files@.len() as int,
            ),
    {
        let zettels = par_extract(cfg, files);
        let mut db = Database::new();
        let mut skipped: Vec<String> = Vec::new();
        let mut k: usize = 0;
        proof {
            assert(files.deep_view().len() == files@.len());
        }
        while k < files.len()
            invariant
                k <= files@.len(),
                files.deep_view().len() == files@.len(),
                zettels@.len() == files@.len(),
                forall|m: int|
                    0 <= m < files@.len() ==> (#[trigger] zettels@[m])@ == spec_zettel_from(
                        cfg.zettelkasten@,
                        files@[m].path@,
                        files@[m].content@,
                    ),
                db.wf(),
                db@ == rebuild_rows(cfg.zettelkasten@, files.deep_view(), k as int),
                skipped.deep_view() == rebuild_skipped(
                    cfg.zettelkasten@,
                    files.deep_view(),
                    k as int,
                ),
            decreases files@.len() - k,
        {
            proof {
                assert(files.deep_view()[k as int] == files@[k as int]@);
            }
            if !is_hidden(&files[k].path) {
                let z = &zettels[k];
                let saved = db.save(z);
                if saved.is_err() {
                    push_string(&mut skipped, z.title.clone());
                }
            }
            k = k + 1;
            proof {
                assert(db@ =~= rebuild_rows(cfg.zettelkasten@, files.deep_view(), k as int));
                assert(skipped.deep_view() =~= rebuild_skipped(
                    cfg.zettelkasten@,
                    files.deep_view(),
                    k as int,
                ));
            }
        }
        (db, skipped)
    }
}

} // verus!
