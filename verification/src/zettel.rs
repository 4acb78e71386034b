//! The note entity: title, project, links and tags, plus the derived
//! filename mapping.

use vstd::prelude::*;
use crate::config::ConfigOptions;
use vstd::string::StringExecFns;
use crate::strutil::{concat2, concat3};

verus! {

/// The mathematical value of a note: every field as a sequence of
/// characters.
#[verifier::ext_equal]
pub struct ZettelView {
    pub title: Seq<char>,
    pub project: Seq<char>,
    pub links: Seq<Seq<char>>,
    pub tags: Seq<Seq<char>>,
}

/// One note of the collection.
///
/// `title` identifies the note globally; `project` is its namespace, the
/// empty string standing for the root of the tree. `links` holds the titles
/// this note references by wiki-links, `tags` its hashtag-style labels,
/// both in order of discovery.
#[derive(Clone, PartialEq, Eq, Debug)]
pub struct Zettel {
    pub title: String,
    pub project: String,
    pub links: Vec<String>,
    pub tags: Vec<String>,
}

impl View for Zettel {
    type V = ZettelView;

    open spec fn view(&self) -> ZettelView {
        ZettelView {
            title: self.title@,
            project: self.project@,
            links: self.links.deep_view(),
            tags: self.tags.deep_view(),
        }
    }
}

impl DeepView for Zettel {
    type V = ZettelView;

    open spec fn deep_view(&self) -> ZettelView {
        self.view()
    }
}

/// The note's path under the given root:
/// `{root}/{title}.md` for the root project, `{root}/{project}/{title}.md`
/// otherwise.
pub open spec fn spec_filename(root: Seq<char>, project: Seq<char>, title: Seq<char>) -> Seq<char> {
    if project.len() == 0 {
        root + "/"@ + title + ".md"@
    } else {
        root + "/"@ + project + "/"@ + title + ".md"@
    }
}

impl Zettel {
    /// A fresh note with the given title and project, no links, no tags.
    pub fn new(title: &str, project: &str) -> (r: Zettel)
        ensures
            r@.title == title@,
            r@.project == project@,
            r@.links == Seq::<Seq<char>>::empty(),
            r@.tags == Seq::<Seq<char>>::empty(),
    {
        let r = Zettel {
            title: String::from_str(title),
            project: String::from_str(project),
            links: Vec::new(),
            tags: Vec::new(),
        };
        proof {
            assert(r@.title =~= title@);
            assert(r@.project =~= project@);
            assert(r@.links =~= Seq::<Seq<char>>::empty());
            assert(r@.tags =~= Seq::<Seq<char>>::empty());
        }
        r
    }

    /// A copy of this note whose value is known to equal the original.
    pub fn duplicate(&self) -> (r: Zettel)
        ensures
            r@ == self@,
    {
        let r = Zettel {
            title: self.title.clone(),
            project: self.project.clone(),
            links: clone_strings(&self.links),
            tags: clone_strings(&self.tags),
        };
        proof {
            assert(r@ =~= self@);
        }
        r
    }

    /// The absolute path of this note's file under the configured root.
    pub fn filename(&self, cfg: &ConfigOptions) -> (r: String)
        ensures
            r@ == spec_filename(cfg.zettelkasten@, self.project@, self.title@),
    {
        let dotmd = concat2(self.title.as_str(), ".md");
        if self.project.as_str().is_empty() {
            let r = concat3(cfg.zettelkasten.as_str(), "/", dotmd.as_str());
            proof {
                assert(r@ =~= spec_filename(cfg.zettelkasten@, self.project@, self.title@));
            }
            r
        } else {
            let head = concat3(cfg.zettelkasten.as_str(), "/", self.project.as_str());
            let r = concat3(head.as_str(), "/", dotmd.as_str());
            proof {
                assert(r@ =~= spec_filename(cfg.zettelkasten@, self.project@, self.title@));
            }
            r
        }
    }

    /// Whether this note and `other` hold the same value, field by field.
    pub fn same_as(&self, other: &Zettel) -> (r: bool)
        ensures
            r == (self@ == other@),
    {
        let r = self.title == other.title && self.project == other.project
            && string_vecs_eq(&self.links, &other.links)
            && string_vecs_eq(&self.tags, &other.tags);
        proof {
            if r {
                assert(self@ =~~= other@);
            }
        }
        r
    }
}

/// Appends a note to a vector, tracked at the level of note views.
pub fn push_zettel(v: &mut Vec<Zettel>, z: Zettel)
    ensures
        final(v).deep_view() == old(v).deep_view().push(z@),
        final(v)@.len() == old(v)@.len() + 1,
{
    let ghost dv0 = v.deep_view();
    let ghost zv = z@;
    v.push(z);
    proof {
        assert forall|k: int| 0 <= k < v.deep_view().len() implies v.deep_view()[k] == dv0.push(
            zv,
        )[k] by {
            assert(v.deep_view()[k] == v@[k]@);
            if k < dv0.len() {
                assert(v@[k] == old(v)@[k]);
                assert(dv0[k] == old(v)@[k]@);
            }
        }
        assert(v.deep_view() =~= dv0.push(zv));
    }
}

/// An element-wise copy of a vector of strings.
pub fn clone_strings(v: &Vec<String>) -> (r: Vec<String>)
    ensures
        r.deep_view() == v.deep_view(),
{
    let mut r: Vec<String> = Vec::new();
    let mut i: usize = 0;
    while i < v.len()
        invariant
            i <= v@.len(),
            r@.len() == i,
            forall|k: int| 0 <= k < i ==> r@[k]@ == v@[k]@,
        decreases v@.len() - i,
    {
        let s = v[i].clone();
        r.push(s);
        i = i + 1;
    }
    proof {
        assert forall|k: int| 0 <= k < v@.len() implies r.deep_view()[k] == v.deep_view()[k] by {
            assert(r.deep_view()[k] == r@[k]@);
            assert(v.deep_view()[k] == v@[k]@);
        }
        assert(r.deep_view() =~= v.deep_view());
    }
    r
}

/// Whether two vectors of strings hold the same character sequences.
pub fn string_vecs_eq(a: &Vec<String>, b: &Vec<String>) -> (r: bool)
    ensures
        r == (a.deep_view() == b.deep_view()),
{
    if a.len() != b.len() {
        proof {
            assert(a.deep_view().len() == a@.len());
            assert(b.deep_view().len() == b@.len());
        }
        return false;
    }
    let mut i: usize = 0;
    while i < a.len()
        invariant
            a@.len() == b@.len(),
            a.deep_view().len() == a@.len(),
            b.deep_view().len() == b@.len(),
            i <= a@.len(),
            forall|k: int| 0 <= k < i ==> a.deep_view()[k] == b.deep_view()[k],
        decreases a@.len() - i,
    {
        if !(a[i] == b[i]) {
            proof {
                assert(a.deep_view()[i as int] == a@[i as int]@);
                assert(b.deep_view()[i as int] == b@[i as int]@);
            }
            return false;
        }
        proof {
            assert(a.deep_view()[i as int] == a@[i as int]@);
            assert(b.deep_view()[i as int] == b@[i as int]@);
        }
        i = i + 1;
    }
    proof {
        assert(a.deep_view() =~= b.deep_view());
    }
    true
}

} // verus!
