//! The query engine: predicates over the store's notes, composed by
//! conjunction.
//!
//! Each filter keeps exactly the notes satisfying its predicate, so
//! composing filters is set intersection. Pattern predicates speak the
//! `regex` crate's language through the named outcomes of the trusted
//! boundary; a filter returns `None` exactly when its pattern does not
//! compile.

use vstd::prelude::*;
use crate::regexw::{
    regex_find, regex_is_match, regex_matches, regex_new, regex_pattern, regex_valid,
    regex_first_match,
};
use crate::strutil::{concat2, concat3, push_string};
use crate::zettel::{push_zettel, Zettel, ZettelView};

verus! {

/// The real name of a project: `main` and the empty string both denote
/// the root project, whose real name is empty.
pub open spec fn spec_realproject(project: Seq<char>) -> Seq<char> {
    if project == "main"@ || project.len() == 0 {
        Seq::empty()
    } else {
        project
    }
}

/// Given a project name-alias, return the real project's name: `main` is
/// an alias for the root project, whose real name is the empty string.
pub fn realproject(project: &str) -> (r: String)
    ensures
        r@ == spec_realproject(project@),
{
    let p = crate::strutil::chars_of(project);
    let m = crate::strutil::chars_of("main");
    if crate::strutil::chars_eq(&p, &m) || project.is_empty() {
        let r = String::new();
        proof {
            assert(r@ =~= spec_realproject(project@));
        }
        r
    } else {
        let r = concat2(project, "");
        proof {
            reveal_strlit("");
            assert(r@ =~= project@);
        }
        r
    }
}

/// The anchored pattern a title or project query compiles: `^{p}$`.
pub open spec fn anchored(p: Seq<char>) -> Seq<char> {
    "^"@ + p + "$"@
}

/// The pattern a tag query compiles: `^{p}(/.*)?$`, so a pattern also
/// matches every `/`-suffixed child of the tag it names.
pub open spec fn tag_anchored(p: Seq<char>) -> Seq<char> {
    "^"@ + p + "(/.*)?$"@
}

/// The pattern a free-text query compiles: `(?i){p}`, a case-insensitive
/// search.
pub open spec fn ci_pattern(p: Seq<char>) -> Seq<char> {
    "(?i)"@ + p
}

/// How a title (or project) query matches a field: equality when exact,
/// the anchored regular expression otherwise.
pub open spec fn title_query_matches(p: Seq<char>, field: Seq<char>, exact: bool) -> bool {
    if exact {
        p == field
    } else {
        regex_matches(anchored(p), field)
    }
}

/// How a tag query matches one tag: literal equality always counts; a
/// non-exact query also matches through the anchored tag pattern, which
/// covers the tag's children.
pub open spec fn tag_query_matches(p: Seq<char>, tag: Seq<char>, exact: bool) -> bool {
    p == tag || (!exact && regex_matches(tag_anchored(p), tag))
}

/// Some tag of the row answers the tag query.
pub open spec fn any_tag_query_matches(p: Seq<char>, tags: Seq<Seq<char>>, exact: bool) -> bool {
    exists|m: int| 0 <= m < tags.len() && tag_query_matches(p, #[trigger] tags[m], exact)
}

/// How a backlink query matches one link target.
pub open spec fn link_query_matches(p: Seq<char>, link: Seq<char>, exact: bool) -> bool {
    p == link || (!exact && regex_matches(anchored(p), link))
}

/// Some link of the row answers the backlink query.
pub open spec fn any_link_query_matches(p: Seq<char>, links: Seq<Seq<char>>, exact: bool) -> bool {
    exists|m: int| 0 <= m < links.len() && link_query_matches(p, #[trigger] links[m], exact)
}

/// Some note of `zvs` matches the source pattern and links to `title`.
pub open spec fn linked_from_any(
    zvs: Seq<ZettelView>,
    p: Seq<char>,
    exact: bool,
    title: Seq<char>,
) -> bool {
    exists|f: int|
        0 <= f < zvs.len() && title_query_matches(p, #[trigger] zvs[f].title, exact)
            && zvs[f].links.contains(title)
}

/// Some note of `zvs` links to `title`.
pub open spec fn some_links_to(zvs: Seq<ZettelView>, title: Seq<char>) -> bool {
    exists|f: int| 0 <= f < zvs.len() && (#[trigger] zvs[f].links).contains(title)
}

/// A note is isolated among `zvs`: it links to nothing and nothing in
/// `zvs` links to it.
pub open spec fn is_isolated(zv: ZettelView, zvs: Seq<ZettelView>) -> bool {
    zv.links.len() == 0 && !some_links_to(zvs, zv.title)
}

/// Keep only those notes whose title matches the provided pattern
/// (anchored regex, or equality when `exact`). `None` exactly when the
/// non-exact pattern does not compile.
pub fn filter_title(zs: &Vec<Zettel>, pattern: &String, exact: bool) -> (r: Option<Vec<Zettel>>)
    ensures
        r is Some <==> (exact || regex_valid(anchored(pattern@))),
        r matches Some(v) ==> v.deep_view() == zs.deep_view().filter(
            |zv: ZettelView| title_query_matches(pattern@, zv.title, exact),
        ),
{
    let re_opt = if exact {
        None
    } else {
        let anchored_pat = concat3("^", pattern.as_str(), "$");
        match regex_new(anchored_pat.as_str()) {
            None => {
                return None;
            },
            Some(re) => Some(re),
        }
    };
    let ghost pred = |zv: ZettelView| title_query_matches(pattern@, zv.title, exact);
    let mut out: Vec<Zettel> = Vec::new();
    let mut k: usize = 0;
    proof {
        reveal(Seq::filter);
        assert(zs.deep_view().subrange(0, 0).filter(pred) =~= Seq::<ZettelView>::empty());
    }
    while k < zs.len()
        invariant
            k <= zs@.len(),
            zs.deep_view().len() == zs@.len(),
            exact <==> re_opt is None,
            re_opt matches Some(re) ==> regex_pattern(&re) == anchored(pattern@),
            pred == (|zv: ZettelView| title_query_matches(pattern@, zv.title, exact)),
            out.deep_view() == zs.deep_view().subrange(0, k as int).filter(pred),
        decreases zs@.len() - k,
    {
        let ghost pre = zs.deep_view().subrange(0, k as int);
        let ghost cur = zs.deep_view().subrange(0, k as int + 1);
        proof {
            assert(zs.deep_view()[k as int] == zs@[k as int]@);
            reveal(Seq::filter);
            assert(cur.drop_last() =~= pre);
            assert(cur.last() == zs.deep_view()[k as int]);
            assert(cur.filter(pred) == if pred(cur.last()) {
                pre.filter(pred).push(cur.last())
            } else {
                pre.filter(pred)
            });
        }
        let hit = match &re_opt {
            None => zs[k].title == *pattern,
            Some(re) => regex_is_match(re, zs[k].title.as_str()),
        };
        if hit {
            push_zettel(&mut out, zs[k].duplicate());
        }
        k = k + 1;
    }
    proof {
        assert(zs.deep_view().subrange(0, zs.deep_view().len() as int) =~= zs.deep_view());
    }
    Some(out)
}

/// Keep only those notes whose project matches the provided pattern.
pub fn filter_project(zs: &Vec<Zettel>, pattern: &String, exact: bool) -> (r: Option<Vec<Zettel>>)
    ensures
        r is Some <==> (exact || regex_valid(anchored(pattern@))),
        r matches Some(v) ==> v.deep_view() == zs.deep_view().filter(
            |zv: ZettelView| title_query_matches(pattern@, zv.project, exact),
        ),
{
    let re_opt = if exact {
        None
    } else {
        let anchored_pat = concat3("^", pattern.as_str(), "$");
        match regex_new(anchored_pat.as_str()) {
            None => {
                return None;
            },
            Some(re) => Some(re),
        }
    };
    let ghost pred = |zv: ZettelView| title_query_matches(pattern@, zv.project, exact);
    let mut out: Vec<Zettel> = Vec::new();
    let mut k: usize = 0;
    proof {
        reveal(Seq::filter);
        assert(zs.deep_view().subrange(0, 0).filter(pred) =~= Seq::<ZettelView>::empty());
    }
    while k < zs.len()
        invariant
            k <= zs@.len(),
            zs.deep_view().len() == zs@.len(),
            exact <==> re_opt is None,
            re_opt matches Some(re) ==> regex_pattern(&re) == anchored(pattern@),
            pred == (|zv: ZettelView| title_query_matches(pattern@, zv.project, exact)),
            out.deep_view() == zs.deep_view().subrange(0, k as int).filter(pred),
        decreases zs@.len() - k,
    {
        let ghost pre = zs.deep_view().subrange(0, k as int);
        let ghost cur = zs.deep_view().subrange(0, k as int + 1);
        proof {
            assert(zs.deep_view()[k as int] == zs@[k as int]@);
            reveal(Seq::filter);
            assert(cur.drop_last() =~= pre);
            assert(cur.last() == zs.deep_view()[k as int]);
            assert(cur.filter(pred) == if pred(cur.last()) {
                pre.filter(pred).push(cur.last())
            } else {
                pre.filter(pred)
            });
        }
        let hit = match &re_opt {
            None => zs[k].project == *pattern,
            Some(re) => regex_is_match(re, zs[k].project.as_str()),
        };
        if hit {
            push_zettel(&mut out, zs[k].duplicate());
        }
        k = k + 1;
    }
    proof {
        assert(zs.deep_view().subrange(0, zs.deep_view().len() as int) =~= zs.deep_view());
    }
    Some(out)
}

/// Whether some tag of the row answers the tag query.
fn any_tag_hit(tags: &Vec<String>, pattern: &String, exact: bool, re_opt: &Option<regex::Regex>) -> (r:
    bool)
    requires
        exact <==> re_opt is None,
        re_opt matches Some(re) ==> regex_pattern(&re) == tag_anchored(pattern@),
    ensures
        r == any_tag_query_matches(pattern@, tags.deep_view(), exact),
{
    let mut m: usize = 0;
    while m < tags.len()
        invariant
            m <= tags@.len(),
            tags.deep_view().len() == tags@.len(),
            exact <==> re_opt is None,
            re_opt matches Some(re) ==> regex_pattern(&re) == tag_anchored(pattern@),
            forall|w: int|
                0 <= w < m ==> !tag_query_matches(pattern@, #[trigger] tags.deep_view()[w], exact),
        decreases tags@.len() - m,
    {
        proof {
            assert(tags.deep_view()[m as int] == tags@[m as int]@);
        }
        let mut hit = tags[m] == *pattern;
        if !hit {
            if let Some(re) = re_opt {
                hit = regex_is_match(re, tags[m].as_str());
            }
        }
        if hit {
            proof {
                assert(tag_query_matches(pattern@, tags.deep_view()[m as int], exact));
            }
            return true;
        }
        m = m + 1;
    }
    false
}

/// Keep only those notes that have at least one tag (or subtag) that
/// matches the query.
pub fn filter_tag(zs: &Vec<Zettel>, pattern: &String, exact: bool) -> (r: Option<Vec<Zettel>>)
    ensures
        r is Some <==> (exact || regex_valid(tag_anchored(pattern@))),
        r matches Some(v) ==> v.deep_view() == zs.deep_view().filter(
            |zv: ZettelView| any_tag_query_matches(pattern@, zv.tags, exact),
        ),
{
    let re_opt = if exact {
        None
    } else {
        let with_head = concat3("^", pattern.as_str(), "(/.*)?$");
        match regex_new(with_head.as_str()) {
            None => {
                return None;
            },
            Some(re) => Some(re),
        }
    };
    let ghost pred = |zv: ZettelView| any_tag_query_matches(pattern@, zv.tags, exact);
    let mut out: Vec<Zettel> = Vec::new();
    let mut k: usize = 0;
    proof {
        reveal(Seq::filter);
        assert(zs.deep_view().subrange(0, 0).filter(pred) =~= Seq::<ZettelView>::empty());
    }
    while k < zs.len()
        invariant
            k <= zs@.len(),
            zs.deep_view().len() == zs@.len(),
            exact <==> re_opt is None,
            re_opt matches Some(re) ==> regex_pattern(&re) == tag_anchored(pattern@),
            pred == (|zv: ZettelView| any_tag_query_matches(pattern@, zv.tags, exact)),
            out.deep_view() == zs.deep_view().subrange(0, k as int).filter(pred),
        decreases zs@.len() - k,
    {
        let ghost pre = zs.deep_view().subrange(0, k as int);
        let ghost cur = zs.deep_view().subrange(0, k as int + 1);
        proof {
            assert(zs.deep_view()[k as int] == zs@[k as int]@);
            reveal(Seq::filter);
            assert(cur.drop_last() =~= pre);
            assert(cur.last() == zs.deep_view()[k as int]);
            assert(cur.filter(pred) == if pred(cur.last()) {
                pre.filter(pred).push(cur.last())
            } else {
                pre.filter(pred)
            });
        }
        if any_tag_hit(&zs[k].tags, pattern, exact, &re_opt) {
            push_zettel(&mut out, zs[k].duplicate());
        }
        k = k + 1;
    }
    proof {
        assert(zs.deep_view().subrange(0, zs.deep_view().len() as int) =~= zs.deep_view());
    }
    Some(out)
}

/// Keep only the notes that are both in `a` and in `b`, in `a`'s order.
pub fn intersect(a: &Vec<Zettel>, b: &Vec<Zettel>) -> (r: Vec<Zettel>)
    ensures
        r.deep_view() == a.deep_view().filter(|zv: ZettelView| b.deep_view().contains(zv)),
{
    let ghost pred = |zv: ZettelView| b.deep_view().contains(zv);
    let mut out: Vec<Zettel> = Vec::new();
    let mut k: usize = 0;
    proof {
        reveal(Seq::filter);
        assert(a.deep_view().subrange(0, 0).filter(pred) =~= Seq::<ZettelView>::empty());
    }
    while k < a.len()
        invariant
            k <= a@.len(),
            a.deep_view().len() == a@.len(),
            pred == (|zv: ZettelView| b.deep_view().contains(zv)),
            out.deep_view() == a.deep_view().subrange(0, k as int).filter(pred),
        decreases a@.len() - k,
    {
        let ghost pre = a.deep_view().subrange(0, k as int);
        let ghost cur = a.deep_view().subrange(0, k as int + 1);
        proof {
            assert(a.deep_view()[k as int] == a@[k as int]@);
            reveal(Seq::filter);
            assert(cur.drop_last() =~= pre);
            assert(cur.last() == a.deep_view()[k as int]);
            assert(cur.filter(pred) == if pred(cur.last()) {
                pre.filter(pred).push(cur.last())
            } else {
                pre.filter(pred)
            });
        }
        if contains_note(b, &a[k]) {
            push_zettel(&mut out, a[k].duplicate());
        }
        k = k + 1;
    }
    proof {
        assert(a.deep_view().subrange(0, a.deep_view().len() as int) =~= a.deep_view());
    }
    out
}

/// Whether `z`'s value occurs in `b`.
fn contains_note(b: &Vec<Zettel>, z: &Zettel) -> (r: bool)
    ensures
        r == b.deep_view().contains(z@),
{
    let mut m: usize = 0;
    while m < b.len()
        invariant
            m <= b@.len(),
            b.deep_view().len() == b@.len(),
            forall|w: int| 0 <= w < m ==> #[trigger] b.deep_view()[w] != z@,
        decreases b@.len() - m,
    {
        proof {
            assert(b.deep_view()[m as int] == b@[m as int]@);
        }
        if b[m].same_as(z) {
            proof {
                assert(b.deep_view()[m as int] == z@);
            }
            return true;
        }
        m = m + 1;
    }
    false
}

/// Whether some note of `all` matches the source pattern and links to
/// `title`.
fn linked_from_hit(
    all: &Vec<Zettel>,
    pattern: &String,
    exact: bool,
    re_opt: &Option<regex::Regex>,
    title: &String,
) -> (r: bool)
    requires
        exact <==> re_opt is None,
        re_opt matches Some(re) ==> regex_pattern(&re) == anchored(pattern@),
    ensures
        r == linked_from_any(all.deep_view(), pattern@, exact, title@),
{
    let mut f: usize = 0;
    while f < all.len()
        invariant
            f <= all@.len(),
            all.deep_view().len() == all@.len(),
            exact <==> re_opt is None,
            re_opt matches Some(re) ==> regex_pattern(&re) == anchored(pattern@),
            forall|w: int|
                0 <= w < f ==> !(title_query_matches(pattern@, (#[trigger] all.deep_view()[w]).title, exact)
                    && all.deep_view()[w].links.contains(title@)),
        decreases all@.len() - f,
    {
        proof {
            assert(all.deep_view()[f as int] == all@[f as int]@);
        }
        let src_hit = match re_opt {
            None => all[f].title == *pattern,
            Some(re) => regex_is_match(re, all[f].title.as_str()),
        };
        if src_hit {
            if links_contain(&all[f].links, title) {
                proof {
                    assert(title_query_matches(pattern@, all.deep_view()[f as int].title, exact)
                        && all.deep_view()[f as int].links.contains(title@));
                }
                return true;
            }
        }
        f = f + 1;
    }
    false
}

/// Whether the link list carries exactly this title.
pub fn links_contain(links: &Vec<String>, title: &String) -> (r: bool)
    ensures
        r == links.deep_view().contains(title@),
{
    let mut m: usize = 0;
    while m < links.len()
        invariant
            m <= links@.len(),
            links.deep_view().len() == links@.len(),
            forall|w: int| 0 <= w < m ==> #[trigger] links.deep_view()[w] != title@,
        decreases links@.len() - m,
    {
        proof {
            assert(links.deep_view()[m as int] == links@[m as int]@);
        }
        if links[m] == *title {
            proof {
                assert(links.deep_view()[m as int] == title@);
            }
            return true;
        }
        m = m + 1;
    }
    false
}

/// Return all the notes that are linked to by the pattern-matched notes.
pub fn fwlinks(all: &Vec<Zettel>, linked_from: &String, exact: bool) -> (r: Option<Vec<Zettel>>)
    ensures
        r is Some <==> (exact || regex_valid(anchored(linked_from@))),
        r matches Some(v) ==> v.deep_view() == all.deep_view().filter(
            |zv: ZettelView| linked_from_any(all.deep_view(), linked_from@, exact, zv.title),
        ),
{
    let re_opt = if exact {
        None
    } else {
        let anchored_pat = concat3("^", linked_from.as_str(), "$");
        match regex_new(anchored_pat.as_str()) {
            None => {
                return None;
            },
            Some(re) => Some(re),
        }
    };
    let ghost pred = |zv: ZettelView| linked_from_any(all.deep_view(), linked_from@, exact, zv.title);
    let mut out: Vec<Zettel> = Vec::new();
    let mut k: usize = 0;
    proof {
        reveal(Seq::filter);
        assert(all.deep_view().subrange(0, 0).filter(pred) =~= Seq::<ZettelView>::empty());
    }
    while k < all.len()
        invariant
            k <= all@.len(),
            all.deep_view().len() == all@.len(),
            exact <==> re_opt is None,
            re_opt matches Some(re) ==> regex_pattern(&re) == anchored(linked_from@),
            pred == (|zv: ZettelView| linked_from_any(
                all.deep_view(),
                linked_from@,
                exact,
                zv.title,
            )),
            out.deep_view() == all.deep_view().subrange(0, k as int).filter(pred),
        decreases all@.len() - k,
    {
        let ghost pre = all.deep_view().subrange(0, k as int);
        let ghost cur = all.deep_view().subrange(0, k as int + 1);
        proof {
            assert(all.deep_view()[k as int] == all@[k as int]@);
            reveal(Seq::filter);
            assert(cur.drop_last() =~= pre);
            assert(cur.last() == all.deep_view()[k as int]);
            assert(cur.filter(pred) == if pred(cur.last()) {
                pre.filter(pred).push(cur.last())
            } else {
                pre.filter(pred)
            });
        }
        if linked_from_hit(all, linked_from, exact, &re_opt, &all[k].title) {
            push_zettel(&mut out, all[k].duplicate());
        }
        k = k + 1;
    }
    proof {
        assert(all.deep_view().subrange(0, all.deep_view().len() as int) =~= all.deep_view());
    }
    Some(out)
}

/// Whether some link of the row answers the backlink query.
fn any_link_hit(
    links: &Vec<String>,
    pattern: &String,
    exact: bool,
    re_opt: &Option<regex::Regex>,
) -> (r: bool)
    requires
        exact <==> re_opt is None,
        re_opt matches Some(re) ==> regex_pattern(&re) == anchored(pattern@),
    ensures
        r == any_link_query_matches(pattern@, links.deep_view(), exact),
{
    let mut m: usize = 0;
    while m < links.len()
        invariant
            m <= links@.len(),
            links.deep_view().len() == links@.len(),
            exact <==> re_opt is None,
            re_opt matches Some(re) ==> regex_pattern(&re) == anchored(pattern@),
            forall|w: int|
                0 <= w < m ==> !link_query_matches(pattern@, #[trigger] links.deep_view()[w], exact),
        decreases links@.len() - m,
    {
        proof {
            assert(links.deep_view()[m as int] == links@[m as int]@);
        }
        let mut hit = links[m] == *pattern;
        if !hit {
            if let Some(re) = re_opt {
                hit = regex_is_match(re, links[m].as_str());
            }
        }
        if hit {
            proof {
                assert(link_query_matches(pattern@, links.deep_view()[m as int], exact));
            }
            return true;
        }
        m = m + 1;
    }
    false
}

/// Return all the notes that link to the given title/pattern, within the
/// provided list of notes.
pub fn backlinks(all: &Vec<Zettel>, links_to: &String, exact: bool) -> (r: Option<Vec<Zettel>>)
    ensures
        r is Some <==> (exact || regex_valid(anchored(links_to@))),
        r matches Some(v) ==> v.deep_view() == all.deep_view().filter(
            |zv: ZettelView| any_link_query_matches(links_to@, zv.links, exact),
        ),
{
    let re_opt = if exact {
        None
    } else {
        let anchored_pat = concat3("^", links_to.as_str(), "$");
        match regex_new(anchored_pat.as_str()) {
            None => {
                return None;
            },
            Some(re) => Some(re),
        }
    };
    let ghost pred = |zv: ZettelView| any_link_query_matches(links_to@, zv.links, exact);
    let mut out: Vec<Zettel> = Vec::new();
    let mut k: usize = 0;
    proof {
        reveal(Seq::filter);
        assert(all.deep_view().subrange(0, 0).filter(pred) =~= Seq::<ZettelView>::empty());
    }
    while k < all.len()
        invariant
            k <= all@.len(),
            all.deep_view().len() == all@.len(),
            exact <==> re_opt is None,
            re_opt matches Some(re) ==> regex_pattern(&re) == anchored(links_to@),
            pred == (|zv: ZettelView| any_link_query_matches(links_to@, zv.links, exact)),
            out.deep_view() == all.deep_view().subrange(0, k as int).filter(pred),
        decreases all@.len() - k,
    {
        let ghost pre = all.deep_view().subrange(0, k as int);
        let ghost cur = all.deep_view().subrange(0, k as int + 1);
        proof {
            assert(all.deep_view()[k as int] == all@[k as int]@);
            reveal(Seq::filter);
            assert(cur.drop_last() =~= pre);
            assert(cur.last() == all.deep_view()[k as int]);
            assert(cur.filter(pred) == if pred(cur.last()) {
                pre.filter(pred).push(cur.last())
            } else {
                pre.filter(pred)
            });
        }
        if any_link_hit(&all[k].links, links_to, exact, &re_opt) {
            push_zettel(&mut out, all[k].duplicate());
        }
        k = k + 1;
    }
    proof {
        assert(all.deep_view().subrange(0, all.deep_view().len() as int) =~= all.deep_view());
    }
    Some(out)
}

/// The first match of the case-insensitive pattern in one note's text,
/// or the empty string when nothing matches. `None` exactly when the
/// pattern does not compile.
pub fn find_pattern_in(contents: &str, pattern: &String) -> (r: Option<String>)
    ensures
        r is Some <==> regex_valid(ci_pattern(pattern@)),
        r matches Some(m) ==> m@ == (match regex_first_match(ci_pattern(pattern@), contents@) {
            Some(t) => t,
            None => Seq::<char>::empty(),
        }),
{
    let ci = concat2("(?i)", pattern.as_str());
    let re = match regex_new(ci.as_str()) {
        None => {
            return None;
        },
        Some(re) => re,
    };
    match regex_find(&re, contents) {
        Some(m) => Some(m),
        None => {
            let empty = String::new();
            proof {
                assert(empty@ =~= Seq::<char>::empty());
            }
            Some(empty)
        },
    }
}

/// The notes among the first `k` whose text the case-insensitive
/// pattern matches somewhere.
pub open spec fn text_hits_notes(
    zvs: Seq<ZettelView>,
    cs: Seq<Seq<char>>,
    p: Seq<char>,
    k: int,
) -> Seq<ZettelView>
    decreases k when k >= 0
{
    if k <= 0 {
        Seq::empty()
    } else {
        let prev = text_hits_notes(zvs, cs, p, k - 1);
        if regex_first_match(ci_pattern(p), cs[k - 1]) is Some {
            prev.push(zvs[k - 1])
        } else {
            prev
        }
    }
}

/// The matched substrings that go with `text_hits_notes`, in the same
/// order.
pub open spec fn text_hits_texts(
    zvs: Seq<ZettelView>,
    cs: Seq<Seq<char>>,
    p: Seq<char>,
    k: int,
) -> Seq<Seq<char>>
    decreases k when k >= 0
{
    if k <= 0 {
        Seq::empty()
    } else {
        let prev = text_hits_texts(zvs, cs, p, k - 1);
        match regex_first_match(ci_pattern(p), cs[k - 1]) {
            Some(m) => prev.push(m),
            None => prev,
        }
    }
}

/// Keep only those notes whose text contains the case-insensitive
/// pattern, paired with the substring each note matched. `contents[k]`
/// is the text of note `zs[k]`, as read by the caller. `None` exactly
/// when the pattern does not compile.
pub fn filter_text(zs: &Vec<Zettel>, contents: &Vec<String>, pattern: &String) -> (r: Option<
    (Vec<Zettel>, Vec<String>),
>)
    requires
        contents@.len() == zs@.len(),
    ensures
        r is Some <==> regex_valid(ci_pattern(pattern@)),
        r matches Some(pair) ==> pair.0.deep_view() == text_hits_notes(
            zs.deep_view(),
            contents.deep_view(),
            pattern@,
            zs@.len() as int,
        ) && pair.1.deep_view() == text_hits_texts(
            zs.deep_view(),
            contents.deep_view(),
            pattern@,
            zs@.len() as int,
        ),
{
    let ci = concat2("(?i)", pattern.as_str());
    let re = match regex_new(ci.as_str()) {
        None => {
            return None;
        },
        Some(re) => re,
    };
    let mut found: Vec<Zettel> = Vec::new();
    let mut texts: Vec<String> = Vec::new();
    let mut k: usize = 0;
    proof {
        assert(found.deep_view() =~= text_hits_notes(
            zs.deep_view(),
            contents.deep_view(),
            pattern@,
            0,
        ));
        assert(texts.deep_view() =~= text_hits_texts(
            zs.deep_view(),
            contents.deep_view(),
            pattern@,
            0,
        ));
    }
    while k < zs.len()
        invariant
            k <= zs@.len(),
            contents@.len() == zs@.len(),
            zs.deep_view().len() == zs@.len(),
            contents.deep_view().len() == zs@.len(),
            regex_pattern(&re) == ci_pattern(pattern@),
            found.deep_view() == text_hits_notes(
                zs.deep_view(),
                contents.deep_view(),
                pattern@,
                k as int,
            ),
            texts.deep_view() == text_hits_texts(
                zs.deep_view(),
                contents.deep_view(),
                pattern@,
                k as int,
            ),
        decreases zs@.len() - k,
    {
        proof {
            assert(zs.deep_view()[k as int] == zs@[k as int]@);
            assert(contents.deep_view()[k as int] == contents@[k as int]@);
        }
        match regex_find(&re, contents[k].as_str()) {
            Some(m) => {
                push_zettel(&mut found, zs[k].duplicate());
                push_string(&mut texts, m);
            },
            None => {},
        }
        k = k + 1;
        proof {
            assert(found.deep_view() =~= text_hits_notes(
                zs.deep_view(),
                contents.deep_view(),
                pattern@,
                k as int,
            ));
            assert(texts.deep_view() =~= text_hits_texts(
                zs.deep_view(),
                contents.deep_view(),
                pattern@,
                k as int,
            ));
        }
    }
    Some((found, texts))
}

/// Keep only those notes that neither link to other notes, nor have
/// links pointing to them from `all`.
pub fn filter_isolated(zs: &Vec<Zettel>, all: &Vec<Zettel>) -> (r: Vec<Zettel>)
    ensures
        r.deep_view() == zs.deep_view().filter(
            |zv: ZettelView| is_isolated(zv, all.deep_view()),
        ),
{
    let ghost pred = |zv: ZettelView| is_isolated(zv, all.deep_view());
    let mut out: Vec<Zettel> = Vec::new();
    let mut k: usize = 0;
    proof {
        reveal(Seq::filter);
        assert(zs.deep_view().subrange(0, 0).filter(pred) =~= Seq::<ZettelView>::empty());
    }
    while k < zs.len()
        invariant
            k <= zs@.len(),
            zs.deep_view().len() == zs@.len(),
            pred == (|zv: ZettelView| is_isolated(zv, all.deep_view())),
            out.deep_view() == zs.deep_view().subrange(0, k as int).filter(pred),
        decreases zs@.len() - k,
    {
        let ghost pre = zs.deep_view().subrange(0, k as int);
        let ghost cur = zs.deep_view().subrange(0, k as int + 1);
        proof {
            assert(zs.deep_view()[k as int] == zs@[k as int]@);
            reveal(Seq::filter);
            assert(cur.drop_last() =~= pre);
            assert(cur.last() == zs.deep_view()[k as int]);
            assert(cur.filter(pred) == if pred(cur.last()) {
                pre.filter(pred).push(cur.last())
            } else {
                pre.filter(pred)
            });
        }
        if zs[k].links.len() == 0 && !somebody_links_to(all, &zs[k].title) {
            push_zettel(&mut out, zs[k].duplicate());
        }
        k = k + 1;
    }
    proof {
        assert(zs.deep_view().subrange(0, zs.deep_view().len() as int) =~= zs.deep_view());
    }
    out
}

/// Whether some note of `all` links to exactly this title.
pub fn somebody_links_to(all: &Vec<Zettel>, title: &String) -> (r: bool)
    ensures
        r == some_links_to(all.deep_view(), title@),
{
    let mut f: usize = 0;
    while f < all.len()
        invariant
            f <= all@.len(),
            all.deep_view().len() == all@.len(),
            forall|w: int|
                0 <= w < f ==> !(#[trigger] all.deep_view()[w]).links.contains(title@),
        decreases all@.len() - f,
    {
        proof {
            assert(all.deep_view()[f as int] == all@[f as int]@);
        }
        if links_contain(&all[f].links, title) {
            proof {
                assert((all.deep_view()[f as int]).links.contains(title@));
            }
            return true;
        }
        f = f + 1;
    }
    false
}

/// The titles of the notes in `all` that link to exactly `title`
/// (the note's backlinks), in `all`'s order.
pub fn backlink_titles(all: &Vec<Zettel>, title: &String) -> (r: Vec<String>)
    ensures
        r.deep_view() == all.deep_view().filter(
            |zv: ZettelView| zv.links.contains(title@),
        ).map_values(|zv: ZettelView| zv.title),
{
    let ghost pred = |zv: ZettelView| zv.links.contains(title@);
    let ghost f = |zv: ZettelView| zv.title;
    let mut out: Vec<String> = Vec::new();
    let mut k: usize = 0;
    proof {
        reveal(Seq::filter);
        assert(all.deep_view().subrange(0, 0).filter(pred) =~= Seq::<ZettelView>::empty());
        assert(all.deep_view().subrange(0, 0).filter(pred).map_values(f) =~= Seq::<
            Seq<char>,
        >::empty());
        assert(out.deep_view() =~= Seq::<Seq<char>>::empty());
    }
    while k < all.len()
        invariant
            k <= all@.len(),
            all.deep_view().len() == all@.len(),
            pred == (|zv: ZettelView| zv.links.contains(title@)),
            f == (|zv: ZettelView| zv.title),
            out.deep_view() == all.deep_view().subrange(0, k as int).filter(pred).map_values(f),
        decreases all@.len() - k,
    {
        let ghost pre = all.deep_view().subrange(0, k as int);
        let ghost cur = all.deep_view().subrange(0, k as int + 1);
        proof {
            assert(all.deep_view()[k as int] == all@[k as int]@);
            reveal(Seq::filter);
            assert(cur.drop_last() =~= pre);
            assert(cur.last() == all.deep_view()[k as int]);
            assert(cur.filter(pred) == if pred(cur.last()) {
                pre.filter(pred).push(cur.last())
            } else {
                pre.filter(pred)
            });
            if pred(cur.last()) {
                assert(cur.filter(pred).map_values(f) =~= pre.filter(pred).map_values(f).push(
                    f(cur.last()),
                ));
            }
        }
        if links_contain(&all[k].links, title) {
            push_string(&mut out, all[k].title.clone());
        }
        k = k + 1;
    }
    proof {
        assert(all.deep_view().subrange(0, all.deep_view().len() as int) =~= all.deep_view());
    }
    out
}

} // verus!
