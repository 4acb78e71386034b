//! Formatted text output: token substitution per note, link joining, and
//! title ordering.

use vstd::prelude::*;
use vstd::string::StringExecFns;
use crate::config::ConfigOptions;
use crate::order::{lex_lt, lemma_lex_lt_asymmetric, str_lt};
use crate::queries::backlink_titles;
use crate::strutil::{chars_of, push_string, string_from_chars};
use crate::zettel::{spec_filename, Zettel, ZettelView};

verus! {

/// `s` from position `i` on, with every occurrence of `pat` replaced by
/// `val`, scanning left to right and never rescanning replacements.
pub open spec fn replace_from(s: Seq<char>, i: int, pat: Seq<char>, val: Seq<char>) -> Seq<char>
    decreases s.len() - i when 0 <= i && pat.len() > 0
{
    if i >= s.len() {
        Seq::empty()
    } else if i + pat.len() <= s.len() && s.subrange(i, i + pat.len() as int) == pat {
        val + replace_from(s, i + pat.len() as int, pat, val)
    } else {
        seq![s[i]] + replace_from(s, i + 1, pat, val)
    }
}

/// `s` with every occurrence of `pat` replaced by `val`.
pub open spec fn spec_replace(s: Seq<char>, pat: Seq<char>, val: Seq<char>) -> Seq<char> {
    replace_from(s, 0, pat, val)
}

/// Whether `pat` occurs in `cs` starting at `i`.
fn matches_at(cs: &Vec<char>, i: usize, pat: &Vec<char>) -> (r: bool)
    requires
        i <= cs@.len(),
    ensures
        r == (i + pat@.len() <= cs@.len() && cs@.subrange(i as int, i + pat@.len() as int)
            == pat@),
{
    if pat.len() > cs.len() - i {
        return false;
    }
    let mut m: usize = 0;
    while m < pat.len()
        invariant
            i + pat@.len() <= cs@.len(),
            cs@.len() <= usize::MAX,
            m <= pat@.len(),
            forall|w: int| 0 <= w < m ==> cs@[i + w] == pat@[w],
        decreases pat@.len() - m,
    {
        proof {
            assert(i + m < cs@.len());
        }
        if cs[i + m] != pat[m] {
            proof {
                assert(cs@.subrange(i as int, i + pat@.len() as int)[m as int] == cs@[i + m]);
            }
            return false;
        }
        m = m + 1;
    }
    proof {
        assert(cs@.subrange(i as int, i + pat@.len() as int) =~= pat@);
    }
    true
}

/// Replace every occurrence of `pat` in `s` by `val`.
pub fn replace_str(s: &str, pat: &str, val: &str) -> (r: String)
    requires
        pat@.len() > 0,
    ensures
        r@ == spec_replace(s@, pat@, val@),
{
    let cs = chars_of(s);
    let pv = chars_of(pat);
    let vv = chars_of(val);
    let mut out: Vec<char> = Vec::new();
    let mut i: usize = 0;
    while i < cs.len()
        invariant
            i <= cs@.len(),
            cs@ == s@,
            pv@ == pat@,
            vv@ == val@,
            pat@.len() > 0,
            out@ + replace_from(s@, i as int, pat@, val@) == replace_from(s@, 0, pat@, val@),
        decreases cs@.len() - i,
    {
        let ghost i0 = i as int;
        if matches_at(&cs, i, &pv) {
            crate::strutil::push_all_chars(&mut out, &vv);
            proof {
                assert(out@ + replace_from(s@, i0 + pat@.len() as int, pat@, val@) =~= replace_from(
                    s@,
                    0,
                    pat@,
                    val@,
                ));
            }
            i = i + pv.len();
        } else {
            out.push(cs[i]);
            proof {
                assert(out@ + replace_from(s@, i0 + 1, pat@, val@) =~= replace_from(
                    s@,
                    0,
                    pat@,
                    val@,
                ));
            }
            i = i + 1;
        }
    }
    proof {
        assert(out@ =~= out@ + replace_from(s@, cs@.len() as int, pat@, val@));
        assert(out@ =~= replace_from(s@, 0, pat@, val@));
    }
    string_from_chars(&out)
}

/// The elements joined with the separator between each two.
pub open spec fn spec_join(items: Seq<Seq<char>>, sep: Seq<char>) -> Seq<char>
    decreases items.len(),
{
    if items.len() == 0 {
        Seq::empty()
    } else if items.len() == 1 {
        items[0]
    } else {
        spec_join(items.drop_last(), sep) + sep + items.last()
    }
}

/// Join the strings with the separator between each two.
pub fn join_strings(items: &Vec<String>, sep: &String) -> (r: String)
    ensures
        r@ == spec_join(items.deep_view(), sep@),
{
    let mut r = String::new();
    let mut k: usize = 0;
    proof {
        assert(items.deep_view().len() == items@.len());
    }
    while k < items.len()
        invariant
            k <= items@.len(),
            items.deep_view().len() == items@.len(),
            r@ == spec_join(items.deep_view().subrange(0, k as int), sep@),
        decreases items@.len() - k,
    {
        proof {
            assert(items.deep_view()[k as int] == items@[k as int]@);
        }
        if k > 0 {
            r.append(sep.as_str());
        }
        r.append(items[k].as_str());
        k = k + 1;
        proof {
            let cur = items.deep_view().subrange(0, k as int);
            assert(cur.drop_last() =~= items.deep_view().subrange(0, k - 1));
            assert(cur.last() == items.deep_view()[k - 1]);
            assert(r@ =~= spec_join(cur, sep@));
        }
    }
    proof {
        assert(items.deep_view().subrange(0, items.deep_view().len() as int) =~= items.deep_view());
    }
    r
}

/// Replace the escape spellings `\n` and `\t` by the characters they
/// name, as command-line arguments carry them.
pub fn replace_literals(s: &str) -> (r: String)
    ensures
        r@ == spec_replace(spec_replace(s@, "\\n"@, "\n"@), "\\t"@, "\t"@),
{
    proof {
        reveal_strlit("\\n");
        reveal_strlit("\\t");
    }
    let first = replace_str(s, "\\n", "\n");
    replace_str(first.as_str(), "\\t", "\t")
}

/// One formatted output line for a note: the format with `%t` replaced
/// by the title, `%p` by the project, `%P` by the path, `%l` by the
/// joined links, `%a` by the additional text, and `%b` by the joined
/// backlinks, in that order.
pub open spec fn spec_format_line(
    fmt: Seq<char>,
    zv: ZettelView,
    root: Seq<char>,
    links_joined: Seq<char>,
    additional: Seq<char>,
    backlinks_joined: Seq<char>,
) -> Seq<char> {
    let t1 = spec_replace(fmt, "%t"@, zv.title);
    let t2 = spec_replace(t1, "%p"@, zv.project);
    let t3 = spec_replace(t2, "%P"@, spec_filename(root, zv.project, zv.title));
    let t4 = spec_replace(t3, "%l"@, links_joined);
    let t5 = spec_replace(t4, "%a"@, additional);
    spec_replace(t5, "%b"@, backlinks_joined)
}

/// Notes are in title order: no title is above its successor's.
pub open spec fn titles_sorted(zs: Seq<ZettelView>) -> bool {
    forall|k: int| 0 <= k < zs.len() - 1 ==> !lex_lt(#[trigger] zs[k + 1].title, zs[k].title)
}

/// The note/text pairs, for comparing arrangements.
pub open spec fn pair_seq(zs: Seq<ZettelView>, ads: Seq<Seq<char>>) -> Seq<(ZettelView, Seq<char>)>
    recommends
        zs.len() == ads.len(),
{
    Seq::new(zs.len(), |i: int| (zs[i], ads[i]))
}

/// A printer that prints. It renders notes through a token-substitution
/// format, one line per note, in title order.
pub struct Printer {
    pub zettel: Vec<Zettel>,
    pub additional: Vec<String>,
    pub format: String,
    pub link_separator: String,
}

impl Default for Printer {
    /// The stock printer: `[project] title`, links joined by `|`.
    fn default() -> (r: Printer)
        ensures
            r.zettel@.len() == 0,
            r.additional@.len() == 0,
            r.format@ == "[%p] %t"@,
            r.link_separator@ == "|"@,
    {
        Printer {
            zettel: Vec::new(),
            additional: Vec::new(),
            format: String::from_str("[%p] %t"),
            link_separator: String::from_str("|"),
        }
    }
}

impl Printer {
    pub fn set_zettelkasten(&mut self, new_zettel: Vec<Zettel>)
        ensures
            final(self).zettel == new_zettel,
            final(self).additional == old(self).additional,
            final(self).format == old(self).format,
            final(self).link_separator == old(self).link_separator,
    {
        self.zettel = new_zettel;
    }

    pub fn set_additional(&mut self, new_additional: Vec<String>)
        ensures
            final(self).additional == new_additional,
            final(self).zettel == old(self).zettel,
            final(self).format == old(self).format,
            final(self).link_separator == old(self).link_separator,
    {
        self.additional = new_additional;
    }

    pub fn set_format(&mut self, new_format: String)
        ensures
            final(self).format == new_format,
            final(self).zettel == old(self).zettel,
            final(self).additional == old(self).additional,
            final(self).link_separator == old(self).link_separator,
    {
        self.format = new_format;
    }

    pub fn set_link_separator(&mut self, new_separator: String)
        ensures
            final(self).link_separator == new_separator,
            final(self).zettel == old(self).zettel,
            final(self).additional == old(self).additional,
            final(self).format == old(self).format,
    {
        self.link_separator = new_separator;
    }

    /// The output lines, in title order: for the note at sorted position
    /// `k` with additional text `a`, the formatted line over the joined
    /// links and backlinks. Backlinks are drawn from the printed set
    /// itself, as the notes handed to the printer are what the query
    /// selected.
    pub fn render(&self, cfg: &ConfigOptions) -> (r: Vec<String>)
        ensures
            r@.len() == self.zettel@.len(),
            exists|sz: Seq<ZettelView>, sa: Seq<Seq<char>>|
                #![auto]
                rendering_of(
                    r.deep_view(),
                    sz,
                    sa,
                    self.zettel.deep_view(),
                    self.additional.deep_view(),
                    self.format@,
                    self.link_separator@,
                    cfg.zettelkasten@,
                ),
    {
        // pad the additional texts so that the zip loses nothing
        let mut ads: Vec<String> = Vec::new();
        let mut k: usize = 0;
        proof {
            assert(self.additional.deep_view().len() == self.additional@.len());
        }
        while k < self.zettel.len()
            invariant
                k <= self.zettel@.len(),
                ads@.len() == k,
                self.additional.deep_view().len() == self.additional@.len(),
                forall|w: int|
                    0 <= w < k ==> #[trigger] ads.deep_view()[w] == padded_texts(
                        self.additional.deep_view(),
                        self.zettel@.len() as int,
                    )[w],
            decreases self.zettel@.len() - k,
        {
            proof {
                if k < self.additional@.len() {
                    assert(self.additional.deep_view()[k as int] == self.additional@[k as int]@);
                }
            }
            if k < self.additional.len() {
                push_string(&mut ads, self.additional[k].clone());
            } else {
                push_string(&mut ads, String::new());
            }
            k = k + 1;
        }
        proof {
            assert(ads.deep_view() =~= padded_texts(
                self.additional.deep_view(),
                self.zettel@.len() as int,
            ));
            assert(ads@.len() == self.zettel@.len());
        }
        let (sorted_z, sorted_a) = sort_by_title(&self.zettel, &ads);
        let mut out: Vec<String> = Vec::new();
        let mut m: usize = 0;
        while m < sorted_z.len()
            invariant
                m <= sorted_z@.len(),
                sorted_a@.len() == sorted_z@.len(),
                sorted_z.deep_view().len() == sorted_z@.len(),
                sorted_a.deep_view().len() == sorted_z@.len(),
                out@.len() == m,
                forall|w: int|
                    0 <= w < m ==> #[trigger] out.deep_view()[w] == line_for(
                        sorted_z.deep_view(),
                        sorted_a.deep_view(),
                        w,
                        self.format@,
                        self.link_separator@,
                        cfg.zettelkasten@,
                    ),
            decreases sorted_z@.len() - m,
        {
            proof {
                assert(sorted_z.deep_view()[m as int] == sorted_z@[m as int]@);
                assert(sorted_a.deep_view()[m as int] == sorted_a@[m as int]@);
            }
            let z = &sorted_z[m];
            let bl = backlink_titles(&sorted_z, &z.title);
            let line = format_line(
                &self.format,
                z,
                cfg,
                &self.link_separator,
                &sorted_a[m],
                &bl,
            );
            push_string(&mut out, line);
            m = m + 1;
        }
        proof {
            let sz = sorted_z.deep_view();
            let sa = sorted_a.deep_view();
            assert(rendering_of(
                out.deep_view(),
                sz,
                sa,
                self.zettel.deep_view(),
                self.additional.deep_view(),
                self.format@,
                self.link_separator@,
                cfg.zettelkasten@,
            ));
        }
        out
    }
}

/// The additional texts, padded with empty strings up to the note
/// count.
pub open spec fn padded_texts(ads: Seq<Seq<char>>, n: int) -> Seq<Seq<char>> {
    Seq::new(n as nat, |i: int| if i < ads.len() { ads[i] } else { Seq::<char>::empty() })
}

/// The output line for position `w` of the sorted arrangement: the
/// note formatted with its joined links and its backlinks among the
/// printed notes.
pub open spec fn line_for(
    sz: Seq<ZettelView>,
    sa: Seq<Seq<char>>,
    w: int,
    fmt: Seq<char>,
    sep: Seq<char>,
    root: Seq<char>,
) -> Seq<char> {
    spec_format_line(
        fmt,
        sz[w],
        root,
        spec_join(sz[w].links, sep),
        sa[w],
        spec_join(
            sz.filter(|zv: ZettelView| zv.links.contains(sz[w].title)).map_values(
                |zv: ZettelView| zv.title,
            ),
            sep,
        ),
    )
}

/// What the printer guarantees of its output: the lines render a
/// title-sorted arrangement of exactly the note/text pairs handed in
/// (texts padded with empty strings), one formatted line per note.
pub open spec fn rendering_of(
    lines: Seq<Seq<char>>,
    sz: Seq<ZettelView>,
    sa: Seq<Seq<char>>,
    zettel: Seq<ZettelView>,
    additional: Seq<Seq<char>>,
    fmt: Seq<char>,
    sep: Seq<char>,
    root: Seq<char>,
) -> bool {
    &&& sz.len() == zettel.len()
    &&& sa.len() == zettel.len()
    &&& lines.len() == zettel.len()
    &&& titles_sorted(sz)
    &&& pair_seq(sz, sa).to_multiset() == pair_seq(
        zettel,
        padded_texts(additional, zettel.len() as int),
    ).to_multiset()
    &&& forall|w: int| 0 <= w < lines.len() ==> #[trigger] lines[w] == line_for(sz, sa, w, fmt, sep, root)
}

/// Render one note through the format string.
pub fn format_line(
    fmt: &String,
    z: &Zettel,
    cfg: &ConfigOptions,
    link_sep: &String,
    additional: &String,
    backlinks: &Vec<String>,
) -> (r: String)
    ensures
        r@ == spec_format_line(
            fmt@,
            z@,
            cfg.zettelkasten@,
            spec_join(z@.links, link_sep@),
            additional@,
            spec_join(backlinks.deep_view(), link_sep@),
        ),
{
    proof {
        reveal_strlit("%t");
        reveal_strlit("%p");
        reveal_strlit("%P");
        reveal_strlit("%l");
        reveal_strlit("%a");
        reveal_strlit("%b");
    }
    let path = z.filename(cfg);
    let links_joined = join_strings(&z.links, link_sep);
    let backlinks_joined = join_strings(backlinks, link_sep);
    let t1 = replace_str(fmt.as_str(), "%t", z.title.as_str());
    let t2 = replace_str(t1.as_str(), "%p", z.project.as_str());
    let t3 = replace_str(t2.as_str(), "%P", path.as_str());
    let t4 = replace_str(t3.as_str(), "%l", links_joined.as_str());
    let t5 = replace_str(t4.as_str(), "%a", additional.as_str());
    replace_str(t5.as_str(), "%b", backlinks_joined.as_str())
}

/// The sequence with a pair inserted keeps exactly its members, once
/// more the inserted one.
proof fn lemma_multiset_insert_mid<A>(s: Seq<A>, pos: int, x: A)
    requires
        0 <= pos <= s.len(),
    ensures
        s.insert(pos, x).to_multiset() == s.to_multiset().insert(x),
{
    broadcast use vstd::seq_lib::group_to_multiset_ensures;

    let s2 = s.insert(pos, x);
    s.insert_ensures(pos, x);
    assert(s2.remove(pos) =~= s);
    assert(s2.remove(pos).to_multiset() =~= s2.to_multiset().remove(s2[pos]));
    assert(s2.to_multiset().count(x) > 0) by {
        assert(s2[pos] == x);
        assert(s2.contains(x));
    }
    assert(s2.to_multiset() =~= s2.to_multiset().remove(x).insert(x));
    assert(s.to_multiset().insert(x) =~= s2.to_multiset());
}

/// Arrange the notes in title order, carrying each note's additional
/// text along with it: the pairs that come out are the pairs that went
/// in.
pub fn sort_by_title(zettel: &Vec<Zettel>, additional: &Vec<String>) -> (r: (
    Vec<Zettel>,
    Vec<String>,
))
    requires
        additional@.len() == zettel@.len(),
    ensures
        r.0@.len() == zettel@.len(),
        r.1@.len() == zettel@.len(),
        titles_sorted(r.0.deep_view()),
        pair_seq(r.0.deep_view(), r.1.deep_view()).to_multiset() == pair_seq(
            zettel.deep_view(),
            additional.deep_view(),
        ).to_multiset(),
{
    let mut out_z: Vec<Zettel> = Vec::new();
    let mut out_a: Vec<String> = Vec::new();
    let mut k: usize = 0;
    proof {
        broadcast use vstd::seq_lib::group_to_multiset_ensures;

        assert(pair_seq(out_z.deep_view(), out_a.deep_view()) =~= Seq::<
            (ZettelView, Seq<char>),
        >::empty());
        assert(pair_seq(zettel.deep_view(), additional.deep_view()).subrange(0, 0) =~= Seq::<
            (ZettelView, Seq<char>),
        >::empty());
    }
    while k < zettel.len()
        invariant
            k <= zettel@.len(),
            additional@.len() == zettel@.len(),
            zettel.deep_view().len() == zettel@.len(),
            additional.deep_view().len() == zettel@.len(),
            out_z@.len() == k,
            out_a@.len() == k,
            out_z.deep_view().len() == k,
            out_a.deep_view().len() == k,
            titles_sorted(out_z.deep_view()),
            pair_seq(out_z.deep_view(), out_a.deep_view()).to_multiset() == pair_seq(
                zettel.deep_view(),
                additional.deep_view(),
            ).subrange(0, k as int).to_multiset(),
        decreases zettel@.len() - k,
    {
        let z = zettel[k].duplicate();
        let a = additional[k].clone();
        proof {
            assert(zettel.deep_view()[k as int] == zettel@[k as int]@);
            assert(additional.deep_view()[k as int] == additional@[k as int]@);
        }
        insert_pair_sorted(&mut out_z, &mut out_a, z, a);
        k = k + 1;
        proof {
            broadcast use vstd::seq_lib::group_to_multiset_ensures;

            let full = pair_seq(zettel.deep_view(), additional.deep_view());
            let cur = full.subrange(0, k as int);
            assert(cur.drop_last() =~= full.subrange(0, k - 1));
            assert(cur.last() == full[k - 1]);
            assert(cur =~= cur.drop_last().push(cur.last()));
            assert(cur.to_multiset() =~= cur.drop_last().to_multiset().insert(cur.last()));
        }
    }
    proof {
        let full = pair_seq(zettel.deep_view(), additional.deep_view());
        assert(full.subrange(0, full.len() as int) =~= full);
    }
    (out_z, out_a)
}

/// Insert one note/text pair into the title-ordered arrangement.
fn insert_pair_sorted(out_z: &mut Vec<Zettel>, out_a: &mut Vec<String>, z: Zettel, a: String)
    requires
        old(out_z)@.len() == old(out_a)@.len(),
        titles_sorted(old(out_z).deep_view()),
    ensures
        final(out_z)@.len() == old(out_z)@.len() + 1,
        final(out_a)@.len() == old(out_a)@.len() + 1,
        titles_sorted(final(out_z).deep_view()),
        pair_seq(final(out_z).deep_view(), final(out_a).deep_view()).to_multiset() == pair_seq(
            old(out_z).deep_view(),
            old(out_a).deep_view(),
        ).to_multiset().insert((z@, a@)),
{
    let ghost dvz0 = out_z.deep_view();
    let ghost dva0 = out_a.deep_view();
    let ghost zv = z@;
    let ghost av = a@;
    let mut pos: usize = 0;
    while pos < out_z.len() && !str_lt(&z.title, &out_z[pos].title)
        invariant
            out_z.deep_view() == dvz0,
            out_z@.len() == dvz0.len(),
            z@ == zv,
            pos <= dvz0.len(),
            forall|w: int| 0 <= w < pos ==> !lex_lt(zv.title, (#[trigger] dvz0[w]).title),
        decreases dvz0.len() - pos,
    {
        proof {
            assert(out_z.deep_view()[pos as int] == out_z@[pos as int]@);
        }
        pos = pos + 1;
    }
    proof {
        if pos < dvz0.len() {
            assert(out_z.deep_view()[pos as int] == out_z@[pos as int]@);
        }
    }
    let ghost rows_z0 = out_z@;
    let ghost rows_a0 = out_a@;
    out_z.insert(pos, z);
    out_a.insert(pos, a);
    proof {
        rows_z0.insert_ensures(pos as int, out_z@[pos as int]);
        rows_a0.insert_ensures(pos as int, out_a@[pos as int]);
        let dvz1 = out_z.deep_view();
        let dva1 = out_a.deep_view();
        assert forall|w: int| 0 <= w < dvz1.len() implies dvz1[w] == dvz0.insert(pos as int, zv)[w] by {
            assert(dvz1[w] == out_z@[w]@);
            dvz0.insert_ensures(pos as int, zv);
            if w < pos {
                assert(out_z@[w] == rows_z0[w]);
                assert(dvz0[w] == rows_z0[w]@);
            } else if w > pos {
                assert(out_z@[w] == rows_z0[w - 1]);
                assert(dvz0[w - 1] == rows_z0[w - 1]@);
            }
        }
        assert(dvz1 =~= dvz0.insert(pos as int, zv));
        assert forall|w: int| 0 <= w < dva1.len() implies dva1[w] == dva0.insert(pos as int, av)[w] by {
            assert(dva1[w] == out_a@[w]@);
            dva0.insert_ensures(pos as int, av);
            if w < pos {
                assert(out_a@[w] == rows_a0[w]);
                assert(dva0[w] == rows_a0[w]@);
            } else if w > pos {
                assert(out_a@[w] == rows_a0[w - 1]);
                assert(dva0[w - 1] == rows_a0[w - 1]@);
            }
        }
        assert(dva1 =~= dva0.insert(pos as int, av));
        // title order survives the insertion
        dvz0.insert_ensures(pos as int, zv);
        assert forall|w: int| 0 <= w < dvz1.len() - 1 implies !lex_lt(
            (#[trigger] dvz1[w + 1]).title,
            dvz1[w].title,
        ) by {
            if w + 1 < pos {
                assert(dvz1[w] == dvz0[w]);
                assert(dvz1[w + 1] == dvz0[w + 1]);
            } else if w + 1 == pos {
                assert(dvz1[w] == dvz0[w]);
                assert(dvz1[w + 1] == zv);
                assert(!lex_lt(zv.title, dvz0[w].title));
            } else if w == pos {
                assert(dvz1[w] == zv);
                assert(dvz1[w + 1] == dvz0[w]);
                assert(lex_lt(zv.title, dvz0[w].title));
                lemma_lex_lt_asymmetric(zv.title, dvz0[w].title);
            } else {
                assert(dvz1[w] == dvz0[w - 1]);
                assert(dvz1[w + 1] == dvz0[w]);
            }
        }
        // the pairs are the old pairs plus the new one
        assert(pair_seq(dvz1, dva1) =~= pair_seq(dvz0, dva0).insert(pos as int, (zv, av)));
        lemma_multiset_insert_mid(pair_seq(dvz0, dva0), pos as int, (zv, av));
    }
}

} // verus!
