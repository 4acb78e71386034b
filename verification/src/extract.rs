//! The text extractor: pure scanning of note text for wiki-style links
//! (`[[Target Title]]`) and hashtag-style tags (`#parent/child`).
//!
//! The scanning grammar is this crate's own: links are the non-greedy,
//! non-overlapping occurrences of `[[ ... ]]` (the inner text may span
//! lines and has its whitespace runs collapsed to single spaces); tags are
//! `#segment(/segment)*` tokens of word characters delimited by whitespace
//! on both sides, the trailing delimiter being consumed by the match.

use vstd::prelude::*;
use crate::strutil::{chars_of, push_string, string_from_chars, subvec};

verus! {

/// The whitespace characters that delimit tags and that collapse inside
/// link targets: space, tab and newline.
pub open spec fn is_ws_char(c: char) -> bool {
    c == ' ' || c == '\t' || c == '\n'
}

/// Word characters of a tag: ASCII letters and digits, `_`, `-`, and the
/// hierarchy separator `/`.
pub open spec fn is_word_char(c: char) -> bool {
    ('a' <= c && c <= 'z') || ('A' <= c && c <= 'Z') || ('0' <= c && c <= '9') || c == '_' || c
        == '-' || c == '/'
}

/// `s` from position `i` on, with every run of whitespace replaced by a
/// single space. A run contributes its space when its last character is
/// reached.
pub open spec fn collapse_from(s: Seq<char>, i: int) -> Seq<char>
    decreases s.len() - i when 0 <= i
{
    if i >= s.len() {
        Seq::empty()
    } else if is_ws_char(s[i]) && i + 1 < s.len() && is_ws_char(s[i + 1]) {
        collapse_from(s, i + 1)
    } else if is_ws_char(s[i]) {
        seq![' '] + collapse_from(s, i + 1)
    } else {
        seq![s[i]] + collapse_from(s, i + 1)
    }
}

/// `s` with every run of space, tab and newline collapsed to one space.
pub open spec fn collapse_ws(s: Seq<char>) -> Seq<char> {
    collapse_from(s, 0)
}

/// An opening `[[` sits at position `i`.
pub open spec fn is_open_at(s: Seq<char>, i: int) -> bool {
    0 <= i && i + 1 < s.len() && s[i] == '[' && s[i + 1] == '['
}

/// A closing `]]` sits at position `i`.
pub open spec fn is_close_at(s: Seq<char>, i: int) -> bool {
    0 <= i && i + 1 < s.len() && s[i] == ']' && s[i + 1] == ']'
}

/// The position of the first closing `]]` at or after `i`, or `s.len()`
/// when there is none.
pub open spec fn find_close(s: Seq<char>, i: int) -> int
    decreases s.len() - i when 0 <= i
{
    if i + 1 >= s.len() {
        s.len() as int
    } else if is_close_at(s, i) {
        i
    } else {
        find_close(s, i + 1)
    }
}

pub proof fn lemma_find_close_bounds(s: Seq<char>, i: int)
    requires
        0 <= i <= s.len(),
    ensures
        i <= find_close(s, i),
        find_close(s, i) <= s.len(),
        find_close(s, i) < s.len() ==> is_close_at(s, find_close(s, i)),
        forall|k: int| i <= k < find_close(s, i) ==> !is_close_at(s, k),
    decreases s.len() - i,
{
    if i + 1 >= s.len() {
    } else if is_close_at(s, i) {
    } else {
        lemma_find_close_bounds(s, i + 1);
    }
}

/// The link targets of `s` from position `i` on, in order of discovery:
/// for each non-overlapping `[[ ... ]]`, the inner text with its
/// whitespace runs collapsed.
pub open spec fn links_from(s: Seq<char>, i: int) -> Seq<Seq<char>>
    decreases s.len() - i when 0 <= i
{
    if i + 1 >= s.len() {
        Seq::empty()
    } else if is_open_at(s, i) && find_close(s, i + 2) < s.len() {
        proof {
            lemma_find_close_bounds(s, i + 2);
        }
        seq![collapse_ws(s.subrange(i + 2, find_close(s, i + 2)))] + links_from(
            s,
            find_close(s, i + 2) + 2,
        )
    } else {
        links_from(s, i + 1)
    }
}

/// All link targets of `s`.
pub open spec fn spec_links(s: Seq<char>) -> Seq<Seq<char>> {
    links_from(s, 0)
}

/// The first position at or after `i` whose character is not a word
/// character (the end of the word-character run starting at `i`).
pub open spec fn word_run_end(s: Seq<char>, i: int) -> int
    decreases s.len() - i when 0 <= i
{
    if i >= s.len() {
        i
    } else if is_word_char(s[i]) {
        word_run_end(s, i + 1)
    } else {
        i
    }
}

pub proof fn lemma_word_run_end_bounds(s: Seq<char>, i: int)
    requires
        0 <= i <= s.len(),
    ensures
        i <= word_run_end(s, i),
        word_run_end(s, i) <= s.len(),
        forall|k: int| i <= k < word_run_end(s, i) ==> is_word_char(s[k]),
        word_run_end(s, i) < s.len() ==> !is_word_char(s[word_run_end(s, i)]),
    decreases s.len() - i,
{
    if i >= s.len() {
    } else if is_word_char(s[i]) {
        lemma_word_run_end_bounds(s, i + 1);
    }
}

/// The tags of `s` from position `i` on: for each token
/// `<ws>#<word-run><ws>`, the word run. The trailing whitespace belongs to
/// the match, so two tags cannot share their delimiter.
pub open spec fn tags_from(s: Seq<char>, i: int) -> Seq<Seq<char>>
    decreases s.len() - i when 0 <= i
{
    if i >= s.len() {
        Seq::empty()
    } else if is_ws_char(s[i]) && i + 1 < s.len() && s[i + 1] == '#' {
        proof {
            lemma_word_run_end_bounds(s, i + 2);
        }
        if word_run_end(s, i + 2) > i + 2 && word_run_end(s, i + 2) < s.len() && is_ws_char(
            s[word_run_end(s, i + 2)],
        ) {
            seq![s.subrange(i + 2, word_run_end(s, i + 2))] + tags_from(s, word_run_end(s, i + 2) + 1)
        } else {
            tags_from(s, i + 1)
        }
    } else {
        tags_from(s, i + 1)
    }
}

/// All tags of `s`.
pub open spec fn spec_tags(s: Seq<char>) -> Seq<Seq<char>> {
    tags_from(s, 0)
}

/// Whether `c` is one of the whitespace characters the extractor knows.
pub fn ws_char(c: char) -> (r: bool)
    ensures
        r == is_ws_char(c),
{
    c == ' ' || c == '\t' || c == '\n'
}

/// Whether `c` is a word character of a tag.
pub fn word_char(c: char) -> (r: bool)
    ensures
        r == is_word_char(c),
{
    ('a' <= c && c <= 'z') || ('A' <= c && c <= 'Z') || ('0' <= c && c <= '9') || c == '_' || c
        == '-' || c == '/'
}

/// The characters of `cs`, whitespace runs collapsed to single spaces.
pub fn collapse_chars(cs: &Vec<char>) -> (r: Vec<char>)
    ensures
        r@ == collapse_ws(cs@),
{
    let mut out: Vec<char> = Vec::new();
    let mut i: usize = 0;
    while i < cs.len()
        invariant
            i <= cs@.len(),
            out@ + collapse_from(cs@, i as int) == collapse_from(cs@, 0),
        decreases cs@.len() - i,
    {
        let ghost i0 = i as int;
        let c = cs[i];
        if ws_char(c) {
            if !(i + 1 < cs.len() && ws_char(cs[i + 1])) {
                out.push(' ');
            }
        } else {
            out.push(c);
        }
        i = i + 1;
        proof {
            assert(out@ + collapse_from(cs@, i as int) =~= collapse_from(cs@, 0)) by {
                assert(collapse_from(cs@, i0) == if is_ws_char(cs@[i0]) && i0 + 1 < cs@.len()
                    && is_ws_char(cs@[i0 + 1]) {
                    collapse_from(cs@, i0 + 1)
                } else if is_ws_char(cs@[i0]) {
                    seq![' '] + collapse_from(cs@, i0 + 1)
                } else {
                    seq![cs@[i0]] + collapse_from(cs@, i0 + 1)
                });
            }
        }
    }
    proof {
        assert(out@ + collapse_from(cs@, cs@.len() as int) =~= out@);
    }
    out
}

/// Replace all multiple consecutive whitespace with a single space
/// character.
pub fn strip_multiple_whitespace(s: &str) -> (r: String)
    ensures
        r@ == collapse_ws(s@),
{
    let cs = chars_of(s);
    let out = collapse_chars(&cs);
    string_from_chars(&out)
}

/// The position of the first `]]` at or after `from`, or `cs.len()` when
/// there is none.
pub fn scan_close(cs: &Vec<char>, from: usize) -> (r: usize)
    requires
        from <= cs@.len(),
    ensures
        r == find_close(cs@, from as int),
{
    let mut k = from;
    while k < cs.len() && k + 1 < cs.len() && !(cs[k] == ']' && cs[k + 1] == ']')
        invariant
            from <= k <= cs@.len(),
            find_close(cs@, from as int) == find_close(cs@, k as int),
        decreases cs@.len() - k,
    {
        k = k + 1;
    }
    if k < cs.len() && k + 1 < cs.len() {
        k
    } else {
        cs.len()
    }
}

/// Find and return wiki-style links inside of `contents`; wiki-style links
/// are of the form `[[LINK]]`. Inner whitespace runs are collapsed to
/// single spaces.
pub fn find_links(contents: &str) -> (r: Vec<String>)
    ensures
        r.deep_view() == spec_links(contents@),
{
    let cs = chars_of(contents);
    let mut out: Vec<String> = Vec::new();
    let mut i: usize = 0;
    while i < cs.len() && i + 1 < cs.len()
        invariant
            i <= cs@.len(),
            out.deep_view() + links_from(cs@, i as int) == links_from(cs@, 0),
        decreases cs@.len() - i,
    {
        let ghost i0 = i as int;
        if cs[i] == '[' && cs[i + 1] == '[' {
            let j = scan_close(&cs, i + 2);
            proof {
                lemma_find_close_bounds(cs@, i0 + 2);
            }
            if j < cs.len() {
                let inner = subvec(&cs, i + 2, j);
                let collapsed = collapse_chars(&inner);
                let ghost dv0 = out.deep_view();
                push_string(&mut out, string_from_chars(&collapsed));
                proof {
                    assert(links_from(cs@, i0) == seq![
                        collapse_ws(cs@.subrange(i0 + 2, find_close(cs@, i0 + 2))),
                    ] + links_from(cs@, find_close(cs@, i0 + 2) + 2));
                    assert(out.deep_view() + links_from(cs@, j + 2) =~= links_from(cs@, 0));
                }
                i = j + 2;
            } else {
                proof {
                    assert(links_from(cs@, i0) == links_from(cs@, i0 + 1));
                }
                i = i + 1;
            }
        } else {
            proof {
                assert(links_from(cs@, i0) == links_from(cs@, i0 + 1));
            }
            i = i + 1;
        }
    }
    proof {
        assert(links_from(cs@, i as int) =~= Seq::<Seq<char>>::empty());
        assert(out.deep_view() =~= links_from(cs@, 0));
    }
    out
}

/// The position of the end of the word-character run starting at `from`.
pub fn scan_word_run(cs: &Vec<char>, from: usize) -> (r: usize)
    requires
        from <= cs@.len(),
    ensures
        r == word_run_end(cs@, from as int),
{
    let mut k = from;
    while k < cs.len() && word_char(cs[k])
        invariant
            from <= k <= cs@.len(),
            word_run_end(cs@, from as int) == word_run_end(cs@, k as int),
        decreases cs@.len() - k,
    {
        k = k + 1;
    }
    k
}

/// Find tags inside of `contents` and return them. Tags are hashtag-tags,
/// e.g. `#gardening`, `#note-taking`, and they must be delimited by
/// whitespace on both sides.
pub fn find_tags(contents: &str) -> (r: Vec<String>)
    ensures
        r.deep_view() == spec_tags(contents@),
{
    let cs = chars_of(contents);
    let mut out: Vec<String> = Vec::new();
    let mut i: usize = 0;
    while i < cs.len()
        invariant
            i <= cs@.len(),
            out.deep_view() + tags_from(cs@, i as int) == tags_from(cs@, 0),
        decreases cs@.len() - i,
    {
        let ghost i0 = i as int;
        let mut stepped = false;
        if ws_char(cs[i]) && i + 1 < cs.len() && cs[i + 1] == '#' {
            let e = scan_word_run(&cs, i + 2);
            proof {
                lemma_word_run_end_bounds(cs@, i0 + 2);
            }
            if e > i + 2 && e < cs.len() && ws_char(cs[e]) {
                let run = subvec(&cs, i + 2, e);
                push_string(&mut out, string_from_chars(&run));
                proof {
                    assert(tags_from(cs@, i0) == seq![
                        cs@.subrange(i0 + 2, word_run_end(cs@, i0 + 2)),
                    ] + tags_from(cs@, word_run_end(cs@, i0 + 2) + 1));
                    assert(out.deep_view() + tags_from(cs@, e + 1) =~= tags_from(cs@, 0));
                }
                i = e + 1;
                stepped = true;
            }
        }
        if !stepped {
            proof {
                assert(tags_from(cs@, i0) == tags_from(cs@, i0 + 1));
            }
            i = i + 1;
        }
    }
    proof {
        assert(tags_from(cs@, i as int) =~= Seq::<Seq<char>>::empty());
        assert(out.deep_view() =~= tags_from(cs@, 0));
    }
    out
}

} // verus!
