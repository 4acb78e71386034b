//! The store's pattern language for lookups: a restricted glob where `*`
//! matches zero or more characters and every other character stands for
//! itself.

use vstd::prelude::*;
use crate::strutil::chars_of;

verus! {

/// Whether `p[i..]` matches `t[j..]`: `*` matches any run of characters,
/// anything else matches itself.
pub open spec fn glob_match_at(p: Seq<char>, t: Seq<char>, i: int, j: int) -> bool
    decreases p.len() - i, t.len() - j when 0 <= i && 0 <= j
{
    if i >= p.len() {
        j >= t.len()
    } else if p[i] == '*' {
        glob_match_at(p, t, i + 1, j) || (j < t.len() && glob_match_at(p, t, i, j + 1))
    } else {
        j < t.len() && p[i] == t[j] && glob_match_at(p, t, i + 1, j + 1)
    }
}

/// Whether the whole pattern matches the whole text.
pub open spec fn glob_match(p: Seq<char>, t: Seq<char>) -> bool {
    glob_match_at(p, t, 0, 0)
}

fn glob_step(p: &Vec<char>, t: &Vec<char>, i: usize, j: usize) -> (r: bool)
    requires
        i <= p@.len(),
        j <= t@.len(),
    ensures
        r == glob_match_at(p@, t@, i as int, j as int),
    decreases p@.len() - i, t@.len() - j,
{
    if i >= p.len() {
        j >= t.len()
    } else if p[i] == '*' {
        if glob_step(p, t, i + 1, j) {
            true
        } else {
            j < t.len() && glob_step(p, t, i, j + 1)
        }
    } else {
        j < t.len() && p[i] == t[j] && glob_step(p, t, i + 1, j + 1)
    }
}

/// Whether `text` is in the language of `pattern`.
pub fn glob_matches(pattern: &str, text: &str) -> (r: bool)
    ensures
        r == glob_match(pattern@, text@),
{
    let p = chars_of(pattern);
    let t = chars_of(text);
    glob_step(&p, &t, 0, 0)
}

} // verus!
