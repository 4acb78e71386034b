//! Pure path arithmetic on `/`-separated path strings: last segment,
//! leading segments, and extension replacement.

use vstd::prelude::*;
use crate::strutil::{chars_of, push_all_chars, string_from_chars, subvec};

verus! {

/// The last segment of a path: everything after the final `/`, or the
/// whole path when it has no `/`.
pub open spec fn basename_of(s: Seq<char>) -> Seq<char>
    decreases s.len(),
{
    if s.len() == 0 {
        s
    } else if s[s.len() - 1] == '/' {
        Seq::empty()
    } else {
        basename_of(s.drop_last()).push(s[s.len() - 1])
    }
}

/// The leading segments of a path: everything before the final `/`, or
/// the empty string when it has no `/`.
pub open spec fn dirname_of(s: Seq<char>) -> Seq<char>
    decreases s.len(),
{
    if s.len() == 0 {
        s
    } else if s[s.len() - 1] == '/' {
        s.drop_last()
    } else {
        dirname_of(s.drop_last())
    }
}

/// The position of the last `.` of a file's base name, the base name's
/// first character not counting (a leading dot marks a hidden file, not
/// an extension); `-1` when there is none.
pub open spec fn last_dot_pos(b: Seq<char>) -> int
    decreases b.len(),
{
    if b.len() <= 1 {
        -1
    } else if b[b.len() - 1] == '.' {
        b.len() - 1
    } else {
        last_dot_pos(b.drop_last())
    }
}

/// The path with the base name's extension replaced by `e` (removed when
/// `e` is empty).
pub open spec fn spec_replace_extension(s: Seq<char>, e: Seq<char>) -> Seq<char> {
    let b = basename_of(s);
    let d = last_dot_pos(b);
    let keep = if d >= 0 {
        s.len() - b.len() + d
    } else {
        s.len() as int
    };
    s.subrange(0, keep) + (if e.len() > 0 {
        seq!['.'] + e
    } else {
        Seq::empty()
    })
}

/// The index right after the last `/` of `cs` (0 when there is none):
/// where the base name starts.
fn base_start(cs: &Vec<char>) -> (r: usize)
    ensures
        r <= cs@.len(),
        basename_of(cs@) == cs@.subrange(r as int, cs@.len() as int),
        dirname_of(cs@) == (if r > 0 {
            cs@.subrange(0, r - 1)
        } else {
            Seq::<char>::empty()
        }),
{
    let mut k = cs.len();
    proof {
        assert(cs@.subrange(0, cs@.len() as int) =~= cs@);
        assert(basename_of(cs@) + cs@.subrange(cs@.len() as int, cs@.len() as int) =~= basename_of(
            cs@,
        ));
    }
    while k > 0 && cs[k - 1] != '/'
        invariant
            k <= cs@.len(),
            basename_of(cs@) == basename_of(cs@.subrange(0, k as int)) + cs@.subrange(
                k as int,
                cs@.len() as int,
            ),
            dirname_of(cs@) == dirname_of(cs@.subrange(0, k as int)),
        decreases k,
    {
        proof {
            let pre = cs@.subrange(0, k as int);
            let shorter = cs@.subrange(0, k - 1);
            assert(pre.drop_last() =~= shorter);
            assert(pre[pre.len() - 1] == cs@[k - 1]);
            assert(basename_of(pre) == basename_of(shorter).push(cs@[k - 1]));
            assert(basename_of(shorter) + cs@.subrange(k - 1, cs@.len() as int) =~= basename_of(
                shorter,
            ).push(cs@[k - 1]) + cs@.subrange(k as int, cs@.len() as int));
        }
        k = k - 1;
    }
    proof {
        if k > 0 {
            let pre = cs@.subrange(0, k as int);
            assert(pre[pre.len() - 1] == cs@[k - 1]);
            assert(basename_of(pre) =~= Seq::<char>::empty());
            assert(pre.drop_last() =~= cs@.subrange(0, k - 1));
            assert(basename_of(cs@) =~= cs@.subrange(k as int, cs@.len() as int));
        } else {
            assert(cs@.subrange(0, 0) =~= Seq::<char>::empty());
            assert(basename_of(Seq::<char>::empty()) =~= Seq::<char>::empty());
            assert(basename_of(cs@) =~= cs@.subrange(0, cs@.len() as int));
        }
    }
    k
}

/// Return the last segment of a path.
pub fn basename(path: &str) -> (r: String)
    ensures
        r@ == basename_of(path@),
{
    let cs = chars_of(path);
    let k = base_start(&cs);
    let tail = subvec(&cs, k, cs.len());
    string_from_chars(&tail)
}

/// Return the first segments of a path.
pub fn dirname(path: &str) -> (r: String)
    ensures
        r@ == dirname_of(path@),
{
    let cs = chars_of(path);
    let k = base_start(&cs);
    if k > 0 {
        let head = subvec(&cs, 0, k - 1);
        string_from_chars(&head)
    } else {
        String::new()
    }
}

/// Given a path, replace its extension with `new_ext` (strip the
/// extension when `new_ext` is empty) and return the resulting path.
pub fn replace_extension(file: &str, new_ext: &str) -> (r: String)
    ensures
        r@ == spec_replace_extension(file@, new_ext@),
{
    let cs = chars_of(file);
    let start = base_start(&cs);
    let ghost b = basename_of(cs@);
    // scan the base name from its end for the extension dot
    let mut m = cs.len();
    proof {
        assert(b.subrange(0, (cs@.len() - start) as int) =~= b);
    }
    while m > start && m - start > 1 && cs[m - 1] != '.'
        invariant
            start <= m <= cs@.len(),
            start <= cs@.len(),
            b == cs@.subrange(start as int, cs@.len() as int),
            last_dot_pos(b) == last_dot_pos(b.subrange(0, m - start as int)),
        decreases m,
    {
        proof {
            let sub = b.subrange(0, m - start as int);
            assert(sub.len() > 1);
            assert(sub[sub.len() - 1] == cs@[m - 1]);
            assert(sub.drop_last() =~= b.subrange(0, m - 1 - start as int));
            assert(last_dot_pos(sub) == last_dot_pos(b.subrange(0, m - 1 - start as int)));
        }
        m = m - 1;
    }
    let have_dot = m > start && m - start > 1;
    proof {
        let sub = b.subrange(0, m - start as int);
        if have_dot {
            assert(sub.len() > 1);
            assert(sub[sub.len() - 1] == cs@[m - 1]);
            assert(last_dot_pos(sub) == sub.len() - 1);
            assert(last_dot_pos(b) == m - 1 - start);
        } else {
            assert(sub.len() <= 1);
            assert(last_dot_pos(b) == -1);
        }
    }
    let keep: usize = if have_dot {
        m - 1
    } else {
        cs.len()
    };
    let mut out = subvec(&cs, 0, keep);
    if !new_ext.is_empty() {
        let ext = chars_of(new_ext);
        out.push('.');
        push_all_chars(&mut out, &ext);
        proof {
            assert(out@ =~= spec_replace_extension(file@, new_ext@));
        }
    } else {
        proof {
            assert(out@ =~= spec_replace_extension(file@, new_ext@));
        }
    }
    string_from_chars(&out)
}

} // verus!
