//! Small executable helpers for strings and character vectors.

use vstd::prelude::*;
use vstd::string::StrSliceExecFns;
use vstd::string::StringExecFns;

verus! {

/// The characters of a string, as a vector.
pub fn chars_of(s: &str) -> (r: Vec<char>)
    ensures
        r@ == s@,
{
    let n = s.unicode_len();
    let mut r: Vec<char> = Vec::new();
    let mut i: usize = 0;
    while i < n
        invariant
            n == s@.len(),
            i <= n,
            r@ == s@.subrange(0, i as int),
        decreases n - i,
    {
        r.push(s.get_char(i));
        i = i + 1;
        proof {
            assert(r@ =~= s@.subrange(0, i as int));
        }
    }
    proof {
        assert(r@ =~= s@);
    }
    r
}

/// Relies on `String::push`: appends the given character to the end of the
/// string.
#[verifier::external_body]
fn push_char(s: &mut String, c: char)
    ensures
        final(s)@ == old(s)@.push(c),
{
    s.push(c);
}

/// A string holding exactly the given characters.
pub fn string_from_chars(v: &Vec<char>) -> (r: String)
    ensures
        r@ == v@,
{
    let mut r = String::new();
    let mut i: usize = 0;
    while i < v.len()
        invariant
            i <= v@.len(),
            r@ == v@.subrange(0, i as int),
        decreases v@.len() - i,
    {
        push_char(&mut r, v[i]);
        i = i + 1;
        proof {
            assert(r@ =~= v@.subrange(0, i as int));
        }
    }
    proof {
        assert(r@ =~= v@);
    }
    r
}

/// Concatenation of two strings.
pub fn concat2(a: &str, b: &str) -> (r: String)
    ensures
        r@ == a@ + b@,
{
    let mut r = String::from_str(a);
    r.append(b);
    r
}

/// Concatenation of three strings.
pub fn concat3(a: &str, b: &str, c: &str) -> (r: String)
    ensures
        r@ == a@ + b@ + c@,
{
    let mut r = String::from_str(a);
    r.append(b);
    r.append(c);
    r
}

/// Appends all characters of `v` to `out`.
pub fn push_all_chars(out: &mut Vec<char>, v: &Vec<char>)
    ensures
        final(out)@ == old(out)@ + v@,
{
    let mut m: usize = 0;
    while m < v.len()
        invariant
            m <= v@.len(),
            out@ == old(out)@ + v@.subrange(0, m as int),
        decreases v@.len() - m,
    {
        out.push(v[m]);
        m = m + 1;
        proof {
            assert(out@ =~= old(out)@ + v@.subrange(0, m as int));
        }
    }
    proof {
        assert(out@ =~= old(out)@ + v@);
    }
}

/// Appends a string to a vector, tracked at the level of character
/// sequences.
pub fn push_string(v: &mut Vec<String>, s: String)
    ensures
        final(v).deep_view() == old(v).deep_view().push(s@),
        final(v)@.len() == old(v)@.len() + 1,
{
    let ghost dv0 = v.deep_view();
    let ghost sv = s@;
    v.push(s);
    proof {
        assert forall|k: int| 0 <= k < v.deep_view().len() implies v.deep_view()[k] == dv0.push(
            sv,
        )[k] by {
            assert(v.deep_view()[k] == v@[k]@);
            if k < dv0.len() {
                assert(v@[k] == old(v)@[k]);
                assert(dv0[k] == old(v)@[k]@);
            }
        }
        assert(v.deep_view() =~= dv0.push(sv));
    }
}

/// The characters of `cs` between positions `a` (inclusive) and `b`
/// (exclusive).
pub fn subvec(cs: &Vec<char>, a: usize, b: usize) -> (r: Vec<char>)
    requires
        a <= b <= cs@.len(),
    ensures
        r@ == cs@.subrange(a as int, b as int),
{
    let mut r: Vec<char> = Vec::new();
    let mut m = a;
    while m < b
        invariant
            a <= m <= b <= cs@.len(),
            r@ == cs@.subrange(a as int, m as int),
        decreases b - m,
    {
        r.push(cs[m]);
        m = m + 1;
        proof {
            assert(r@ =~= cs@.subrange(a as int, m as int));
        }
    }
    r
}

/// Whether two character vectors are equal.
pub fn chars_eq(a: &Vec<char>, b: &Vec<char>) -> (r: bool)
    ensures
        r == (a@ == b@),
{
    if a.len() != b.len() {
        return false;
    }
    let mut i: usize = 0;
    while i < a.len()
        invariant
            a@.len() == b@.len(),
            i <= a@.len(),
            forall|k: int| 0 <= k < i ==> a@[k] == b@[k],
        decreases a@.len() - i,
    {
        if a[i] != b[i] {
            return false;
        }
        i = i + 1;
    }
    proof {
        assert(a@ =~= b@);
    }
    true
}

} // verus!
