//! The creation template: placeholder substitution and the date stamp.

use vstd::prelude::*;
use chrono::Datelike;
use crate::fmt::{replace_str, spec_replace};

verus! {

/// The decimal digit character for a value below ten.
pub open spec fn digit_char(d: int) -> char {
    if d == 0 {
        '0'
    } else if d == 1 {
        '1'
    } else if d == 2 {
        '2'
    } else if d == 3 {
        '3'
    } else if d == 4 {
        '4'
    } else if d == 5 {
        '5'
    } else if d == 6 {
        '6'
    } else if d == 7 {
        '7'
    } else if d == 8 {
        '8'
    } else {
        '9'
    }
}

/// Two decimal digits, zero-padded.
pub open spec fn two_digits(n: int) -> Seq<char> {
    seq![digit_char(n / 10), digit_char(n % 10)]
}

/// Four decimal digits, zero-padded.
pub open spec fn four_digits(n: int) -> Seq<char> {
    seq![
        digit_char(n / 1000),
        digit_char((n / 100) % 10),
        digit_char((n / 10) % 10),
        digit_char(n % 10),
    ]
}

/// A calendar date as `YYYY-MM-DD`.
pub open spec fn spec_format_date(y: int, m: int, d: int) -> Seq<char> {
    four_digits(y) + seq!['-'] + two_digits(m) + seq!['-'] + two_digits(d)
}

fn digit(d: u32) -> (r: char)
    requires
        d < 10,
    ensures
        r == digit_char(d as int),
{
    match d {
        0 => '0',
        1 => '1',
        2 => '2',
        3 => '3',
        4 => '4',
        5 => '5',
        6 => '6',
        7 => '7',
        8 => '8',
        _ => '9',
    }
}

/// Render a date as `YYYY-MM-DD`, zero-padded.
pub fn format_date(y: u32, m: u32, d: u32) -> (r: String)
    requires
        y <= 9999,
        1 <= m <= 12,
        1 <= d <= 31,
    ensures
        r@ == spec_format_date(y as int, m as int, d as int),
{
    let mut out: Vec<char> = Vec::new();
    out.push(digit(y / 1000));
    out.push(digit((y / 100) % 10));
    out.push(digit((y / 10) % 10));
    out.push(digit(y % 10));
    out.push('-');
    out.push(digit(m / 10));
    out.push(digit(m % 10));
    out.push('-');
    out.push(digit(d / 10));
    out.push(digit(d % 10));
    proof {
        assert(out@ =~= spec_format_date(y as int, m as int, d as int));
    }
    crate::strutil::string_from_chars(&out)
}

/// Relies on chrono's `Utc::now` and the `Datelike` accessors: the
/// current UTC date, with the month and the day of month starting from 1
/// (months range to 12, days to 31). The year is whatever the clock
/// says.
#[verifier::external_body]
fn today_utc() -> (r: (i64, u32, u32))
    ensures
        1 <= r.1 <= 12,
        1 <= r.2 <= 31,
{
    let now = chrono::Utc::now();
    (now.year() as i64, now.month(), now.day())
}

/// Today's date as `YYYY-MM-DD`, or `None` in the far eras where the
/// year does not have four digits.
pub fn today_string() -> (r: Option<String>)
    ensures
        r matches Some(s) ==> exists|y: int, m: int, d: int|
            0 <= y <= 9999 && 1 <= m <= 12 && 1 <= d <= 31 && s@ == spec_format_date(y, m, d),
{
    let (y, m, d) = today_utc();
    if 0 <= y && y <= 9999 {
        let s = format_date(y as u32, m, d);
        proof {
            assert(s@ == spec_format_date(y as int, m as int, d as int));
        }
        Some(s)
    } else {
        None
    }
}

/// Given the contents of a template file, replace the `${TITLE}` and
/// `${DATE}` placeholders with their proper values.
pub fn fill_template(contents: &str, title: &str, date: &str) -> (r: String)
    ensures
        r@ == spec_replace(spec_replace(contents@, "${TITLE}"@, title@), "${DATE}"@, date@),
{
    proof {
        reveal_strlit("${TITLE}");
        reveal_strlit("${DATE}");
    }
    let first = replace_str(contents, "${TITLE}", title);
    replace_str(first.as_str(), "${DATE}", date)
}

} // verus!
