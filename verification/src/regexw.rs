//! The trusted boundary to the `regex` crate, which supplies the query
//! engine's pattern language.
//!
//! What a regular expression matches is far too large to restate here, so
//! the outcomes are given names: `regex_valid` names the patterns that
//! `Regex::new` accepts, `regex_matches` the yes/no answer of `is_match`,
//! and `regex_find_ci` the first match of a case-insensitive search. Both
//! are functions of the pattern and the haystack alone, in every process
//! and on every machine.

use vstd::prelude::*;

verus! {

#[verifier::external_type_specification]
#[verifier::external_body]
pub struct ExRegex(regex::Regex);

/// Whether `Regex::new`, under its default settings, accepts this
/// pattern.
pub uninterp spec fn regex_valid(pattern: Seq<char>) -> bool;

/// The pattern a compiled regular expression was built from.
pub uninterp spec fn regex_pattern(re: &regex::Regex) -> Seq<char>;

/// Whether the pattern matches anywhere in the haystack.
pub uninterp spec fn regex_matches(pattern: Seq<char>, haystack: Seq<char>) -> bool;

/// Relies on `regex::Regex::new`: compiles the pattern, returning an
/// error exactly when the pattern is rejected (invalid syntax, or beyond
/// the default size limit).
#[verifier::external_body]
pub(crate) fn regex_new(pattern: &str) -> (r: Option<regex::Regex>)
    ensures
        r is Some <==> regex_valid(pattern@),
        r matches Some(re) ==> regex_pattern(&re) == pattern@,
{
    regex::Regex::new(pattern).ok()
}

/// Relies on `regex::Regex::is_match`: true if and only if the regex
/// matches somewhere in the haystack.
#[verifier::external_body]
pub(crate) fn regex_is_match(re: &regex::Regex, haystack: &str) -> (r: bool)
    ensures
        r == regex_matches(regex_pattern(re), haystack@),
{
    re.is_match(haystack)
}

/// The first match of the pattern in the haystack, or `None` when the
/// pattern matches nowhere in it.
pub uninterp spec fn regex_first_match(pattern: Seq<char>, haystack: Seq<char>) -> Option<
    Seq<char>,
>;

/// Relies on `regex::Regex::find`: the first (leftmost) match of the
/// regex in the haystack, as the matched substring, or `None` when there
/// is no match.
#[verifier::external_body]
pub(crate) fn regex_find(re: &regex::Regex, haystack: &str) -> (r: Option<String>)
    ensures
        r matches Some(m) ==> regex_first_match(regex_pattern(re), haystack@) == Some(m@),
        r is None ==> regex_first_match(regex_pattern(re), haystack@) is None,
        r is None ==> !regex_matches(regex_pattern(re), haystack@),
        r is Some ==> regex_matches(regex_pattern(re), haystack@),
{
    re.find(haystack).map(|m| m.as_str().to_string())
}

} // verus!
