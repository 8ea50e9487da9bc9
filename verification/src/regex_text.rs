//! Trusted boundary to the `regex` crate. Address components written as
//! `/pattern/` are compiled and matched by `regex`; the engine's contracts
//! speak of the two uninterpreted names below, which stand for the crate's
//! behaviour as a function of the pattern and the haystack alone.

use vstd::prelude::*;

verus! {

/// Whether `regex::Regex::new` accepts `pat`: compilation succeeds or fails
/// as a function of the pattern text alone.
pub uninterp spec fn re_compiles(pat: Seq<char>) -> bool;

/// The pattern text a compiled regex was built from, as `regex::Regex::as_str`
/// returns it.
pub uninterp spec fn re_pattern(re: regex::Regex) -> Seq<char>;

/// Whether `regex::Regex::is_match` finds a match of the pattern anywhere in
/// the haystack: a function of the pattern and the haystack alone.
pub uninterp spec fn re_is_match(pat: Seq<char>, text: Seq<char>) -> bool;

#[verifier::external_type_specification]
#[verifier::external_body]
pub struct ExRegex(regex::Regex);

/// Relies on `regex::Regex::new`: it returns `Ok` exactly when the pattern
/// text is a valid regex, and the compiled value remembers that text.
#[verifier::external_body]
pub fn regex_new(pat: &str) -> (r: Option<regex::Regex>)
    ensures
        r is Some <==> re_compiles(pat@),
        r is Some ==> re_pattern(r->0) == pat@,
{
    regex::Regex::new(pat).ok()
}

/// Relies on `regex::Regex::is_match`: whether a compiled regex matches a
/// line depends only on its pattern text and the line.
#[verifier::external_body]
pub fn regex_is_match(re: &regex::Regex, line: &str) -> (r: bool)
    ensures
        r == re_is_match(re_pattern(*re), line@),
{
    re.is_match(line)
}

} // verus!
