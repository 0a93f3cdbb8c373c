//! Calls into `regex` and `chrono`.

use vstd::prelude::*;

verus! {

/// The message of the error that `regex::Regex::new` gives for a pattern,
/// or `None` where the pattern compiles.
pub uninterp spec fn regex_build_error(pattern: Seq<char>) -> Option<Seq<char>>;

/// Whether the pattern compiles with `regex::Regex::new` and the compiled
/// regex matches somewhere in `text` (`Regex::is_match`).
pub uninterp spec fn regex_accepts(pattern: Seq<char>, text: Seq<char>) -> bool;

/// Whether `chrono::DateTime::parse_from_rfc3339` accepts the text.
pub uninterp spec fn rfc3339_accepts(text: Seq<char>) -> bool;

/// Compiles `pattern` with `regex::Regex::new` and hands back the error's
/// message, if any. The contract claims only that the outcome is the one
/// `regex_build_error` names for the pattern.
#[verifier::external_body]
pub(crate) fn regex_error(pattern: &str) -> (r: Option<String>)
    ensures
        match r {
            Some(m) => regex_build_error(pattern@) == Some(m@),
            None => regex_build_error(pattern@) is None,
        },
{
    regex::Regex::new(pattern).err().map(|e| e.to_string())
}

/// Compiles `pattern` with `regex::Regex::new` and calls `is_match` on
/// `text`; a pattern that does not compile matches nothing. The contract
/// claims that the result is `regex_accepts` of the two texts, and false
/// where `regex_build_error` names an error for the pattern.
#[verifier::external_body]
pub(crate) fn regex_match(pattern: &str, text: &str) -> (r: bool)
    ensures
        r == regex_accepts(pattern@, text@),
        regex_build_error(pattern@) is Some ==> !r,
{
    regex::Regex::new(pattern).is_ok_and(|re| re.is_match(text))
}

/// Calls `chrono::DateTime::parse_from_rfc3339` and reports whether it
/// succeeded; the contract claims only that this is `rfc3339_accepts` of
/// the text.
#[verifier::external_body]
pub(crate) fn is_rfc3339(text: &str) -> (r: bool)
    ensures
        r == rfc3339_accepts(text@),
{
    chrono::DateTime::parse_from_rfc3339(text).is_ok()
}

} // verus!
