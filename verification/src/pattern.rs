//! The regular-expression engine, reached through three small trusted calls.
//!
//! Nothing here is proved: the contracts below name what the `regex` crate
//! returns, so that the rest of the library can be stated exactly over those
//! names.

use regex::Regex;
use vstd::prelude::*;

verus! {

/// Whether `Regex::new` accepts `pattern`.
pub uninterp spec fn regex_accepts(pattern: Seq<char>) -> bool;

/// Whether the regex compiled from `pattern` matches anywhere in `text`
/// (`Regex::is_match`).
pub uninterp spec fn regex_matches(pattern: Seq<char>, text: Seq<char>) -> bool;

/// `text` after `Regex::replace` put `rep` in place of the leftmost match of
/// the regex compiled from `pattern`; `text` itself where there is no match.
pub uninterp spec fn regex_replaced(pattern: Seq<char>, text: Seq<char>, rep: Seq<char>) -> Seq<
    char,
>;

/// Calls `Regex::new` and reports whether it returned a compiled regex.
/// Trusted: the answer is `regex_accepts` of the pattern.
#[verifier::external_body]
pub(crate) fn pattern_compiles(pattern: &str) -> (ok: bool)
    ensures
        ok == regex_accepts(pattern@),
{
    Regex::new(pattern).is_ok()
}

/// Compiles `pattern` and calls `Regex::is_match` on `text`.
/// Trusted: `None` exactly when the pattern is not accepted, otherwise the
/// answer of `is_match`, which is `regex_matches` of pattern and text.
#[verifier::external_body]
pub(crate) fn pattern_is_match(pattern: &str, text: &str) -> (found: Option<bool>)
    ensures
        found is Some <==> regex_accepts(pattern@),
        found matches Some(b) ==> b == regex_matches(pattern@, text@),
{
    match Regex::new(pattern) {
        Ok(re) => Some(re.is_match(text)),
        Err(_) => None,
    }
}

/// Compiles `pattern` and calls `Regex::replace` on `text` with `rep`.
/// Trusted: `None` exactly when the pattern is not accepted, otherwise the
/// text that `replace` returned, which is `regex_replaced` of the three; and,
/// as `replace` documents, a text without a match comes back unchanged.
#[verifier::external_body]
pub(crate) fn pattern_replace(pattern: &str, text: &str, rep: &str) -> (out: Option<String>)
    ensures
        out is Some <==> regex_accepts(pattern@),
        out matches Some(s) ==> s@ == regex_replaced(pattern@, text@, rep@),
        out matches Some(s) ==> (!regex_matches(pattern@, text@) ==> s@ == text@),
{
    match Regex::new(pattern) {
        Ok(re) => Some(re.replace(text, rep).into_owned()),
        Err(_) => None,
    }
}

} // verus!
