//! Regular expressions, as the `regex` crate reads them.
//!
//! The engine is not verified. What it answers is named here, so that the
//! contracts of this crate can say which question was put to it.

use vstd::prelude::*;

verus! {

/// Whether the engine accepts `pattern` as a regular expression.
pub uninterp spec fn regex_accepts(pattern: Seq<char>) -> bool;

/// Whether the regular expression `pattern` matches anywhere in `text`.
pub uninterp spec fn regex_matches(pattern: Seq<char>, text: Seq<char>) -> bool;

/// `text` with every match of `pattern` replaced by what `replacement`
/// expands to, matches taken from the left and not overlapping.
pub uninterp spec fn regex_replaced(
    pattern: Seq<char>,
    text: Seq<char>,
    replacement: Seq<char>,
) -> Seq<char>;

/// Asks `regex::Regex::new` whether it compiles `pattern`. The answer depends
/// on the pattern alone.
#[verifier::external_body]
pub(crate) fn compiles(pattern: &str) -> (ok: bool)
    ensures
        ok == regex_accepts(pattern@),
{
    regex::Regex::new(pattern).is_ok()
}

/// Compiles `pattern` and asks `regex::Regex::is_match` whether it matches
/// somewhere in `text`. The pattern must be one that compiles.
#[verifier::external_body]
pub(crate) fn is_match(pattern: &str, text: &str) -> (found: bool)
    requires
        regex_accepts(pattern@),
    ensures
        found == regex_matches(pattern@, text@),
{
    regex::Regex::new(pattern).unwrap().is_match(text)
}

/// Compiles `pattern` and has `regex::Regex::replace_all` replace its matches
/// in `text`. The pattern must be one that compiles.
#[verifier::external_body]
pub(crate) fn replace_all(pattern: &str, text: &str, replacement: &str) -> (out: String)
    requires
        regex_accepts(pattern@),
    ensures
        out@ == regex_replaced(pattern@, text@, replacement@),
{
    regex::Regex::new(pattern).unwrap().replace_all(text, replacement).into_owned()
}

} // verus!
