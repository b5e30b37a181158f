//! Regular-expression matching, done by the `regex` crate.

use vstd::prelude::*;

verus! {

/// What `regex::Regex::new(pattern)` followed by `captures_iter(text)` yields: `None`
/// when the pattern does not compile, otherwise the successive non-overlapping
/// leftmost-first matches, each given as its capture groups in order (group 0 is the
/// whole match; a group that took no part in the match is `None`).
pub uninterp spec fn regex_captures(pattern: Seq<char>, text: Seq<char>) -> Option<
    Seq<Seq<Option<Seq<char>>>>,
>;

/// What `regex::Regex::new(pattern)` followed by `is_match(text)` yields: `None` when
/// the pattern does not compile, otherwise whether the pattern matches somewhere in
/// `text`.
pub uninterp spec fn regex_is_match(pattern: Seq<char>, text: Seq<char>) -> Option<bool>;

/// Compiles `pattern` with `regex::Regex::new` and collects `Regex::captures_iter` over
/// `text`, every capture group turned into an owned string. Claimed: the result is
/// exactly [`regex_captures`] of the two arguments; nothing is stated of that name's
/// value, which only the regex engine determines.
#[verifier::external_body]
pub(crate) fn captures_all(pattern: &str, text: &str) -> (res: Option<Vec<Vec<Option<String>>>>)
    ensures
        res.deep_view() == regex_captures(pattern@, text@),
{
    let re = regex::Regex::new(pattern).ok()?;
    Some(
        re.captures_iter(text).map(
            |c| c.iter().map(|g| g.map(|m| m.as_str().to_string())).collect(),
        ).collect(),
    )
}

/// Compiles `pattern` with `regex::Regex::new` and asks `Regex::is_match` on `text`.
/// Claimed: the result is exactly [`regex_is_match`] of the two arguments.
#[verifier::external_body]
pub(crate) fn is_match(pattern: &str, text: &str) -> (res: Option<bool>)
    ensures
        res == regex_is_match(pattern@, text@),
{
    let re = regex::Regex::new(pattern).ok()?;
    Some(re.is_match(text))
}

} // verus!
