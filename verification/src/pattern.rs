//! Regular-expression matching, as the `regex` crate performs it.
//!
//! Matching is a function of the pattern and the text alone, so each result
//! has a name in specifications. Nothing here says what a given pattern
//! matches: that is the `regex` crate's business.

use crate::text::texts;
use regex::Regex;
use vstd::prelude::*;

verus! {

/// Whether `pattern` matches somewhere in `text`; `None` when `pattern` is
/// not a regular expression that the engine accepts.
pub uninterp spec fn is_match_of(pattern: Seq<char>, text: Seq<char>) -> Option<bool>;

/// The pieces of `text` between successive matches of `pattern`; `None` when
/// `pattern` is not a regular expression that the engine accepts.
pub uninterp spec fn split_of(pattern: Seq<char>, text: Seq<char>) -> Option<Seq<Seq<char>>>;

/// The successive non-overlapping matches of `pattern` in `text`; `None` when
/// `pattern` is not a regular expression that the engine accepts.
pub uninterp spec fn matches_of(pattern: Seq<char>, text: Seq<char>) -> Option<Seq<Seq<char>>>;

/// What capture group `group` holds in the first match of `pattern` in
/// `text`; `None` when the pattern is not accepted, does not match, or the
/// group took no part in the match.
pub uninterp spec fn capture_of(pattern: Seq<char>, text: Seq<char>, group: nat) -> Option<
    Seq<char>,
>;

/// `Regex::new` followed by `Regex::is_match`. The contract only names the
/// outcome.
#[verifier::external_body]
pub(crate) fn is_match(pattern: &str, text: &str) -> (r: Option<bool>)
    ensures
        r == is_match_of(pattern@, text@),
{
    Regex::new(pattern).ok().map(|re| re.is_match(text))
}

/// `Regex::new` followed by `Regex::split`, the pieces collected in order.
/// The contract only names the outcome.
#[verifier::external_body]
pub(crate) fn split(pattern: &str, text: &str) -> (r: Option<Vec<String>>)
    ensures
        r is Some == split_of(pattern@, text@) is Some,
        r is Some ==> texts(r->0@) == split_of(pattern@, text@)->0,
{
    Regex::new(pattern).ok().map(|re| re.split(text).map(|piece| piece.to_string()).collect())
}

/// `Regex::new` followed by `Regex::find_iter`, the matched texts collected
/// in order. The contract only names the outcome.
#[verifier::external_body]
pub(crate) fn find_all(pattern: &str, text: &str) -> (r: Option<Vec<String>>)
    ensures
        r is Some == matches_of(pattern@, text@) is Some,
        r is Some ==> texts(r->0@) == matches_of(pattern@, text@)->0,
{
    Regex::new(pattern).ok().map(|re| re.find_iter(text).map(|m| m.as_str().to_string()).collect())
}

/// `Regex::new`, `Regex::captures` and `Captures::get`: the text of one
/// group of the first match. The contract only names the outcome.
#[verifier::external_body]
pub(crate) fn capture(pattern: &str, text: &str, group: usize) -> (r: Option<String>)
    ensures
        r is Some == capture_of(pattern@, text@, group as nat) is Some,
        r is Some ==> r->0@ == capture_of(pattern@, text@, group as nat)->0,
{
    let re = Regex::new(pattern).ok()?;
    let found = re.captures(text)?;
    found.get(group).map(|m| m.as_str().to_string())
}

} // verus!
