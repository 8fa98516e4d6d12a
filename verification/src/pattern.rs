//! Regular expressions, as the `regex` crate matches them.
//!
//! Nothing here is proved: each function hands its arguments to the crate
//! and its contract only gives the answer a name.

use vstd::prelude::*;
use regex::Regex;

verus! {

/// The answer of the `regex` crate to "does `pattern` match somewhere in
/// `haystack`": `None` when `Regex::new` rejects the pattern, else what
/// `Regex::is_match` returns.
pub uninterp spec fn regex_is_match(pattern: Seq<char>, haystack: Seq<char>) -> Option<bool>;

/// The capture groups of the first match of `pattern` in `haystack`, as
/// `Regex::captures` yields them: group 0 is the whole match, and a group
/// that took no part in the match is `None`. The result is `None` when
/// `Regex::new` rejects the pattern or nothing matches.
pub uninterp spec fn regex_captures(pattern: Seq<char>, haystack: Seq<char>) -> Option<
    Seq<Option<Seq<char>>>,
>;

/// Calls `Regex::new` on `pattern` and `Regex::is_match` on the result.
/// Claims only that the answer depends on the two texts alone.
#[verifier::external_body]
pub(crate) fn is_match(pattern: &str, haystack: &str) -> (res: Option<bool>)
    ensures
        res == regex_is_match(pattern@, haystack@),
{
    match Regex::new(pattern) {
        Ok(re) => Some(re.is_match(haystack)),
        Err(_) => None,
    }
}

/// Calls `Regex::new` on `pattern` and `Regex::captures` on the result, and
/// copies each group's text out. Claims only that the groups depend on the
/// two texts alone.
#[verifier::external_body]
pub(crate) fn captures(pattern: &str, haystack: &str) -> (res: Option<Vec<Option<String>>>)
    ensures
        res.deep_view() == regex_captures(pattern@, haystack@),
{
    match Regex::new(pattern) {
        Ok(re) => re.captures(haystack).map(
            |caps| caps.iter().map(|group| group.map(|m| m.as_str().to_string())).collect(),
        ),
        Err(_) => None,
    }
}

} // verus!
