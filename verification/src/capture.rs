//! Capture groups of regular expressions, through the `regex` crate.

use vstd::prelude::*;

verus! {

/// What the `regex` crate captures: the text of capture group `group` in the
/// leftmost match of `pattern` in `haystack`; `None` where `pattern` is no
/// valid expression, where it matches nowhere in `haystack`, or where the
/// group took no part in the match.
pub uninterp spec fn regex_capture(pattern: Seq<char>, group: nat, haystack: Seq<char>) -> Option<
    Seq<char>,
>;

/// Compiles `pattern` with `regex::Regex::new`, searches `haystack` with
/// `Regex::captures` and copies the text of `Captures::get(group)`.
///
/// Nothing is proved of the outcome: the contract names it, so that two
/// searches with the same pattern, group and haystack are known to agree,
/// and says that the text of a group, being a part of the haystack, is no
/// longer than the haystack.
#[verifier::external_body]
pub(crate) fn capture(pattern: &str, group: usize, haystack: &str) -> (r: Option<String>)
    ensures
        regex_capture(pattern@, group as nat, haystack@) == match r {
            Some(text) => Some(text@),
            None => None,
        },
        r is Some ==> r->0@.len() <= haystack@.len(),
{
    let re = regex::Regex::new(pattern).ok()?;
    let caps = re.captures(haystack)?;
    caps.get(group).map(|m| m.as_str().to_string())
}

} // verus!
