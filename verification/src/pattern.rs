//! Label patterns, evaluated by the `regex` crate.

use vstd::prelude::*;

verus! {

/// Whether the `regex` crate accepts `pattern`: `Regex::new` returns `Ok`.
pub uninterp spec fn pattern_compiles(pattern: Seq<char>) -> bool;

/// Whether the regular expression that `Regex::new` builds from `pattern`
/// matches somewhere in `text`: what `Regex::is_match` returns.
pub uninterp spec fn pattern_matches(pattern: Seq<char>, text: Seq<char>) -> bool;

/// Whether `pattern` is accepted and matches somewhere in `text`. A pattern
/// that is not accepted matches nothing.
pub open spec fn pattern_hits(pattern: Seq<char>, text: Seq<char>) -> bool {
    pattern_compiles(pattern) && pattern_matches(pattern, text)
}

/// Builds a regular expression with `regex::Regex::new` and searches `text`
/// with `regex::Regex::is_match`. The contract claims that both calls are
/// functions of their arguments alone: whether the pattern is accepted
/// depends on the pattern only, and whether an accepted pattern matches
/// depends on the pattern and the text only. `None` stands for the error of
/// `Regex::new`.
#[verifier::external_body]
fn search(pattern: &str, text: &str) -> (r: Option<bool>)
    ensures
        r == (if pattern_compiles(pattern@) {
            Some(pattern_matches(pattern@, text@))
        } else {
            None
        }),
{
    match regex::Regex::new(pattern) {
        Ok(re) => Some(re.is_match(text)),
        Err(_) => None,
    }
}

/// Whether the pattern is accepted and matches somewhere in `text`.
pub fn hits(pattern: &str, text: &str) -> (r: bool)
    ensures
        r == pattern_hits(pattern@, text@),
{
    match search(pattern, text) {
        Some(found) => found,
        None => false,
    }
}

/// Whether the pattern is accepted at all.
pub fn pattern_ready(pattern: &str) -> (r: bool)
    ensures
        r == pattern_compiles(pattern@),
{
    search(pattern, "").is_some()
}


} // verus!
