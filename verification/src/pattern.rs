//! Name patterns: regular expressions from the configuration.
use regex::Regex;
use vstd::prelude::*;

verus! {

/// `regex::Regex`, a compiled pattern. Opaque here; `regex_source` names a text
/// that says what it matches.
#[verifier::external_type_specification]
#[verifier::external_body]
pub struct ExRegex(Regex);

/// A pattern text that says what a compiled pattern matches: for one that
/// `Regex::new` made, the text it was made from.
pub uninterp spec fn regex_source(re: Regex) -> Seq<char>;

/// Whether `Regex::new` accepts a pattern.
pub uninterp spec fn pattern_valid(pattern: Seq<char>) -> bool;

/// Whether `Regex::is_match`, on a pattern compiled from `pattern`, finds a
/// match anywhere in `text`.
pub uninterp spec fn pattern_matches(pattern: Seq<char>, text: Seq<char>) -> bool;

/// Calls `Regex::new`. It succeeds on exactly the valid patterns, and what the
/// compiled pattern matches is what the text says.
#[verifier::external_body]
pub(crate) fn regex_new(pattern: &str) -> (r: Option<Regex>)
    ensures
        r is Some == pattern_valid(pattern@),
        r matches Some(re) ==> regex_source(re) == pattern@,
{
    Regex::new(pattern).ok()
}

/// Calls `Regex::is_match`. What it finds depends only on what the pattern
/// matches, which its source says, and on the text that is searched.
#[verifier::external_body]
pub(crate) fn regex_is_match(re: &Regex, text: &str) -> (r: bool)
    ensures
        r == pattern_matches(regex_source(*re), text@),
{
    re.is_match(text)
}

/// Whether a pattern list has a pattern that matches `text`.
pub open spec fn any_matches(patterns: Seq<Regex>, text: Seq<char>) -> bool {
    exists|i: int|
        0 <= i < patterns.len() && pattern_matches(regex_source(#[trigger] patterns[i]), text)
}

/// Whether any pattern of the list matches `text`.
pub fn matches_any(patterns: &Vec<Regex>, text: &str) -> (r: bool)
    ensures
        r == any_matches(patterns@, text@),
{
    let mut i: usize = 0;
    while i < patterns.len()
        invariant
            i <= patterns.len(),
            forall|k: int|
                0 <= k < i ==> !pattern_matches(regex_source(#[trigger] patterns@[k]), text@),
        decreases patterns.len() - i,
    {
        if regex_is_match(&patterns[i], text) {
            return true;
        }
        i = i + 1;
    }
    false
}

} // verus!
