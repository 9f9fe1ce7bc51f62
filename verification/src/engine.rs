//! The pattern engine: regular expressions of the `regex` crate.
//!
//! What is said of the engine here is taken for granted and not proved:
//! the three functions that call it have a contract and a body that is
//! not looked into, and every proof about patterns rests on those
//! contracts. What an expression matches is not spelt out; it has a name,
//! [`regex_matches`] or [`regex_captures`], that stands for what the engine
//! finds. Which patterns the engine takes has no name: that depends on
//! more than the pattern.

use crate::error::SearchError;
use regex::Regex;
use vstd::prelude::*;

verus! {

/// `regex::Regex`, a compiled expression. Nothing inside it is seen here.
#[verifier::external_type_specification]
#[verifier::external_body]
pub struct ExRegex(regex::Regex);

/// `regex::Error`, why the engine refused a pattern. Nothing inside it is
/// seen here.
#[verifier::external_type_specification]
#[verifier::external_body]
pub struct ExRegexError(regex::Error);

/// The pattern that a compiled expression was made from: what
/// `Regex::as_str` returns.
pub uninterp spec fn regex_source(re: Regex) -> Seq<char>;

/// Whether the expression made from `pattern` matches anywhere in
/// `haystack`: what `Regex::is_match` returns.
pub uninterp spec fn regex_matches(pattern: Seq<char>, haystack: Seq<char>) -> bool;

/// The matches of the expression made from `pattern` in `haystack`, one
/// after the other and none overlapping another, each with the text of
/// every group: what `Regex::captures_iter` yields. Group 0 is the whole
/// match; a group that took no part in a match has no text.
pub uninterp spec fn regex_captures(pattern: Seq<char>, haystack: Seq<char>) -> Seq<
    Seq<Option<Seq<char>>>,
>;

/// A pattern that the engine has compiled.
///
/// A matcher is made by [`Matcher::compile`] alone, so that its expression
/// is always one that `Regex::new` made, with every option of the engine
/// as it comes.
pub struct Matcher {
    engine: Regex,
}

/// `Regex::new`: compiles `pattern`. The engine refuses a pattern with a
/// syntax error and one that grows too large when compiled; nothing is
/// claimed of which patterns those are. An expression that comes back
/// remembers the pattern it was made from.
#[verifier::external_body]
fn compile(pattern: &str) -> (made: Result<Regex, regex::Error>)
    ensures
        made matches Ok(re) ==> regex_source(re) == pattern@,
{
    Regex::new(pattern)
}

impl Matcher {
    /// The pattern that this matcher was compiled from.
    pub closed spec fn pattern(&self) -> Seq<char> {
        regex_source(self.engine)
    }

    /// Compiles `pattern`. What comes back is a matcher for this very
    /// pattern, or the one error that stands for a pattern refused.
    pub fn compile(pattern: &str) -> (made: Result<Matcher, SearchError>)
        ensures
            made matches Ok(matcher) ==> matcher.pattern() == pattern@,
            made matches Err(error) ==> error == SearchError::MalformedPattern,
    {
        match compile(pattern) {
            Ok(engine) => Ok(Matcher { engine }),
            Err(_) => Err(SearchError::MalformedPattern),
        }
    }

    /// `Regex::is_match`: whether the expression matches anywhere in
    /// `haystack`. The answer is taken to depend on nothing but the
    /// pattern and the haystack: two expressions that `Regex::new` made
    /// from one pattern match alike.
    #[verifier::external_body]
    pub(crate) fn is_match(&self, haystack: &str) -> (found: bool)
        ensures
            found == regex_matches(self.pattern(), haystack@),
    {
        self.engine.is_match(haystack)
    }

    /// `Regex::captures_iter`: all matches of the expression in
    /// `haystack`, from first to last. Each match is read with
    /// `Captures::iter`, which gives every group in the order of its
    /// number, and the text of a group is what `Match::as_str` gives. As
    /// with `is_match`, the matches are taken to depend on nothing but the
    /// pattern and the haystack.
    #[verifier::external_body]
    pub(crate) fn captures(&self, haystack: &str) -> (found: Vec<Vec<Option<String>>>)
        ensures
            found.deep_view() == regex_captures(self.pattern(), haystack@),
    {
        self.engine.captures_iter(haystack).map(
            |groups| groups.iter().map(|group| group.map(|m| m.as_str().to_string())).collect(),
        ).collect()
    }
}

} // verus!
