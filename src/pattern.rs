//! Regular expressions, compiled by the `regex` crate. What a pattern
//! matches is named here, not restated: each name below is a function of
//! the pattern text and the haystack alone.

use regex::Regex;
use vstd::prelude::*;

verus! {

#[verifier::external_type_specification]
#[verifier::external_body]
pub struct ExRegex(Regex);

#[verifier::external_type_specification]
#[verifier::external_body]
pub struct ExRegexError(regex::Error);

/// The pattern text compiles under the default size limit.
pub uninterp spec fn regex_compiles(pattern: Seq<char>) -> bool;

/// The pattern matches somewhere in the text.
pub uninterp spec fn regex_matches(pattern: Seq<char>, text: Seq<char>) -> bool;

/// The pieces of the text between matches of the pattern.
pub uninterp spec fn regex_split(pattern: Seq<char>, text: Seq<char>) -> Seq<Seq<char>>;

/// The text of the named group in the first match of the pattern, if there
/// is a match and the group took part in it.
pub uninterp spec fn regex_group(pattern: Seq<char>, text: Seq<char>, name: Seq<char>) -> Option<
    Seq<char>,
>;

/// A compiled regular expression and the pattern text it was compiled from.
/// Only `compile` makes one, so the two always agree.
pub struct Pattern {
    source: String,
    re: Regex,
}

impl View for Pattern {
    type V = Seq<char>;

    closed spec fn view(&self) -> Seq<char> {
        self.source@
    }
}

impl Pattern {
    /// Relies on regex::Regex::new: it succeeds exactly when the pattern
    /// text is valid and small enough, which depends on that text alone.
    #[verifier::external_body]
    pub(crate) fn compile(source: &str) -> (r: Result<Pattern, regex::Error>)
        ensures
            r is Ok <==> regex_compiles(source@),
            r is Ok ==> r->Ok_0@ == source@,
    {
        match Regex::new(source) {
            Ok(re) => Ok(Pattern { source: source.to_string(), re }),
            Err(e) => Err(e),
        }
    }

    /// Relies on regex::Regex::is_match.
    #[verifier::external_body]
    pub(crate) fn is_match(&self, text: &str) -> (r: bool)
        ensures
            r == regex_matches(self@, text@),
    {
        self.re.is_match(text)
    }

    /// Relies on regex::Regex::split: the pieces between matches, in order.
    #[verifier::external_body]
    pub(crate) fn split(&self, text: &str) -> (r: Vec<String>)
        ensures
            r@.map_values(|s: String| s@) == regex_split(self@, text@),
    {
        self.re.split(text).map(str::to_string).collect()
    }

    /// Relies on regex::Regex::captures, Captures::name and Match::as_str:
    /// the text of the named group in the first match.
    #[verifier::external_body]
    pub(crate) fn group(&self, text: &str, name: &str) -> (r: Option<String>)
        ensures
            match r {
                Some(s) => regex_group(self@, text@, name@) == Some(s@),
                None => regex_group(self@, text@, name@) is None,
            },
    {
        self.re.captures(text).and_then(|c| c.name(name)).map(|m| m.as_str().to_string())
    }
}

} // verus!
