//! Filters on entry names, written as regular expressions.

use crate::error::Error;
use regex::Regex;
use vstd::prelude::*;

verus! {

/// `regex::Regex`, a compiled regular expression. Nothing is known of what
/// it holds.
#[verifier::external_type_specification]
#[verifier::external_body]
pub struct ExRegex(Regex);

/// Whether `pattern` is a regular expression that can be compiled: what
/// `Regex::new` decides for it under the limits that it has by default.
pub uninterp spec fn regex_compiles(pattern: Seq<char>) -> bool;

/// Whether the regular expression written as `pattern` matches somewhere in
/// `text`: what `Regex::is_match` answers for the expression compiled from
/// `pattern`.
pub uninterp spec fn regex_matches(pattern: Seq<char>, text: Seq<char>) -> bool;

/// A compiled filter, with the pattern it was compiled from.
pub struct Filter {
    pattern: String,
    regex: Regex,
}

/// `Regex::new`: compiles the pattern, or hands back the message of the
/// failure. Whether it compiles depends on the pattern alone. A filter that
/// comes back holds the pattern it was made from; nothing is claimed of the
/// message.
#[verifier::external_body]
fn compile(pattern: &str) -> (made: Result<Filter, String>)
    ensures
        (made is Ok) == regex_compiles(pattern@),
        made matches Ok(filter) ==> filter.pattern() == pattern@,
{
    match Regex::new(pattern) {
        Ok(regex) => Ok(Filter { pattern: pattern.to_owned(), regex }),
        Err(failure) => Err(failure.to_string()),
    }
}

/// `Regex::is_match`: whether the filter matches somewhere in the text. The
/// answer depends on the pattern and the text alone.
#[verifier::external_body]
pub(crate) fn search(filter: &Filter, text: &str) -> (found: bool)
    ensures
        found == regex_matches(filter.pattern(), text@),
{
    filter.regex.is_match(text)
}

impl Filter {
    /// The pattern that this filter was compiled from.
    pub closed spec fn pattern(&self) -> Seq<char> {
        self.pattern@
    }

    /// Compiles a filter: there is one for every pattern that compiles, and
    /// it holds that pattern. A pattern that does not compile is a pattern
    /// failure with the compiler's message.
    pub fn new(pattern: &str) -> (made: Result<Filter, Error>)
        ensures
            (made is Ok) == regex_compiles(pattern@),
            made matches Ok(filter) ==> filter.pattern() == pattern@,
            made matches Err(error) ==> error is Regex,
    {
        match compile(pattern) {
            Ok(filter) => Ok(filter),
            Err(message) => Err(Error::Regex(message)),
        }
    }
}

} // verus!
