use vstd::prelude::*;

use regex::Regex;

verus! {

#[verifier::external_type_specification]
#[verifier::external_body]
pub struct ExRegex(Regex);

#[verifier::external_type_specification]
#[verifier::external_body]
pub struct ExRegexError(regex::Error);

/// Whether the regex crate compiles `pattern`.
pub uninterp spec fn regex_accepts(pattern: Seq<char>) -> bool;

/// Whether the regex compiled from `pattern` matches somewhere in `text`.
pub uninterp spec fn regex_finds(pattern: Seq<char>, text: Seq<char>) -> bool;

/// Relies on regex's `Regex::new`: it compiles the pattern or reports why it
/// cannot, and which of the two depends on the pattern alone.
#[verifier::external_body]
fn compile_regex(pattern: &str) -> (r: Result<Regex, regex::Error>)
    ensures
        r is Ok <==> regex_accepts(pattern@),
{
    Regex::new(pattern)
}

/// Relies on the `Display` of regex's `Error` for a readable message.
#[verifier::external_body]
fn regex_error_message(e: &regex::Error) -> (r: String) {
    e.to_string()
}

/// Relies on regex's `Regex::is_match`: whether the regex matches somewhere in
/// `text`. The regex of a `Pattern` is always the one compiled from its source,
/// as `Pattern::new` alone builds a `Pattern`.
#[verifier::external_body]
fn regex_is_match(pattern: &Pattern, text: &str) -> (r: bool)
    ensures
        r == regex_finds(pattern@, text@),
{
    pattern.regex.is_match(text)
}

/// A pattern that does not compile, with the reason.
#[derive(Clone, Debug)]
pub struct PatternError {
    pub pattern: String,
    pub message: String,
}

/// A compiled regular expression together with its source text. Matching is
/// case-sensitive and unanchored unless the pattern says otherwise.
pub struct Pattern {
    source: String,
    regex: Regex,
}

impl View for Pattern {
    type V = Seq<char>;

    closed spec fn view(&self) -> Seq<char> {
        self.source@
    }
}

impl Pattern {
    /// Compiles `source`, or fails with the reason where it is no valid pattern.
    pub fn new(source: &str) -> (r: Result<Pattern, PatternError>)
        ensures
            r is Ok <==> regex_accepts(source@),
            match r {
                Ok(p) => p@ == source@,
                Err(e) => e.pattern@ == source@,
            },
    {
        match compile_regex(source) {
            Ok(regex) => Ok(Pattern { source: String::from_str(source), regex }),
            Err(e) => Err(PatternError { pattern: String::from_str(source), message: regex_error_message(&e) }),
        }
    }

    /// The source text of the pattern.
    pub fn as_str(&self) -> (r: &str)
        ensures
            r@ == self@,
    {
        self.source.as_str()
    }

    /// Whether the pattern matches somewhere in `text`.
    pub fn is_match(&self, text: &str) -> (r: bool)
        ensures
            r == regex_finds(self@, text@),
    {
        regex_is_match(self, text)
    }
}

} // verus!
