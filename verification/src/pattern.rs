//! Regular expressions over function names and source paths.

use vstd::prelude::*;

verus! {

#[verifier::external_type_specification]
#[verifier::external_body]
pub struct ExRegex(regex::Regex);

#[verifier::external_type_specification]
#[verifier::external_body]
pub struct ExRegexError(regex::Error);

/// Whether the regex engine accepts `source` as a pattern.
pub uninterp spec fn pattern_is_valid(source: Seq<char>) -> bool;

/// Whether the pattern `source` has a match anywhere in `text`.
pub uninterp spec fn pattern_matches(source: Seq<char>, text: Seq<char>) -> bool;

/// A pattern that the regex engine has accepted and compiled.
///
/// A value of this type comes from [`Pattern::new`] alone, so `compiled` is
/// always what the engine made of `source`.
#[derive(Debug)]
pub struct Pattern {
    source: String,
    compiled: regex::Regex,
}

impl View for Pattern {
    type V = Seq<char>;

    /// The text of the pattern.
    closed spec fn view(&self) -> Seq<char> {
        self.source@
    }
}

/// Compiles `source` with `regex::Regex::new`.
///
/// The engine accepts or refuses a pattern by its text alone, which
/// `pattern_is_valid` names. The compiled form is kept beside a copy of the
/// text it was made from.
#[verifier::external_body]
fn compile(source: &str) -> (r: Result<Pattern, regex::Error>)
    ensures
        r is Ok <==> pattern_is_valid(source@),
        r matches Ok(pattern) ==> pattern@ == source@,
{
    match regex::Regex::new(source) {
        Ok(compiled) => Ok(Pattern { source: source.to_owned(), compiled }),
        Err(error) => Err(error),
    }
}

/// Searches `text` with `regex::Regex::is_match`.
///
/// Whether a compiled pattern matches depends on the pattern's text and on
/// the text searched, and on nothing else; `pattern_matches` names it.
#[verifier::external_body]
fn search(pattern: &Pattern, text: &str) -> (r: bool)
    ensures
        r == pattern_matches(pattern@, text@),
{
    pattern.compiled.is_match(text)
}

/// What the regex engine says of a pattern that it refused.
pub uninterp spec fn refusal_text(error: regex::Error) -> Seq<char>;

/// What the regex engine has to say of a pattern it refused, as
/// `regex::Error` prints it: for a syntax error the engine's account of it,
/// for a pattern that compiles to too much the limit that it went over.
/// The text depends on the error and on nothing else; `refusal_text` names
/// it.
#[verifier::external_body]
fn describe(error: &regex::Error) -> (r: String)
    ensures
        r@ == refusal_text(*error),
{
    format!("{}", error)
}

impl Pattern {
    /// Compiles a pattern. An invalid one is refused with the engine's error.
    pub fn new(source: &str) -> (r: Result<Pattern, regex::Error>)
        ensures
            r is Ok <==> pattern_is_valid(source@),
            r matches Ok(pattern) ==> pattern@ == source@,
    {
        compile(source)
    }

    /// Whether the pattern has a match anywhere in `text`.
    pub fn is_match(&self, text: &str) -> (r: bool)
        ensures
            r == pattern_matches(self@, text@),
    {
        search(self, text)
    }

    /// The text of the pattern.
    pub fn as_str(&self) -> (r: &str)
        ensures
            r@ == self@,
    {
        self.source.as_str()
    }
}

/// The message of the regex engine for a pattern that it refused.
pub(crate) fn error_message(error: &regex::Error) -> (r: String)
    ensures
        r@ == refusal_text(*error),
{
    describe(error)
}

/// Whether an optional pattern is the compiled form of an optional text.
pub open spec fn compiled_from(pattern: Option<Pattern>, source: Option<String>) -> bool {
    match (pattern, source) {
        (None, None) => true,
        (Some(pattern), Some(source)) => pattern@ == source@,
        _ => false,
    }
}

} // verus!
