//! Regular expressions: compiling a pattern, testing a line, substituting.

use vstd::prelude::*;

verus! {

#[verifier::external_type_specification]
#[verifier::external_body]
pub struct ExRegex(regex::Regex);

#[verifier::external_type_specification]
#[verifier::external_body]
pub struct ExRegexError(regex::Error);

/// Whether the regex engine accepts `pattern`.
pub uninterp spec fn regex_compiles(pattern: Seq<char>) -> bool;

/// Whether the regex compiled from `pattern` matches anywhere in `text`.
pub uninterp spec fn regex_finds(pattern: Seq<char>, text: Seq<char>) -> bool;

/// `text` with the leftmost-first match of `pattern` replaced by `template`,
/// `$name` and `$N` references in the template expanded to capture groups.
pub uninterp spec fn regex_replace_first(
    pattern: Seq<char>,
    text: Seq<char>,
    template: Seq<char>,
) -> Seq<char>;

/// A compiled regular expression, kept together with the text it was compiled from.
pub struct Pattern {
    source: String,
    re: regex::Regex,
}

/// The pattern text that the regex engine refused.
pub struct PatternError {
    pub pattern: String,
}

impl View for Pattern {
    type V = Seq<char>;

    closed spec fn view(&self) -> Seq<char> {
        self.source@
    }
}

/// Relies on `regex::Regex::new`: it fails on an invalid pattern or one over the
/// default size limit, which depends on the pattern alone.
#[verifier::external_body]
fn compile(pattern: &str) -> (r: Result<regex::Regex, regex::Error>)
    ensures
        r is Ok <==> regex_compiles(pattern@),
{
    regex::Regex::new(pattern)
}

/// Relies on `regex::Regex::is_match`, applied to the regex that `Pattern::new`
/// compiled from `p.source`: true iff there is a match anywhere in `text`.
#[verifier::external_body]
fn search(p: &Pattern, text: &str) -> (r: bool)
    ensures
        r == regex_finds(p@, text@),
{
    p.re.is_match(text)
}

/// Relies on `regex::Regex::replace`, applied to the regex that `Pattern::new`
/// compiled from `p.source`: the leftmost-first match is replaced, and where
/// there is no match the text comes back unchanged.
#[verifier::external_body]
fn substitute(p: &Pattern, text: &str, template: &str) -> (r: String)
    ensures
        r@ == regex_replace_first(p@, text@, template@),
        !regex_finds(p@, text@) ==> r@ == text@,
{
    p.re.replace(text, template).into_owned()
}

impl Pattern {
    /// Compiles `pattern`; fails exactly when the regex engine refuses it.
    pub fn new(pattern: &str) -> (r: Result<Pattern, PatternError>)
        ensures
            r is Ok <==> regex_compiles(pattern@),
            r matches Ok(p) ==> p@ == pattern@,
            r matches Err(e) ==> e.pattern@ == pattern@,
    {
        match compile(pattern) {
            Ok(re) => Ok(Pattern { source: pattern.to_owned(), re }),
            Err(_) => Err(PatternError { pattern: pattern.to_owned() }),
        }
    }

    /// The text this pattern was compiled from.
    pub fn as_str(&self) -> (r: &str)
        ensures
            r@ == self@,
    {
        self.source.as_str()
    }

    /// Whether the pattern matches anywhere in `text`.
    pub fn is_match(&self, text: &str) -> (r: bool)
        ensures
            r == regex_finds(self@, text@),
    {
        search(self, text)
    }

    /// `text` with its first match replaced by `template`.
    pub fn replace_first(&self, text: &str, template: &str) -> (r: String)
        ensures
            r@ == regex_replace_first(self@, text@, template@),
            !regex_finds(self@, text@) ==> r@ == text@,
    {
        substitute(self, text, template)
    }
}

} // verus!
