//! Name patterns: regular expressions that select or exclude files.

use regex::Regex;
use vstd::prelude::*;

verus! {

#[verifier::external_type_specification]
#[verifier::external_body]
pub struct ExRegexError(regex::Error);

/// Whether the regex engine accepts `source` as an expression, that is,
/// whether `regex::Regex::new` returns `Ok` for it.
pub uninterp spec fn regex_accepts(source: Seq<char>) -> bool;

/// Whether the expression compiled from `source` matches anywhere in `text`,
/// as `regex::Regex::is_match` reports it.
pub uninterp spec fn regex_finds(source: Seq<char>, text: Seq<char>) -> bool;

/// Compiles `source` with `regex::Regex::new` and searches `text` with
/// `Regex::is_match`. The engine's error comes back when it rejects `source`;
/// otherwise the answer of the search. Nothing is claimed about which
/// expressions are accepted or what they match: both are only given names.
#[verifier::external_body]
fn regex_search(source: &str, text: &str) -> (r: Result<bool, regex::Error>)
    ensures
        r is Ok <==> regex_accepts(source@),
        r matches Ok(found) ==> found == regex_finds(source@, text@),
{
    match Regex::new(source) {
        Ok(re) => Ok(re.is_match(text)),
        Err(e) => Err(e),
    }
}

/// Why an expression was turned down.
#[derive(Debug)]
pub struct PatternError {
    /// The text that was offered as an expression.
    pub pattern: String,
    /// The engine's own account of what is wrong with it.
    pub reason: String,
}

/// A regular expression that the engine has accepted.
#[derive(Debug)]
pub struct Pattern {
    source: String,
}

impl View for Pattern {
    type V = Seq<char>;

    /// The text of the expression.
    closed spec fn view(&self) -> Seq<char> {
        self.source@
    }
}

impl Pattern {
    #[verifier::type_invariant]
    spec fn accepted(self) -> bool {
        regex_accepts(self.source@)
    }

    /// Checks `source` with the engine and keeps it if it is accepted.
    pub fn new(source: &str) -> (r: Result<Pattern, PatternError>)
        ensures
            r is Ok <==> regex_accepts(source@),
            r matches Ok(p) ==> p@ == source@,
            r matches Err(e) ==> e.pattern@ == source@,
    {
        match regex_search(source, "") {
            Ok(_) => Ok(Pattern { source: String::from_str(source) }),
            Err(e) => Err(PatternError { pattern: String::from_str(source), reason: e.to_string() }),
        }
    }

    /// The text of the expression.
    pub fn as_str(&self) -> (s: &str)
        ensures
            s@ == self@,
    {
        self.source.as_str()
    }

    /// Tells whether the expression matches anywhere in `text`.
    pub fn is_match(&self, text: &str) -> (found: bool)
        ensures
            found == regex_finds(self@, text@),
    {
        proof {
            use_type_invariant(self);
        }
        match regex_search(self.source.as_str(), text) {
            Ok(found) => found,
            // The engine accepted the expression when the pattern was made.
            Err(_) => false,
        }
    }
}

} // verus!
