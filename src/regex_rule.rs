//! A compiled regular expression kept together with the text it was compiled from.
use vstd::prelude::*;

verus! {

/// `regex::Regex`, held opaque inside `RegexRule`.
#[verifier::external_type_specification]
#[verifier::external_body]
pub struct ExRegex(regex::Regex);

/// `regex::Error`, which `RegexRule::compile` hands back when compiling fails.
#[verifier::external_type_specification]
#[verifier::external_body]
pub struct ExRegexError(regex::Error);

/// Whether the regular-expression engine, with its default limits, accepts
/// the expression written `pattern`.
pub uninterp spec fn regex_compiles(pattern: Seq<char>) -> bool;

/// Whether the regular expression written `pattern` finds a match anywhere in `haystack`.
pub uninterp spec fn regex_finds(pattern: Seq<char>, haystack: Seq<char>) -> bool;

/// A regular expression and its source text.
///
/// The fields are private and `RegexRule::compile` is the only way to build
/// one, so `re` is always the compilation of `text`.
pub struct RegexRule {
    re: regex::Regex,
    text: String,
}

impl View for RegexRule {
    type V = Seq<char>;

    /// The source text of the expression.
    closed spec fn view(&self) -> Seq<char> {
        self.text@
    }
}

impl RegexRule {
    /// Relies on `regex::Regex::new`: compiles `text`, or reports why it
    /// cannot; which of the two depends on `text` alone.
    #[verifier::external_body]
    pub(crate) fn compile(text: String) -> (r: Result<RegexRule, regex::Error>)
        ensures
            r is Ok == regex_compiles(text@),
            r matches Ok(rule) ==> rule@ == text@,
    {
        match regex::Regex::new(&text) {
            Ok(re) => Ok(RegexRule { re, text }),
            Err(e) => Err(e),
        }
    }

    /// Relies on `regex::Regex::is_match`: whether the expression matches
    /// anywhere in `haystack`.
    #[verifier::external_body]
    pub(crate) fn is_match(&self, haystack: &str) -> (r: bool)
        ensures
            r == regex_finds(self@, haystack@),
    {
        self.re.is_match(haystack)
    }
}

} // verus!
