//! Regular expressions, as the `regex` crate compiles and applies them.
//!
//! What a regular expression matches is the `regex` crate's business and
//! takes pages to state, so its results are named here rather than
//! described: `regex_compiles` and `regex_replaced` stand for what
//! `Regex::new` and `Regex::replace_all` give.
use vstd::prelude::*;
use crate::text::{marks_removed, white_underscored};

verus! {

#[verifier::external_type_specification]
#[verifier::external_body]
pub struct ExRegex(regex::Regex);

#[verifier::external_type_specification]
#[verifier::external_body]
pub struct ExRegexError(regex::Error);

/// Whether `regex::Regex::new` accepts `pattern` (valid syntax, within the
/// default size limit).
pub uninterp spec fn regex_compiles(pattern: Seq<char>) -> bool;

/// What `Regex::replace_all` gives for the regex compiled from `pattern`,
/// the haystack `text` and the replacement string `rep`.
pub uninterp spec fn regex_replaced(pattern: Seq<char>, text: Seq<char>, rep: Seq<char>) -> Seq<
    char,
>;

/// `regex::Regex::new`: succeeds exactly when the `regex` crate accepts the
/// pattern; in general that condition is left to the name `regex_compiles`.
/// Two patterns are stated to compile: `-|\s` and `'|™|:`, alternations of a
/// literal with the documented Perl class `\s` or with literals, far below
/// the default size limit.
#[verifier::external_body]
fn regex_new(pattern: &str) -> (r: Result<regex::Regex, regex::Error>)
    ensures
        r is Ok <==> regex_compiles(pattern@),
        pattern@ == "-|\\s"@ || pattern@ == "'|™|:"@ ==> r is Ok,
{
    regex::Regex::new(pattern)
}

/// A compiled regular expression together with the pattern it was compiled
/// from. Only `CompiledPattern::new` builds one, so `source` is always the
/// text that `re` came from.
pub struct CompiledPattern {
    source: String,
    re: regex::Regex,
}

impl CompiledPattern {
    /// The pattern this regex was compiled from.
    pub closed spec fn source(&self) -> Seq<char> {
        self.source@
    }

    /// Compiles `pattern`; `None` exactly when the `regex` crate refuses it.
    pub fn new(pattern: &str) -> (r: Option<CompiledPattern>)
        ensures
            r is Some <==> regex_compiles(pattern@),
            pattern@ == "-|\\s"@ || pattern@ == "'|™|:"@ ==> r is Some,
            r matches Some(p) ==> p.source() == pattern@,
    {
        match regex_new(pattern) {
            Ok(re) => Some(CompiledPattern { source: pattern.to_owned(), re }),
            Err(_) => None,
        }
    }

    /// `Regex::replace_all` with a replacement string: every non-overlapping
    /// match in `text` replaced by `rep` (where `$` names a group). In general
    /// the result is left to the name `regex_replaced` over the source
    /// pattern. For two patterns that only match single characters, the
    /// crate's documentation states the result in full: `\s` is
    /// `\p{White_Space}` (the characters of `is_space`), so `-|\s` replaced
    /// by `_` turns each dash and white-space character into `'_'`, and
    /// `'|™|:` replaced by nothing drops apostrophes, `'™'` and colons;
    /// neither replacement holds a `$`.
    #[verifier::external_body]
    pub(crate) fn replace_all(&self, text: &str, rep: &str) -> (r: String)
        ensures
            r@ == regex_replaced(self.source(), text@, rep@),
            self.source() == "-|\\s"@ && rep@ == "_"@ ==> r@ == white_underscored(text@),
            self.source() == "'|™|:"@ && rep@ == ""@ ==> r@ == marks_removed(text@),
    {
        self.re.replace_all(text, rep).into_owned()
    }
}

} // verus!
