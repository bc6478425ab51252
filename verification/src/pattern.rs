//! String patterns, compiled by the `regex` crate's linear-time engine.
use vstd::prelude::*;
use regex::{Regex, RegexBuilder};

verus! {

#[verifier::external_type_specification]
#[verifier::external_body]
pub struct ExRegex(Regex);

/// Whether `regex::RegexBuilder::new(pattern).size_limit(size_limit).build()`
/// succeeds: the pattern is in the engine's syntax (no look-around or
/// back-references) and compiles within `size_limit` bytes.
pub uninterp spec fn regex_compiles(pattern: Seq<char>, size_limit: nat) -> bool;

/// Whether the regex compiled from `pattern` matches somewhere in `haystack`
/// (`Regex::is_match`, an unanchored search).
pub uninterp spec fn regex_matches(pattern: Seq<char>, haystack: Seq<char>) -> bool;

/// A pattern together with the regex compiled from it.  Values are made only
/// by `compile_pattern`, so the regex is always the one built from `source`.
pub struct CompiledPattern {
    source: String,
    regex: Regex,
}

impl CompiledPattern {
    pub closed spec fn source(&self) -> Seq<char> {
        self.source@
    }

    /// The pattern text.
    pub fn pattern(&self) -> (r: &str)
        ensures
            r@ == self.source(),
    {
        self.source.as_str()
    }
}

/// Compiles `pattern` with `regex::RegexBuilder`, its compiled size limited to
/// `size_limit` bytes.  The contract claims that the result is present exactly
/// when that build succeeds, and that it keeps the pattern text.
#[verifier::external_body]
pub(crate) fn compile_pattern(pattern: &str, size_limit: usize) -> (r: Option<CompiledPattern>)
    ensures
        r is Some <==> regex_compiles(pattern@, size_limit as nat),
        r matches Some(c) ==> c.source() == pattern@,
{
    match RegexBuilder::new(pattern).size_limit(size_limit).build() {
        Ok(regex) => Some(CompiledPattern { source: pattern.to_string(), regex }),
        Err(_) => None,
    }
}

/// `Regex::is_match` on the compiled pattern.  The contract claims that the
/// answer is the regex's unanchored match of `haystack`.
#[verifier::external_body]
pub(crate) fn pattern_is_match(pattern: &CompiledPattern, haystack: &str) -> (r: bool)
    ensures
        r == regex_matches(pattern.source(), haystack@),
{
    pattern.regex.is_match(haystack)
}

} // verus!
