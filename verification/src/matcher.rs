//! Compiled pattern matching, backed by the `regex` crate.
//!
//! A [`Matcher`] is a compiled pattern together with its case-insensitivity
//! flag. Whether a given line matches is a fixed function of the pattern
//! text, the flag and the line; that function is abstract here and named
//! [`regex_accepts`], so every contract downstream can speak of it exactly.

use vstd::prelude::*;

verus! {

/// Whether the pattern text compiles to a valid pattern under the given
/// case-insensitivity flag. Abstract: the `regex` crate decides.
pub uninterp spec fn pattern_compiles(pattern: Seq<char>, case_insensitive: bool) -> bool;

/// Whether a line matches the pattern compiled with the given flag.
/// Abstract: the `regex` crate decides, deterministically in its arguments.
pub uninterp spec fn regex_accepts(pattern: Seq<char>, case_insensitive: bool, line: Seq<char>) -> bool;

#[verifier::external_type_specification]
#[verifier::external_body]
pub struct ExRegex(regex::Regex);

/// A compiled pattern: the regex, plus the pattern text and flag it was
/// compiled from, so contracts can refer to them.
pub struct Matcher {
    re: regex::Regex,
    pattern: String,
    case_insensitive: bool,
}

impl Matcher {
    /// The text of the pattern this matcher was compiled from.
    pub closed spec fn spec_pattern(&self) -> Seq<char> {
        self.pattern@
    }

    /// Whether this matcher was compiled case-insensitively.
    pub closed spec fn spec_ci(&self) -> bool {
        self.case_insensitive
    }

    /// Relies on `regex::RegexBuilder::{new, case_insensitive, build}`:
    /// compilation succeeds or fails deterministically in the pattern text
    /// and the flag, and the matcher it yields is fixed by them. A failure
    /// is reported as the builder's own error message.
    #[verifier::external_body]
    pub fn compile(pattern: &str, case_insensitive: bool) -> (r: Result<Matcher, String>)
        ensures
            r is Ok <==> pattern_compiles(pattern@, case_insensitive),
            r matches Ok(m) ==> m.spec_pattern() == pattern@ && m.spec_ci() == case_insensitive,
    {
        match regex::RegexBuilder::new(pattern).case_insensitive(case_insensitive).build() {
            Ok(re) => Ok(Matcher { re, pattern: pattern.to_owned(), case_insensitive }),
            Err(e) => Err(format!("{}", e)),
        }
    }

    /// Relies on `regex::Regex::is_match`: whether a haystack matches
    /// depends only on the compiled pattern, its flags and the haystack.
    #[verifier::external_body]
    pub fn is_match(&self, line: &str) -> (r: bool)
        ensures
            r == regex_accepts(self.spec_pattern(), self.spec_ci(), line@),
    {
        self.re.is_match(line)
    }
}

} // verus!
