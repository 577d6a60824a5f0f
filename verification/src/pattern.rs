//! Regular expressions, through the `regex` crate.

use regex::Regex;
use vstd::prelude::*;

verus! {

/// `regex::Regex`, a compiled regular expression.  Nothing is known of
/// what a value holds.
#[verifier::external_type_specification]
#[verifier::external_body]
pub struct ExRegex(regex::Regex);

/// `regex::Error`, the error of a pattern that does not compile.  Nothing
/// is known of what a value holds.
#[verifier::external_type_specification]
#[verifier::external_body]
pub struct ExRegexError(regex::Error);

/// Whether `pattern` is a regular expression that compiles.
pub uninterp spec fn pattern_accepted(pattern: Seq<char>) -> bool;

/// The first match of `pattern` in `text`, if it matches anywhere.
pub uninterp spec fn first_match(pattern: Seq<char>, text: Seq<char>) -> Option<Seq<char>>;

/// `text` with each match of `pattern`, taken from left to right without
/// overlap, replaced by the expansion of `replacement`.
pub uninterp spec fn all_replaced(pattern: Seq<char>, text: Seq<char>, replacement: Seq<char>) -> Seq<
    char,
>;

/// The pattern was not a regular expression, or one too large to compile.
#[derive(Clone, Copy, Debug, PartialEq, Eq, Structural)]
pub struct InvalidPattern;

/// A compiled regular expression, together with the text it was compiled
/// from.  Only [`Pattern::compile`] makes one.
struct Pattern {
    source: String,
    compiled: Regex,
}

/// The content of an optional string.
pub open spec fn optional_text(found: Option<String>) -> Option<Seq<char>> {
    match found {
        Some(s) => Some(s@),
        None => None,
    }
}

impl Pattern {
    /// The text this pattern was compiled from.
    pub closed spec fn source(&self) -> Seq<char> {
        self.source@
    }

    /// `Regex::new`: compiles the pattern.  It fails on a text that is no
    /// regular expression and on one that compiles to more than the
    /// crate's size limit; the contract gives that condition a name and
    /// records the text that was compiled.
    #[verifier::external_body]
    fn compile(pattern: &str) -> (res: Result<Pattern, regex::Error>)
        ensures
            res is Ok <==> pattern_accepted(pattern@),
            res matches Ok(p) ==> p.source() == pattern@,
    {
        match Regex::new(pattern) {
            Ok(compiled) => Ok(Pattern { source: pattern.to_string(), compiled }),
            Err(e) => Err(e),
        }
    }

    /// `Regex::find`: searches for the first match in `text` and hands out
    /// the part of `text` that matched.  The contract names that result.
    #[verifier::external_body]
    fn find(&self, text: &str) -> (found: Option<String>)
        ensures
            optional_text(found) == first_match(self.source(), text@),
    {
        match self.compiled.find(text) {
            Some(m) => Some(m.as_str().to_string()),
            None => None,
        }
    }

    /// `Regex::replace_all`: replaces every match in `text`, from left to
    /// right and without overlap, by `replacement`, in which `$` followed
    /// by a name or a number stands for a capture group.  The contract
    /// names that result.
    #[verifier::external_body]
    fn replace_all(&self, text: &str, replacement: &str) -> (res: String)
        ensures
            res@ == all_replaced(self.source(), text@, replacement@),
    {
        self.compiled.replace_all(text, replacement).into_owned()
    }
}

fn compiled(pattern: &str) -> (res: Result<Pattern, InvalidPattern>)
    ensures
        res is Ok <==> pattern_accepted(pattern@),
        res matches Ok(p) ==> p.source() == pattern@,
{
    match Pattern::compile(pattern) {
        Ok(p) => Ok(p),
        Err(_) => Err(InvalidPattern),
    }
}

/// The first match of `pattern` in `text`.
pub fn find_first(pattern: &str, text: &str) -> (res: Result<Option<String>, InvalidPattern>)
    ensures
        res is Ok <==> pattern_accepted(pattern@),
        res matches Ok(found) ==> optional_text(found) == first_match(pattern@, text@),
{
    match compiled(pattern) {
        Ok(p) => Ok(p.find(text)),
        Err(e) => Err(e),
    }
}

/// `text` with every match of `pattern` replaced by `replacement`.
pub fn replace_every(pattern: &str, text: &str, replacement: &str) -> (res: Result<
    String,
    InvalidPattern,
>)
    ensures
        res is Ok <==> pattern_accepted(pattern@),
        res matches Ok(s) ==> s@ == all_replaced(pattern@, text@, replacement@),
{
    match compiled(pattern) {
        Ok(p) => Ok(p.replace_all(text, replacement)),
        Err(e) => Err(e),
    }
}

} // verus!
