//! Scoping by a regular expression: every match is in scope.

use super::model::{all_filled, joined, Part};
use super::ranges::{all_fit, parts_from_ranges};
use super::{ScopedViewBuildStep, ScopedViewBuilder, ScoperBuildError};
use std::ops::Range;
use vstd::prelude::*;
use vstd::string::*;

verus! {

/// The error of the regex crate for a pattern that it does not take.
#[verifier::external_type_specification]
#[verifier::external_body]
pub struct ExRegexFault(::regex::Error);

/// Why a regular expression is not valid.
#[derive(Debug)]
pub struct RegexError {
    /// What the regex crate said of the pattern.
    pub cause: ::regex::Error,
}

/// Whether the regex crate takes `pattern` as a regular expression.
pub uninterp spec fn regex_compiles(pattern: Seq<char>) -> bool;

/// The successive matches of the regular expression `pattern` in `input`, as
/// byte ranges, from left to right and without overlap.
pub uninterp spec fn regex_matches(pattern: Seq<char>, input: Seq<char>) -> Seq<Range<usize>>;

/// Compiles `pattern` with `Regex::new` of the regex crate and hands out the
/// range of every match that `Regex::find_iter` finds in `input`. Claimed of
/// them: whether the pattern compiles depends on the pattern alone, the
/// matches on the pattern and the input alone, and every match can be sliced
/// out of the input, as its `Match::range` documents.
#[verifier::external_body]
fn find_matches(pattern: &str, input: &str) -> (found: Result<Vec<Range<usize>>, ::regex::Error>)
    ensures
        found is Ok <==> regex_compiles(pattern@),
        found matches Ok(ranges) ==> ranges@ == regex_matches(pattern@, input@) && all_fit(
            input@,
            ranges@,
        ),
{
    Ok(::regex::Regex::new(pattern)?.find_iter(input).map(|m| m.range()).collect())
}

/// What the matches of a pattern put in scope in `input`, or nothing where
/// the pattern did not compile.
pub open spec fn scoped_by_matches(input: Seq<char>, found: Option<Seq<Range<usize>>>) -> Seq<
    Part,
> {
    match found {
        Some(ranges) => parts_from_ranges(input, ranges),
        None => parts_from_ranges(input, Seq::empty()),
    }
}

/// Scopes `input` by the matches that were found in it.
pub fn scope_by_matches<'a>(input: &'a str, found: Option<Vec<Range<usize>>>) -> (builder:
    ScopedViewBuilder<'a>)
    requires
        found matches Some(ranges) ==> all_fit(input@, ranges@),
    ensures
        builder@ == scoped_by_matches(
            input@,
            match found {
                Some(ranges) => Some(ranges@),
                None => None,
            },
        ),
        joined(builder@) == input@,
        all_filled(builder@),
{
    match found {
        Some(ranges) => ScopedViewBuilder::from_raw_ranges(input, ranges),
        None => ScopedViewBuilder::from_raw_ranges(input, Vec::new()),
    }
}

/// A regular expression to scope by. It is not empty, and it compiles.
#[derive(Debug, PartialEq, Eq)]
pub struct Regex {
    pattern: String,
}

impl Regex {
    #[verifier::type_invariant]
    spec fn compiles(self) -> bool {
        self.pattern@.len() > 0 && regex_compiles(self.pattern@)
    }

    /// The pattern of the regular expression.
    pub closed spec fn pattern_text(self) -> Seq<char> {
        self.pattern@
    }

    /// The scoper for `pattern`. An empty pattern is refused with
    /// [`ScoperBuildError::EmptyScope`], one that does not compile with
    /// [`ScoperBuildError::RegexError`].
    pub fn new(pattern: &str) -> (made: Result<Self, ScoperBuildError>)
        ensures
            made is Ok <==> pattern@.len() > 0 && regex_compiles(pattern@),
            made matches Ok(scoper) ==> scoper.pattern_text() == pattern@,
            made matches Err(e) ==> (e is EmptyScope <==> pattern@.len() == 0) && (e is RegexError
                <==> pattern@.len() > 0),
    {
        if pattern.is_empty() {
            return Err(ScoperBuildError::EmptyScope);
        }
        match find_matches(pattern, "") {
            Ok(_) => Ok(Regex { pattern: pattern.to_owned() }),
            Err(cause) => Err(ScoperBuildError::RegexError(RegexError { cause })),
        }
    }

    /// The pattern of the regular expression.
    pub fn pattern(&self) -> (pattern: &str)
        ensures
            pattern@ == self.pattern_text(),
            regex_compiles(pattern@),
    {
        proof {
            use_type_invariant(self);
        }
        self.pattern.as_str()
    }
}

impl Clone for Regex {
    fn clone(&self) -> (copy: Self)
        ensures
            copy.pattern_text() == self.pattern_text(),
    {
        proof {
            use_type_invariant(self);
        }
        Regex { pattern: self.pattern.clone() }
    }
}

impl Regex {
    /// What the scoper puts in scope in `input`: the matches of its pattern.
    pub open spec fn scoped(&self, input: Seq<char>) -> Seq<Part> {
        parts_from_ranges(input, regex_matches(self.pattern_text(), input))
    }
}

impl ScopedViewBuildStep for Regex {
    fn scope<'a>(&self, input: &'a str) -> (builder: ScopedViewBuilder<'a>)
        ensures
            builder@ == self.scoped(input@),
    {
        match find_matches(self.pattern(), input) {
            Ok(ranges) => scope_by_matches(input, Some(ranges)),
            Err(_) => scope_by_matches(input, None),
        }
    }
}

} // verus!
