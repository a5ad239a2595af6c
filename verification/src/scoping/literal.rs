//! Scoping by a literal: every place where a fixed string stands is in scope.

use super::model::Part;
use super::ranges::parts_from_ranges;
use super::{ScopedViewBuildStep, ScopedViewBuilder, ScoperBuildError};
use crate::text::{bytes_of, fits, lemma_bytes_of_filled, lemma_occurrence_fits};
use std::ops::Range;
use vstd::prelude::*;
use vstd::string::*;

verus! {

/// Why a literal is not valid.
#[derive(Debug)]
pub struct LiteralError {
    /// What is wrong with the literal.
    pub detail: String,
}

/// Whether `pattern` stands in `hay` at the byte offset `at`.
pub open spec fn occurs_at(hay: Seq<u8>, pattern: Seq<u8>, at: int) -> bool {
    0 <= at && at + pattern.len() <= hay.len() && hay.subrange(at, at + pattern.len()) == pattern
}

/// The places where `pattern` stands in `hay` from the offset `from` on, found
/// from left to right: after a place that was found, the search goes on
/// behind it, so that no two places overlap.
pub open spec fn occurrences(hay: Seq<u8>, pattern: Seq<u8>, from: int) -> Seq<Range<usize>>
    decreases hay.len() - from,
{
    if pattern.len() == 0 || from < 0 || from + pattern.len() > hay.len() {
        Seq::empty()
    } else if occurs_at(hay, pattern, from) {
        seq![Range { start: from as usize, end: (from + pattern.len()) as usize }] + occurrences(
            hay,
            pattern,
            from + pattern.len(),
        )
    } else {
        occurrences(hay, pattern, from + 1)
    }
}

/// Whether `pattern` stands in `hay` at the byte offset `at`.
pub fn stands_at(hay: &[u8], pattern: &[u8], at: usize) -> (b: bool)
    requires
        at + pattern.len() <= hay.len(),
    ensures
        b == occurs_at(hay@, pattern@, at as int),
{
    let mut k: usize = 0;
    while k < pattern.len()
        invariant
            k <= pattern.len(),
            at + pattern.len() <= hay.len(),
            forall|j: int| 0 <= j < k ==> hay[at + j] == pattern[j],
        decreases pattern.len() - k,
    {
        if hay[at + k] != pattern[k] {
            assert(hay@.subrange(at as int, at + pattern.len())[k as int] != pattern[k as int]);
            return false;
        }
        k += 1;
    }
    assert(hay@.subrange(at as int, at + pattern.len()) =~= pattern@);
    true
}

/// The places where `pattern` stands in `hay`, from left to right and without
/// overlap.
pub fn find_occurrences(hay: &[u8], pattern: &[u8]) -> (found: Vec<Range<usize>>)
    requires
        pattern.len() > 0,
    ensures
        found@ == occurrences(hay@, pattern@, 0),
        forall|k: int|
            0 <= k < found.len() ==> occurs_at(hay@, pattern@, (#[trigger] found[k]).start as int)
                && found[k].end == found[k].start + pattern.len(),
{
    let mut found: Vec<Range<usize>> = Vec::new();
    if pattern.len() > hay.len() {
        return found;
    }
    let last = hay.len() - pattern.len();
    let mut i: usize = 0;
    while i <= last
        invariant
            pattern.len() > 0,
            last == hay.len() - pattern.len(),
            found@ + occurrences(hay@, pattern@, i as int) == occurrences(hay@, pattern@, 0),
            forall|k: int|
                0 <= k < found.len() ==> occurs_at(
                    hay@,
                    pattern@,
                    (#[trigger] found[k]).start as int,
                ) && found[k].end == found[k].start + pattern.len(),
        decreases hay.len() - i,
    {
        let ghost done = found@;
        if stands_at(hay, pattern, i) {
            let end = i + pattern.len();
            found.push(Range { start: i, end });
            assert(found@ + occurrences(hay@, pattern@, end as int) =~= done + occurrences(
                hay@,
                pattern@,
                i as int,
            ));
            i = end;
        } else {
            i += 1;
        }
    }
    assert(found@ + Seq::<Range<usize>>::empty() =~= found@);
    found
}

/// A literal to scope by. It is not empty.
#[derive(Debug, PartialEq, Eq)]
pub struct Literal(String);

impl Literal {
    #[verifier::type_invariant]
    spec fn filled(self) -> bool {
        self.0@.len() > 0
    }

    /// The characters of the literal.
    pub closed spec fn text(self) -> Seq<char> {
        self.0@
    }

    /// The scoper for `literal`. An empty literal is refused with
    /// [`ScoperBuildError::EmptyScope`], and no other.
    pub fn new(literal: &str) -> (made: Result<Self, ScoperBuildError>)
        ensures
            made is Ok <==> literal@.len() > 0,
            made matches Ok(scoper) ==> scoper.text() == literal@,
            made matches Err(e) ==> e is EmptyScope,
    {
        if literal.is_empty() {
            Err(ScoperBuildError::EmptyScope)
        } else {
            Ok(Self(literal.to_owned()))
        }
    }
}

impl Clone for Literal {
    fn clone(&self) -> (copy: Self)
        ensures
            copy.text() == self.text(),
    {
        proof {
            use_type_invariant(self);
        }
        Self(self.0.clone())
    }
}

impl Literal {
    /// What the scoper puts in scope in `input`: the places where the literal
    /// stands, found from left to right and without overlap.
    pub open spec fn scoped(&self, input: Seq<char>) -> Seq<Part> {
        parts_from_ranges(input, occurrences(bytes_of(input), bytes_of(self.text()), 0))
    }
}

impl ScopedViewBuildStep for Literal {
    fn scope<'a>(&self, input: &'a str) -> (builder: ScopedViewBuilder<'a>)
        ensures
            builder@ == self.scoped(input@),
    {
        proof {
            use_type_invariant(self);
            lemma_bytes_of_filled(self.0@);
        }
        let found = find_occurrences(input.as_bytes(), self.0.as_str().as_bytes());
        proof {
            assert forall|k: int| 0 <= k < found.len() implies fits(
                input@,
                (#[trigger] found[k]).start as int,
                found[k].end as int,
            ) by {
                lemma_occurrence_fits(input@, self.0@, found[k].start as int);
            }
        }
        ScopedViewBuilder::from_raw_ranges(input, found)
    }
}

} // verus!
