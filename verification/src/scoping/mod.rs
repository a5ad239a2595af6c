//! Items for defining the scope actions are applied within.

pub mod builder;
pub mod langs;
pub mod literal;
pub mod laws;
pub mod model;
pub mod ranges;
pub mod regex;
pub mod view;

pub use builder::ScopedViewBuilder;
pub use model::Part;
pub use view::ScopedView;

use self::literal::LiteralError;
use self::regex::RegexError;
use std::borrow::Cow;
use vstd::prelude::*;
use vstd::std_specs::convert::FromSpecImpl;

verus! {

/// Why a scoper could not be built.
#[derive(Debug)]
pub enum ScoperBuildError {
    /// The configuration gives a scoper that can match nothing: an empty
    /// pattern or an empty literal.
    EmptyScope,
    /// The regular expression is not valid.
    RegexError(RegexError),
    /// The literal is not valid.
    LiteralError(LiteralError),
}

impl From<LiteralError> for ScoperBuildError {
    fn from(e: LiteralError) -> (error: Self) {
        Self::LiteralError(e)
    }
}

impl FromSpecImpl<LiteralError> for ScoperBuildError {
    open spec fn obeys_from_spec() -> bool {
        true
    }

    open spec fn from_spec(e: LiteralError) -> Self {
        Self::LiteralError(e)
    }
}

impl From<RegexError> for ScoperBuildError {
    fn from(e: RegexError) -> (error: Self) {
        Self::RegexError(e)
    }
}

impl FromSpecImpl<RegexError> for ScoperBuildError {
    open spec fn obeys_from_spec() -> bool {
        true
    }

    open spec fn from_spec(e: RegexError) -> Self {
        Self::RegexError(e)
    }
}

/// A step in building a view: a scoper, which says of any text which of its
/// parts are in scope.
pub trait ScopedViewBuildStep {
    /// Scopes `input`: the scopes that come back join to `input`, in order,
    /// and none of them is empty.
    fn scope<'a>(&self, input: &'a str) -> (builder: ScopedViewBuilder<'a>)
        ensures
            model::joined(builder@) == input@,
            model::all_filled(builder@),
    ;
}

/// What a scoper may answer when asked for a text.
pub open spec fn scoper_step<S: ScopedViewBuildStep>(scoper: &S) -> spec_fn(
    Seq<char>,
    Seq<Part>,
) -> bool {
    |text: Seq<char>, raw: Seq<Part>|
        exists|s: &str, b: ScopedViewBuilder|
            s@ == text && #[trigger] call_ensures(S::scope, (scoper, s), b) && b@ == raw
}

/// Indicates whether a given string part is in scope.
#[derive(Debug, Clone, PartialEq, Eq)]
pub enum Scope<'a, T> {
    /// The given part is in scope for processing.
    In(T),
    /// The given part is out of scope for processing.
    ///
    /// Treated as immutable, view-only.
    Out(&'a str),
}

/// A scope while scopes are still being built: it borrows from the input.
pub type ROScope<'a> = Scope<'a, &'a str>;

/// A sequence of [`ROScope`]s.
pub type ROScopes<'a> = Vec<ROScope<'a>>;

/// A scope once actions may run: an in-scope part borrows from the input or
/// owns what an action made.
pub type RWScope<'a> = Scope<'a, Cow<'a, str>>;

/// A sequence of [`RWScope`]s.
pub type RWScopes<'a> = Vec<RWScope<'a>>;

impl<'a> Scope<'a, &'a str> {
    /// The characters that this scope holds.
    pub open spec fn text(&self) -> Seq<char> {
        match self {
            Scope::In(s) => s@,
            Scope::Out(s) => s@,
        }
    }

    /// The scope as a part of the model.
    pub open spec fn part(&self) -> Part {
        match self {
            Scope::In(s) => Part::In(s@),
            Scope::Out(s) => Part::Out(s@),
        }
    }

    /// Whether this scope holds no character.
    #[must_use]
    pub fn is_empty(&self) -> (empty: bool)
        ensures
            empty == (self.text().len() == 0),
    {
        self.as_str().is_empty()
    }

    /// The underlying string slice: every variant holds one.
    pub fn as_str(&self) -> (s: &'a str)
        ensures
            s@ == self.text(),
            match self {
                Scope::In(inner) => s == *inner,
                Scope::Out(inner) => s == *inner,
            },
    {
        match self {
            Scope::In(s) => s,
            Scope::Out(s) => s,
        }
    }
}

impl<'a> Scope<'a, Cow<'a, str>> {
    /// The characters that this scope holds.
    pub open spec fn text(&self) -> Seq<char> {
        match self {
            Scope::In(s) => s@,
            Scope::Out(s) => s@,
        }
    }

    /// The scope as a part of the model.
    pub open spec fn part(&self) -> Part {
        match self {
            Scope::In(s) => Part::In(s@),
            Scope::Out(s) => Part::Out(s@),
        }
    }

    /// The underlying string slice: every variant holds one.
    pub fn as_str(&self) -> (s: &str)
        ensures
            s@ == self.text(),
    {
        match self {
            Scope::In(s) => cow_str(s),
            Scope::Out(s) => s,
        }
    }
}

/// The parts that model `scopes`.
pub open spec fn ro_parts<'a>(scopes: Seq<ROScope<'a>>) -> Seq<Part> {
    scopes.map_values(|s: ROScope<'a>| s.part())
}

/// The parts that model `scopes`.
pub open spec fn rw_parts<'a>(scopes: Seq<RWScope<'a>>) -> Seq<Part> {
    scopes.map_values(|s: RWScope<'a>| s.part())
}

/// The string slice that `cow` holds, borrowed or owned.
pub fn cow_str<'b>(cow: &'b Cow<'_, str>) -> (s: &'b str)
    ensures
        s@ == cow@,
{
    match cow {
        Cow::Borrowed(b) => b,
        Cow::Owned(o) => o.as_str(),
    }
}

impl<'a> From<Scope<'a, &'a str>> for Scope<'a, Cow<'a, str>> {
    /// Promotes an in-scope slice to a borrowed payload and keeps an
    /// out-of-scope slice as it is.
    fn from(s: Scope<'a, &'a str>) -> (rw: Self) {
        match s {
            Scope::In(s) => Scope::In(Cow::Borrowed(s)),
            Scope::Out(s) => Scope::Out(s),
        }
    }
}

impl<'a> FromSpecImpl<Scope<'a, &'a str>> for Scope<'a, Cow<'a, str>> {
    open spec fn obeys_from_spec() -> bool {
        true
    }

    open spec fn from_spec(s: Scope<'a, &'a str>) -> Self {
        match s {
            Scope::In(s) => Scope::In(Cow::Borrowed(s)),
            Scope::Out(s) => Scope::Out(s),
        }
    }
}

} // verus!
