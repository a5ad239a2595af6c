//! The Hashicorp Configuration Language.

use super::{check_query, scope_via_query, scoped_by_query, Grammar, QueryCompileError};
use crate::scoping::{ScopedViewBuildStep, ScopedViewBuilder};
use vstd::prelude::*;

verus! {

/// Premade tree-sitter queries for Hcl.
#[derive(Debug, Clone, Copy, PartialEq, Eq)]
pub enum PremadeHclQuery {
    /// Variable declarations and usages.
    Variables,
    /// `resource` name declarations and usages.
    ///
    /// In `resource "a" "b"`, only "b" is matched.
    ResourceNames,
    /// `resource` type declarations and usages.
    ///
    /// In `resource "a" "b"`, only `a` is matched, without its quotes.
    ResourceTypes,
    /// `data` name declarations and usages.
    ///
    /// In `data "a" "b"`, only "b" is matched.
    DataNames,
    /// `data` source declarations and usages.
    ///
    /// In `data "a" "b"`, only "a" is matched.
    DataSources,
    /// Comments.
    Comments,
    /// Literal strings.
    ///
    /// Excluding resource, variable, ... names as well as interpolation parts.
    Strings,
}

// Capturing nodes with names, such as `@id`, requires names to be unique across
// the *entire* query, else things break. Hence the `@a.b` syntax. A capture
// that only anchors a pattern or feeds a predicate starts with the ignore
// marker.
/// The query of [`PremadeHclQuery::Variables`].
pub const VARIABLES: &'static str = r#"
    [
        (block
            (identifier) @_.declaration
            (string_lit) @name.declaration
            (#match? @_.declaration "variable")
        )
        (
            (variable_expr
                (identifier) @_.usage
                (#match? @_.usage "var")
            )
            .
            (get_attr
                (identifier) @name.usage
            )
        )
    ]
"#;

/// The query of [`PremadeHclQuery::ResourceNames`].
pub const RESOURCE_NAMES: &'static str = r#"
    [
        (block
            (identifier) @_.declaration
            (string_lit)
            (string_lit) @name.declaration
            (#match? @_.declaration "resource")
        )
        (
            (variable_expr
                (identifier) @_.usage
                (#not-any-of? @_.usage
                    "var"
                    "data"
                    "module"
                    "local"
                )
            )
            .
            (get_attr
                (identifier) @name.usage
            )
        )
    ]
"#;

/// The query of [`PremadeHclQuery::ResourceTypes`].
pub const RESOURCE_TYPES: &'static str = r#"
    [
        (block
            (identifier) @_.declaration
            (string_lit (template_literal) @name.type)
            (string_lit)
            (#match? @_.declaration "resource")
        )
        (
            (variable_expr
                .
                (identifier) @name.usage
                (#not-any-of? @name.usage
                    "var"
                    "data"
                    "module"
                    "local"
                )
            )
            .
            (get_attr
                (identifier)
            )
        )
    ]
"#;

/// The query of [`PremadeHclQuery::DataNames`].
pub const DATA_NAMES: &'static str = r#"
    [
        (block
            (identifier) @_.declaration
            (string_lit)
            (string_lit) @name.declaration
            (#match? @_.declaration "data")
        )
        (
            (variable_expr
                (identifier) @_.usage
                (#match? @_.usage "data")
            )
            .
            (get_attr
                (identifier)
            )
            .
            (get_attr
                (identifier) @name.usage
            )
        )
    ]
"#;

/// The query of [`PremadeHclQuery::DataSources`].
pub const DATA_SOURCES: &'static str = r#"
    [
        (block
            (identifier) @_.declaration
            (string_lit) @name.provider
            (string_lit)
            (#match? @_.declaration "data")
        )
        (
            (variable_expr
                (identifier) @_.usage
                (#match? @_.usage "data")
            )
            .
            (get_attr
                (identifier) @name.provider
            )
            .
            (get_attr
                (identifier)
            )
        )
    ]
"#;

/// The query of [`PremadeHclQuery::Comments`].
pub const COMMENTS: &'static str = "(comment) @comment";

/// The query of [`PremadeHclQuery::Strings`].
pub const STRINGS: &'static str = r"
    [
        (literal_value (string_lit) @string.literal)
        (quoted_template
            (template_literal) @string.template_literal
        )
        (heredoc_template
            (template_literal) @string.heredoc_literal
        )
    ]
";

impl PremadeHclQuery {
    /// The text of the query.
    pub open spec fn source_text(self) -> Seq<char> {
        match self {
            PremadeHclQuery::Variables => VARIABLES@,
            PremadeHclQuery::ResourceNames => RESOURCE_NAMES@,
            PremadeHclQuery::ResourceTypes => RESOURCE_TYPES@,
            PremadeHclQuery::DataNames => DATA_NAMES@,
            PremadeHclQuery::DataSources => DATA_SOURCES@,
            PremadeHclQuery::Comments => COMMENTS@,
            PremadeHclQuery::Strings => STRINGS@,
        }
    }

    /// The text of the query, in tree-sitter's query language.
    pub fn source(self) -> (source: &'static str)
        ensures
            source@ == self.source_text(),
    {
        match self {
            PremadeHclQuery::Variables => VARIABLES,
            PremadeHclQuery::ResourceNames => RESOURCE_NAMES,
            PremadeHclQuery::ResourceTypes => RESOURCE_TYPES,
            PremadeHclQuery::DataNames => DATA_NAMES,
            PremadeHclQuery::DataSources => DATA_SOURCES,
            PremadeHclQuery::Comments => COMMENTS,
            PremadeHclQuery::Strings => STRINGS,
        }
    }
}

/// A custom tree-sitter query for HCL: a text of which a check said that
/// tree-sitter takes it.
#[derive(Debug, PartialEq, Eq, Hash)]
pub struct CustomHclQuery(String);

impl Clone for CustomHclQuery {
    fn clone(&self) -> (copy: Self)
        ensures
            copy.source_text() == self.source_text(),
    {
        Self(self.0.clone())
    }
}

impl CustomHclQuery {
    /// The text of the query.
    pub closed spec fn source_text(self) -> Seq<char> {
        self.0@
    }

    /// The custom query that `s` holds, or the error where tree-sitter does
    /// not take `s` as a query for HCL. Tree-sitter decides which it is.
    pub fn new(s: &str) -> (made: Result<Self, QueryCompileError>)
        ensures
            made matches Ok(query) ==> query.source_text() == s@,
    {
        Self::from_checked(s, check_query(Grammar::Hcl, s))
    }

    /// The custom query that `s` holds, given what the check of `s` said: the
    /// query where the check passed, else the error of the check.
    pub fn from_checked(s: &str, checked: Result<(), QueryCompileError>) -> (made: Result<
        Self,
        QueryCompileError,
    >)
        ensures
            made is Ok <==> checked is Ok,
            made matches Ok(query) ==> query.source_text() == s@,
            made matches Err(e) ==> checked == Err::<(), QueryCompileError>(e),
    {
        match checked {
            Ok(()) => Ok(Self(s.to_owned())),
            Err(e) => Err(e),
        }
    }

    /// The text of the query.
    pub fn source(&self) -> (source: &str)
        ensures
            source@ == self.source_text(),
    {
        self.0.as_str()
    }
}

impl std::str::FromStr for CustomHclQuery {
    type Err = QueryCompileError;

    fn from_str(s: &str) -> (made: Result<Self, Self::Err>)
        ensures
            made matches Ok(query) ==> query.source_text() == s@,
    {
        Self::new(s)
    }
}

/// A query for HCL.
#[derive(Debug)]
pub enum HclQuery {
    /// A query that the caller wrote.
    Custom(CustomHclQuery),
    /// A query that comes with the library.
    Premade(PremadeHclQuery),
}

impl Clone for HclQuery {
    fn clone(&self) -> (copy: Self)
        ensures
            copy.source_text() == self.source_text(),
    {
        match self {
            HclQuery::Custom(query) => HclQuery::Custom(query.clone()),
            HclQuery::Premade(query) => HclQuery::Premade(*query),
        }
    }
}

impl HclQuery {
    /// The text of the query.
    pub open spec fn source_text(self) -> Seq<char> {
        match self {
            HclQuery::Custom(query) => query.source_text(),
            HclQuery::Premade(query) => query.source_text(),
        }
    }

    /// The text of the query, in tree-sitter's query language.
    pub fn source(&self) -> (source: &str)
        ensures
            source@ == self.source_text(),
    {
        match self {
            HclQuery::Custom(query) => query.source(),
            HclQuery::Premade(query) => query.source(),
        }
    }
}

/// The Hashicorp Configuration Language, as a scoper: what its query captures
/// is in scope.
#[derive(Debug)]
pub struct Hcl {
    query: HclQuery,
}

impl Clone for Hcl {
    fn clone(&self) -> (copy: Self)
        ensures
            copy.source_text() == self.source_text(),
    {
        Hcl { query: self.query.clone() }
    }
}

impl Hcl {
    /// The text of the scoper's query.
    pub closed spec fn source_text(self) -> Seq<char> {
        self.query.source_text()
    }

    /// The scoper for `query`, or the error where the query does not compile.
    /// A custom query was checked when it was made and is taken as it is; of
    /// a premade one tree-sitter decides.
    pub fn new(query: HclQuery) -> (made: Result<Self, QueryCompileError>)
        ensures
            query is Custom ==> made is Ok,
            made matches Ok(hcl) ==> hcl.source_text() == query.source_text(),
    {
        let checked = match &query {
            HclQuery::Custom(_) => Ok(()),
            HclQuery::Premade(premade) => check_query(Grammar::Hcl, premade.source()),
        };
        Self::from_checked(query, checked)
    }

    /// The scoper for `query`, given what the check of the query said: the
    /// scoper where the check passed, else the error of the check.
    pub fn from_checked(query: HclQuery, checked: Result<(), QueryCompileError>) -> (made: Result<
        Self,
        QueryCompileError,
    >)
        ensures
            made is Ok <==> checked is Ok,
            made matches Ok(hcl) ==> hcl.source_text() == query.source_text(),
            made matches Err(e) ==> checked == Err::<(), QueryCompileError>(e),
    {
        match checked {
            Ok(()) => Ok(Hcl { query }),
            Err(e) => Err(e),
        }
    }

    /// The grammar that the scoper parses with.
    pub fn lang() -> (grammar: Grammar)
        ensures
            grammar == Grammar::Hcl,
    {
        Grammar::Hcl
    }

    /// The scoper's query.
    pub fn query(&self) -> (query: &HclQuery)
        ensures
            query.source_text() == self.source_text(),
    {
        &self.query
    }
}

impl ScopedViewBuildStep for Hcl {
    /// What the query captures in `input` is in scope, but for the captures
    /// that are ignored.
    fn scope<'a>(&self, input: &'a str) -> (builder: ScopedViewBuilder<'a>)
        ensures
            scoped_by_query(input@, builder@),
    {
        scope_via_query(Self::lang(), self.query().source(), input)
    }
}

} // verus!
