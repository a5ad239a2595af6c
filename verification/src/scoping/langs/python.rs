//! The Python language.

use super::{check_query, scope_via_query, scoped_by_query, Grammar, QueryCompileError};
use crate::scoping::{ScopedViewBuildStep, ScopedViewBuilder};
use vstd::prelude::*;

verus! {

/// Premade tree-sitter queries for Python.
#[derive(Debug, Clone, Copy, PartialEq, Eq)]
pub enum PremadePythonQuery {
    /// Comments.
    Comments,
    /// Docstrings (not including multi-line strings).
    DocStrings,
    /// Function names, at the definition site.
    FunctionNames,
    /// Function calls.
    FunctionCalls,
}

/// The query of [`PremadePythonQuery::Comments`].
pub const COMMENTS: &'static str = "(comment) @comment";

// Triple-quotes are also used for multi-line strings. So look only for
// stand-alone expressions, which are not part of some variable assignment.
/// The query of [`PremadePythonQuery::DocStrings`].
pub const DOC_STRINGS: &'static str = r#"
    (
        (expression_statement
            (string) @string
            (#match? @string "^\"\"\"")
        )
    )
"#;

/// The query of [`PremadePythonQuery::FunctionNames`].
pub const FUNCTION_NAMES: &'static str = "(function_definition name: (identifier) @function-name)";

/// The query of [`PremadePythonQuery::FunctionCalls`].
pub const FUNCTION_CALLS: &'static str = "(call function: (identifier) @function-name)";

impl PremadePythonQuery {
    /// The text of the query.
    pub open spec fn source_text(self) -> Seq<char> {
        match self {
            PremadePythonQuery::Comments => COMMENTS@,
            PremadePythonQuery::DocStrings => DOC_STRINGS@,
            PremadePythonQuery::FunctionNames => FUNCTION_NAMES@,
            PremadePythonQuery::FunctionCalls => FUNCTION_CALLS@,
        }
    }

    /// The text of the query, in tree-sitter's query language.
    pub fn source(self) -> (source: &'static str)
        ensures
            source@ == self.source_text(),
    {
        match self {
            PremadePythonQuery::Comments => COMMENTS,
            PremadePythonQuery::DocStrings => DOC_STRINGS,
            PremadePythonQuery::FunctionNames => FUNCTION_NAMES,
            PremadePythonQuery::FunctionCalls => FUNCTION_CALLS,
        }
    }
}

/// A custom tree-sitter query for Python: a text of which a check said that
/// tree-sitter takes it.
#[derive(Debug, PartialEq, Eq, Hash)]
pub struct CustomPythonQuery(String);

impl CustomPythonQuery {
    /// The text of the query.
    pub closed spec fn source_text(self) -> Seq<char> {
        self.0@
    }

    /// The custom query that `s` holds, or the error where tree-sitter does
    /// not take `s` as a query for Python. Tree-sitter decides which it is.
    pub fn new(s: &str) -> (made: Result<Self, QueryCompileError>)
        ensures
            made matches Ok(query) ==> query.source_text() == s@,
    {
        Self::from_checked(s, check_query(Grammar::Python, s))
    }

    /// The custom query that `s` holds, given what the check of `s` said: the
    /// query where the check passed, else the error of the check.
    pub fn from_checked(s: &str, checked: Result<(), QueryCompileError>) -> (made: Result<
        Self,
        QueryCompileError,
    >)
        ensures
            made is Ok <==> checked is Ok,
            made matches Ok(query) ==> query.source_text() == s@,
            made matches Err(e) ==> checked == Err::<(), QueryCompileError>(e),
    {
        match checked {
            Ok(()) => Ok(Self(s.to_owned())),
            Err(e) => Err(e),
        }
    }

    /// The text of the query.
    pub fn source(&self) -> (source: &str)
        ensures
            source@ == self.source_text(),
    {
        self.0.as_str()
    }
}

impl Clone for CustomPythonQuery {
    fn clone(&self) -> (copy: Self)
        ensures
            copy.source_text() == self.source_text(),
    {
        Self(self.0.clone())
    }
}

impl std::str::FromStr for CustomPythonQuery {
    type Err = QueryCompileError;

    fn from_str(s: &str) -> (made: Result<Self, Self::Err>)
        ensures
            made matches Ok(query) ==> query.source_text() == s@,
    {
        Self::new(s)
    }
}

/// A query for Python.
#[derive(Debug)]
pub enum PythonQuery {
    /// A query that the caller wrote.
    Custom(CustomPythonQuery),
    /// A query that comes with the library.
    Premade(PremadePythonQuery),
}

impl PythonQuery {
    /// The text of the query.
    pub open spec fn source_text(self) -> Seq<char> {
        match self {
            PythonQuery::Custom(query) => query.source_text(),
            PythonQuery::Premade(query) => query.source_text(),
        }
    }

    /// The text of the query, in tree-sitter's query language.
    pub fn source(&self) -> (source: &str)
        ensures
            source@ == self.source_text(),
    {
        match self {
            PythonQuery::Custom(query) => query.source(),
            PythonQuery::Premade(query) => query.source(),
        }
    }
}

impl Clone for PythonQuery {
    fn clone(&self) -> (copy: Self)
        ensures
            copy.source_text() == self.source_text(),
    {
        match self {
            PythonQuery::Custom(query) => PythonQuery::Custom(query.clone()),
            PythonQuery::Premade(query) => PythonQuery::Premade(*query),
        }
    }
}

/// The Python language, as a scoper: what its query captures is in scope.
#[derive(Debug)]
pub struct Python {
    query: PythonQuery,
}

impl Python {
    /// The text of the scoper's query.
    pub closed spec fn source_text(self) -> Seq<char> {
        self.query.source_text()
    }

    /// The scoper for `query`, or the error where the query does not compile.
    /// A custom query was checked when it was made and is taken as it is; of
    /// a premade one tree-sitter decides.
    pub fn new(query: PythonQuery) -> (made: Result<Self, QueryCompileError>)
        ensures
            query is Custom ==> made is Ok,
            made matches Ok(python) ==> python.source_text() == query.source_text(),
    {
        let checked = match &query {
            PythonQuery::Custom(_) => Ok(()),
            PythonQuery::Premade(premade) => check_query(Grammar::Python, premade.source()),
        };
        Self::from_checked(query, checked)
    }

    /// The scoper for `query`, given what the check of the query said: the
    /// scoper where the check passed, else the error of the check.
    pub fn from_checked(query: PythonQuery, checked: Result<(), QueryCompileError>) -> (made: Result<
        Self,
        QueryCompileError,
    >)
        ensures
            made is Ok <==> checked is Ok,
            made matches Ok(python) ==> python.source_text() == query.source_text(),
            made matches Err(e) ==> checked == Err::<(), QueryCompileError>(e),
    {
        match checked {
            Ok(()) => Ok(Python { query }),
            Err(e) => Err(e),
        }
    }

    /// The grammar that the scoper parses with.
    pub fn lang() -> (grammar: Grammar)
        ensures
            grammar == Grammar::Python,
    {
        Grammar::Python
    }

    /// The scoper's query.
    pub fn query(&self) -> (query: &PythonQuery)
        ensures
            query.source_text() == self.source_text(),
    {
        &self.query
    }
}

impl Clone for Python {
    fn clone(&self) -> (copy: Self)
        ensures
            copy.source_text() == self.source_text(),
    {
        Python { query: self.query.clone() }
    }
}

impl ScopedViewBuildStep for Python {
    /// What the query captures in `input` is in scope, but for the captures
    /// that are ignored.
    fn scope<'a>(&self, input: &'a str) -> (builder: ScopedViewBuilder<'a>)
        ensures
            scoped_by_query(input@, builder@),
    {
        scope_via_query(Self::lang(), self.query().source(), input)
    }
}

} // verus!
