//! Scoping by the syntax of a language: a query is run on the syntax tree of
//! the text, and what it captures is in scope.

pub mod hcl;
pub mod python;

use crate::scoping::model::{all_filled, joined, Part};
use crate::scoping::ranges::{all_fit, parts_from_ranges};
use crate::scoping::ScopedViewBuilder;
use crate::text::{fits, is_cut};
use std::ops::Range;
use tree_sitter::{Language, Parser, Query, QueryCursor, QueryError, StreamingIterator};
use vstd::prelude::*;
use vstd::string::*;

verus! {

/// The ignore marker. A capture whose name starts with it serves the query
/// only, to anchor a pattern or to feed a predicate, and puts nothing in
/// scope.
pub const IGNORE: char = '_';

/// The grammars that queries can be run with.
#[derive(Debug, Clone, Copy, PartialEq, Eq)]
pub enum Grammar {
    /// The Hashicorp Configuration Language.
    Hcl,
    /// Python.
    Python,
}

/// The error of tree-sitter for a query that it does not take.
#[verifier::external_type_specification]
#[verifier::external_body]
pub struct ExQueryError(QueryError);

/// A query that does not compile for its grammar.
#[derive(Debug)]
pub struct QueryCompileError {
    /// What tree-sitter said of the query: where it fails, and why.
    pub cause: QueryError,
}

/// One capture of a query: the name it was captured under, as the query
/// gives it without the `@`, and the bytes of the node it captured.
pub type Capture = (String, Range<usize>);

/// What a capture is, apart from where its name lives.
pub type CaptureModel = (Seq<char>, Range<usize>);

/// The models of `captures`, in order.
pub open spec fn captures_model(captures: Seq<Capture>) -> Seq<CaptureModel> {
    captures.map_values(|c: Capture| (c.0@, c.1))
}

/// The models of what a query found, if its parser made a tree.
pub open spec fn found_model(found: Option<Vec<Capture>>) -> Option<Seq<CaptureModel>> {
    match found {
        Some(captures) => Some(captures_model(captures@)),
        None => None,
    }
}

/// Compiles the query `source` for `grammar` with `Query::new` of
/// tree-sitter, parses `input` with `Parser::parse` and runs the query on the
/// tree with `QueryCursor::matches`. What comes back is every capture of every
/// match, in the order in which tree-sitter gives them, each by its name and
/// by the bytes of its node. `Err` is the refusal of the query, `Ok(None)` a
/// parser that made no tree, as one does that was refused its language.
///
/// Nothing is claimed of the outcome. Tree-sitter tells letters and spaces by
/// the locale of the process, so that not even two runs on one query and one
/// text need agree.
#[verifier::external_body]
fn run_query(grammar: Grammar, source: &str, input: &str) -> (outcome: Result<
    Option<Vec<Capture>>,
    QueryError,
>) {
    let language = Language::new(match grammar {
        Grammar::Hcl => tree_sitter_hcl::LANGUAGE,
        Grammar::Python => tree_sitter_python::LANGUAGE,
    });
    let query = Query::new(&language, source)?;
    let mut parser = Parser::new();
    let _ = parser.set_language(&language);
    let Some(tree) = parser.parse(input, None) else { return Ok(None) };
    let mut cursor = QueryCursor::new();
    let mut matches = cursor.matches(&query, tree.root_node(), input.as_bytes());
    let mut found = Vec::new();
    while let Some(m) = matches.next() {
        for c in m.captures() { found.push((query.capture_names()[c.index as usize].to_string(), c.node.byte_range())); }
    }
    Ok(Some(found))
}

/// Whether a capture of this name is for the query's own use only.
pub open spec fn ignored(name: Seq<char>) -> bool {
    name.len() > 0 && name[0] == IGNORE
}

/// The ranges that `captures` put in scope: those of the captures that are
/// not ignored, in order.
pub open spec fn ranges_in_scope(captures: Seq<CaptureModel>) -> Seq<Range<usize>> {
    captures.filter(|c: CaptureModel| !ignored(c.0)).map_values(|c: CaptureModel| c.1)
}

/// Whether `range` holds a byte and denotes a slice of `text`.
pub open spec fn fitting(text: Seq<char>, range: Range<usize>) -> bool {
    range.start < range.end && fits(text, range.start as int, range.end as int)
}

/// Those of `ranges` that hold a byte and denote a slice of `text`, in order.
pub open spec fn fitting_ranges(text: Seq<char>, ranges: Seq<Range<usize>>) -> Seq<Range<usize>> {
    ranges.filter(|r: Range<usize>| fitting(text, r))
}

/// Whether a capture of this name is for the query's own use only: whether
/// the name starts with [`IGNORE`].
pub fn is_ignored(name: &str) -> (b: bool)
    ensures
        b == ignored(name@),
{
    !name.is_empty() && name.get_char(0) == IGNORE
}

/// The ranges that `captures` put in scope: those of the captures that are
/// not ignored, in order.
pub fn ranges_of(captures: &Vec<Capture>) -> (ranges: Vec<Range<usize>>)
    ensures
        ranges@ == ranges_in_scope(captures_model(captures@)),
{
    let ghost models = captures_model(captures@);
    let ghost keep = |c: CaptureModel| !ignored(c.0);
    let ghost range = |c: CaptureModel| c.1;
    let mut ranges: Vec<Range<usize>> = Vec::new();
    let mut i: usize = 0;
    proof {
        reveal(Seq::filter);
        assert(models.take(0) =~= Seq::<CaptureModel>::empty());
        assert(ranges@ =~= models.take(0).filter(keep).map_values(range));
    }
    while i < captures.len()
        invariant
            i <= captures.len(),
            models == captures_model(captures@),
            keep == |c: CaptureModel| !ignored(c.0),
            range == |c: CaptureModel| c.1,
            ranges@ == models.take(i as int).filter(keep).map_values(range),
        decreases captures.len() - i,
    {
        let ghost seen = models.take(i as int);
        let ghost done = ranges@;
        proof {
            assert(models.take(i + 1) =~= seen.push(models[i as int]));
            seen.lemma_filter_push(models[i as int], keep);
            assert(models[i as int] == (captures@[i as int].0@, captures@[i as int].1));
        }
        if !is_ignored(captures[i].0.as_str()) {
            ranges.push(Range { start: captures[i].1.start, end: captures[i].1.end });
            assert(ranges@ =~= seen.filter(keep).push(models[i as int]).map_values(range));
        }
        i += 1;
    }
    assert(models.take(captures.len() as int) =~= models);
    ranges
}

/// Those of `ranges` that hold a byte and denote a slice of `input`, in order.
pub fn retain_fitting(input: &str, ranges: &Vec<Range<usize>>) -> (kept: Vec<Range<usize>>)
    ensures
        kept@ == fitting_ranges(input@, ranges@),
        all_fit(input@, kept@),
{
    let ghost keep = |r: Range<usize>| fitting(input@, r);
    let mut kept: Vec<Range<usize>> = Vec::new();
    let mut i: usize = 0;
    proof {
        reveal(Seq::filter);
        assert(ranges@.take(0) =~= Seq::<Range<usize>>::empty());
        assert(kept@ =~= ranges@.take(0).filter(keep));
    }
    while i < ranges.len()
        invariant
            i <= ranges.len(),
            keep == |r: Range<usize>| fitting(input@, r),
            kept@ == ranges@.take(i as int).filter(keep),
            forall|k: int| 0 <= k < kept.len() ==> fitting(input@, #[trigger] kept[k]),
        decreases ranges.len() - i,
    {
        let ghost seen = ranges@.take(i as int);
        proof {
            assert(ranges@.take(i + 1) =~= seen.push(ranges[i as int]));
            seen.lemma_filter_push(ranges[i as int], keep);
        }
        let start = ranges[i].start;
        let end = ranges[i].end;
        if start < end && is_cut(input, start) && is_cut(input, end) {
            kept.push(Range { start, end });
        }
        i += 1;
    }
    assert(ranges@.take(ranges.len() as int) =~= ranges@);
    kept
}

/// What a query that ran puts in scope in `input`: the ranges of its
/// captures that are not ignored, as far as they denote slices of the input.
/// Where the parser made no tree, nothing is in scope.
pub open spec fn scoped_by(input: Seq<char>, found: Option<Seq<CaptureModel>>) -> Seq<Part> {
    match found {
        Some(captures) => parts_from_ranges(
            input,
            fitting_ranges(input, ranges_in_scope(captures)),
        ),
        None => parts_from_ranges(input, Seq::empty()),
    }
}

/// Scopes `input` by what a query found in it.
pub fn scope_by_captures<'a>(input: &'a str, found: Option<Vec<Capture>>) -> (builder:
    ScopedViewBuilder<'a>)
    ensures
        builder@ == scoped_by(input@, found_model(found)),
        joined(builder@) == input@,
        all_filled(builder@),
{
    let ranges = match found {
        Some(captures) => retain_fitting(input, &ranges_of(&captures)),
        None => Vec::new(),
    };
    ScopedViewBuilder::from_raw_ranges(input, ranges)
}

/// What the outcome of running a query says of the query: that it compiled,
/// or the error with which tree-sitter refused it.
pub fn query_checked(outcome: Result<Option<Vec<Capture>>, QueryError>) -> (checked: Result<
    (),
    QueryCompileError,
>)
    ensures
        checked is Ok <==> outcome is Ok,
        checked matches Err(e) ==> outcome matches Err(cause) && e.cause == cause,
{
    match outcome {
        Ok(_) => Ok(()),
        Err(cause) => Err(QueryCompileError { cause }),
    }
}

/// What the outcome of running a query puts in scope: what it found, or
/// nothing where the query was refused.
pub open spec fn found_in(outcome: Result<Option<Vec<Capture>>, QueryError>) -> Option<
    Seq<CaptureModel>,
> {
    match outcome {
        Ok(found) => found_model(found),
        Err(_) => None,
    }
}

/// Scopes `input` by the outcome of running a query on it.
pub fn scope_by_outcome<'a>(
    input: &'a str,
    outcome: Result<Option<Vec<Capture>>, QueryError>,
) -> (builder: ScopedViewBuilder<'a>)
    ensures
        builder@ == scoped_by(input@, found_in(outcome)),
        joined(builder@) == input@,
        all_filled(builder@),
{
    match outcome {
        Ok(found) => scope_by_captures(input, found),
        Err(_) => scope_by_captures(input, None),
    }
}

/// Whether the query `source` compiles for `grammar` here and now, and the
/// error where it does not. Tree-sitter decides.
pub fn check_query(grammar: Grammar, source: &str) -> (checked: Result<(), QueryCompileError>) {
    query_checked(run_query(grammar, source, ""))
}

/// Whether `parts` are what some captures, or a parser without a tree, would
/// put in scope in `input`.
pub open spec fn scoped_by_query(input: Seq<char>, parts: Seq<Part>) -> bool {
    exists|found: Option<Seq<CaptureModel>>| parts == #[trigger] scoped_by(input, found)
}

/// Scopes `input` by the query `source` for `grammar`: what the query
/// captures is in scope, but for the captures that are ignored. A query that
/// does not compile puts nothing in scope.
pub fn scope_via_query<'a>(grammar: Grammar, source: &str, input: &'a str) -> (builder:
    ScopedViewBuilder<'a>)
    ensures
        scoped_by_query(input@, builder@),
        joined(builder@) == input@,
        all_filled(builder@),
{
    let outcome = run_query(grammar, source, input);
    let ghost found = found_in(outcome);
    let builder = scope_by_outcome(input, outcome);
    assert(builder@ == scoped_by(input@, found));
    builder
}

} // verus!
