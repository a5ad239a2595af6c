use srgn::scoping::literal::{find_occurrences, stands_at, Literal};
use srgn::scoping::ranges::{in_order, range_key};
use srgn::text::{byte_len, is_cut, next_cut, slice};
use srgn::scoping::regex::Regex;
use srgn::scoping::{ROScope, Scope, ScopedViewBuildStep, ScoperBuildError};
use std::ops::Range;

#[test]
fn literal_matches_are_in_scope() {
    let scoper = Literal::new("ab").unwrap();
    assert_eq!(
        scoper.scope("xabyab").into_scopes(),
        vec![Scope::Out("x"), Scope::In("ab"), Scope::Out("y"), Scope::In("ab")]
    );
}

#[test]
fn literal_matches_do_not_overlap() {
    let scoper = Literal::new("aa").unwrap();
    assert_eq!(
        scoper.scope("aaaaa").into_scopes(),
        vec![Scope::In("aa"), Scope::In("aa"), Scope::Out("a")]
    );
}

#[test]
fn literal_without_match_puts_all_out_of_scope() {
    let scoper = Literal::new("z").unwrap();
    assert_eq!(scoper.scope("abc").into_scopes(), vec![Scope::Out("abc")]);
    assert_eq!(scoper.scope("").into_scopes(), Vec::<ROScope>::new());
    let long = Literal::new("abcd").unwrap();
    assert_eq!(long.scope("abc").into_scopes(), vec![Scope::Out("abc")]);
}

#[test]
fn literal_of_several_bytes_is_found() {
    let scoper = Literal::new("\u{e4}").unwrap();
    assert_eq!(
        scoper.scope("a\u{e4}\u{f6}\u{e4}").into_scopes(),
        vec![Scope::Out("a"), Scope::In("\u{e4}"), Scope::Out("\u{f6}"), Scope::In("\u{e4}")]
    );
}

#[test]
fn empty_literal_is_an_empty_scope() {
    assert!(matches!(Literal::new(""), Err(ScoperBuildError::EmptyScope)));
}

#[test]
fn occurrences_are_found_from_left_to_right() {
    assert_eq!(find_occurrences(b"abcabc", b"bc"), vec![1..3, 4..6]);
    assert_eq!(find_occurrences(b"aaa", b"aa"), vec![0..2]);
    assert_eq!(find_occurrences(b"abc", b"abc"), vec![0..3]);
    assert_eq!(find_occurrences(b"ab", b"abc"), Vec::<Range<usize>>::new());
    assert_eq!(find_occurrences(b"", b"a"), Vec::<Range<usize>>::new());
}

#[test]
fn pattern_stands_where_the_bytes_agree() {
    assert!(stands_at(b"abc", b"bc", 1));
    assert!(!stands_at(b"abc", b"bc", 0));
    assert!(stands_at(b"abc", b"", 3));
}

#[test]
fn regex_matches_are_in_scope() {
    let scoper = Regex::new(r"\d+").unwrap();
    assert_eq!(
        scoper.scope("a1b22").into_scopes(),
        vec![Scope::Out("a"), Scope::In("1"), Scope::Out("b"), Scope::In("22")]
    );
    assert_eq!(scoper.pattern(), r"\d+");
}

#[test]
fn regex_empty_matches_put_nothing_in_scope() {
    let scoper = Regex::new("x*").unwrap();
    assert_eq!(
        scoper.scope("axxb").into_scopes(),
        vec![Scope::Out("a"), Scope::In("xx"), Scope::Out("b")]
    );
}

#[test]
fn empty_regex_is_an_empty_scope() {
    assert!(matches!(Regex::new(""), Err(ScoperBuildError::EmptyScope)));
}

#[test]
fn invalid_regex_is_a_regex_error() {
    match Regex::new("(") {
        Err(ScoperBuildError::RegexError(e)) => assert!(!e.cause.to_string().is_empty()),
        other => panic!("{:?}", other),
    }
}

#[test]
fn ranges_are_put_in_order() {
    assert_eq!(in_order(vec![3..4, 1..2, 1..5, 0..9]), vec![0..9, 1..5, 1..2, 3..4]);
    assert_eq!(in_order(vec![]), Vec::<Range<usize>>::new());
}

#[test]
fn longer_range_has_the_smaller_key() {
    assert_eq!(range_key(&(1..5)), (1, usize::MAX - 5));
    assert!(range_key(&(1..5)) < range_key(&(1..2)));
    assert!(range_key(&(0..1)) < range_key(&(1..9)));
}

#[test]
fn literal_error_becomes_a_build_error() {
    let error = srgn::scoping::literal::LiteralError { detail: "bad".to_string() };
    match ScoperBuildError::from(error) {
        ScoperBuildError::LiteralError(e) => assert_eq!(e.detail, "bad"),
        other => panic!("{:?}", other),
    }
}

#[test]
fn regex_error_becomes_a_build_error() {
    let cause = regex::Regex::new("(").unwrap_err();
    let error = srgn::scoping::regex::RegexError { cause: cause.clone() };
    match ScoperBuildError::from(error) {
        ScoperBuildError::RegexError(e) => assert_eq!(e.cause, cause),
        other => panic!("{:?}", other),
    }
}

#[test]
fn text_is_cut_between_characters_only() {
    // "ä" takes the bytes 1 and 2, "你" the bytes 3 to 5.
    let text = "aä你";
    assert_eq!(byte_len(text), 6);
    let cuts: Vec<usize> = (0..8).filter(|at| is_cut(text, *at)).collect();
    assert_eq!(cuts, vec![0, 1, 3, 6]);
    assert_eq!(next_cut(text, 0), 1);
    assert_eq!(next_cut(text, 1), 3);
    assert_eq!(next_cut(text, 3), 6);
    assert_eq!(slice(text, 1, 3), "ä");
    assert_eq!(slice(text, 0, 6), text);
    assert_eq!(slice(text, 3, 3), "");
}
