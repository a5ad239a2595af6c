use srgn::scoping::langs::hcl::{Hcl, HclQuery, PremadeHclQuery};
use srgn::scoping::literal::Literal;
use srgn::scoping::regex::Regex;
use srgn::scoping::{
    ROScope, RWScope, Scope, ScopedView, ScopedViewBuildStep, ScopedViewBuilder,
};
use std::borrow::Cow;
use std::ops::Range;

/// A scoper that puts all of its input in scope.
struct Identity;

impl ScopedViewBuildStep for Identity {
    fn scope<'a>(&self, input: &'a str) -> ScopedViewBuilder<'a> {
        ScopedViewBuilder::new(input)
    }
}

fn scopes_of<'a>(input: &'a str, ranges: Vec<Range<usize>>) -> Vec<ROScope<'a>> {
    ScopedViewBuilder::from_raw_ranges(input, ranges).into_scopes()
}

/// The byte offset at which each scope starts, given that they lie one after the other.
fn starts(scopes: &[ROScope]) -> Vec<usize> {
    let mut at = 0;
    let mut starts = Vec::new();
    for scope in scopes {
        starts.push(at);
        at += scope.as_str().len();
    }
    starts
}

#[test]
fn whole_input_is_rendered() {
    let view = ScopedViewBuilder::new("Hello, World!").build();
    assert_eq!(view.to_string(), "Hello, World!");
}

#[test]
fn new_builder_holds_one_scope_in_scope() {
    assert_eq!(ScopedViewBuilder::new("abc").into_scopes(), vec![Scope::In("abc")]);
}

#[test]
fn new_builder_of_empty_input_holds_no_scope() {
    assert_eq!(ScopedViewBuilder::new("").into_scopes(), Vec::<ROScope>::new());
    assert_eq!(ScopedView::builder("").into_scopes(), Vec::<ROScope>::new());
}

#[test]
fn built_view_of_empty_input_holds_no_empty_scope() {
    let mut view = ScopedViewBuilder::new("").build();
    assert!(view.into_inner_mut().iter().all(|s| !s.as_str().is_empty()));
    assert!(view.into_inner_mut().is_empty());
    assert_eq!(view.to_string(), "");
}

#[test]
fn identity_scoper_changes_nothing_of_empty_input() {
    let with = ScopedViewBuilder::new("").explode_from_scoper(&Identity);
    assert_eq!(with, ScopedViewBuilder::new(""));
    assert_eq!(with.build(), ScopedViewBuilder::new("").build());
}

#[test]
fn build_borrows_every_in_scope_payload() {
    let mut view = ScopedViewBuilder::from_raw_ranges("ab cd", vec![0..2]).build();
    for scope in view.into_inner_mut().iter() {
        assert!(!matches!(scope, Scope::In(Cow::Owned(_))));
    }
}

#[test]
fn map_owns_every_in_scope_payload() {
    let mut view = ScopedViewBuilder::from_raw_ranges("ab cd", vec![0..2]).build();
    view.map(&|s: &str| s.to_string());
    let scopes = view.into_inner_mut();
    assert!(matches!(scopes[0], Scope::In(Cow::Owned(_))));
    assert!(matches!(scopes[1], Scope::Out(" cd")));
}

#[test]
fn builder_of_view_is_the_builder() {
    assert_eq!(ScopedView::builder("abc"), ScopedViewBuilder::new("abc"));
}

#[test]
fn scope_is_empty_iff_it_holds_nothing() {
    let empty_in: ROScope = Scope::In("");
    let empty_out: ROScope = Scope::Out("");
    let filled_in: ROScope = Scope::In("a");
    let filled_out: ROScope = Scope::Out("\u{df}");
    assert!(empty_in.is_empty());
    assert!(empty_out.is_empty());
    assert!(!filled_in.is_empty());
    assert!(!filled_out.is_empty());
}

#[test]
fn scope_gives_its_slice() {
    let scope: ROScope = Scope::In("in");
    assert_eq!(scope.as_str(), "in");
    let scope: ROScope = Scope::Out("out");
    assert_eq!(scope.as_str(), "out");
    let scope: RWScope = Scope::In(Cow::Owned("owned".to_string()));
    assert_eq!(scope.as_str(), "owned");
    let scope: RWScope = Scope::Out("out");
    assert_eq!(scope.as_str(), "out");
}

#[test]
fn read_only_scope_becomes_read_write() {
    let scope: ROScope = Scope::In("x");
    assert_eq!(RWScope::from(scope), Scope::In(Cow::Borrowed("x")));
    let scope: ROScope = Scope::Out("y");
    assert_eq!(RWScope::from(scope), Scope::Out("y"));
}

#[test]
fn build_keeps_the_scopes() {
    let mut view = ScopedViewBuilder::from_raw_ranges("abc", vec![1..2]).build();
    assert_eq!(
        *view.into_inner_mut(),
        vec![Scope::Out("a"), Scope::In(Cow::Borrowed("b")), Scope::Out("c")]
    );
}

#[test]
fn ranges_become_scopes_with_gaps_out_of_scope() {
    assert_eq!(
        scopes_of("Hello, World!", vec![0..5, 7..12]),
        vec![Scope::In("Hello"), Scope::Out(", "), Scope::In("World"), Scope::Out("!")]
    );
}

#[test]
fn ranges_are_taken_in_order_of_their_start() {
    assert_eq!(
        scopes_of("abcdef", vec![4..5, 0..1, 2..3]),
        vec![
            Scope::In("a"),
            Scope::Out("b"),
            Scope::In("c"),
            Scope::Out("d"),
            Scope::In("e"),
            Scope::Out("f")
        ]
    );
}

#[test]
fn of_two_overlapping_ranges_the_later_is_discarded() {
    assert_eq!(
        scopes_of("abcdef", vec![1..4, 3..5]),
        vec![Scope::Out("a"), Scope::In("bcd"), Scope::Out("ef")]
    );
    // Given in the other order, the outcome is the same.
    assert_eq!(
        scopes_of("abcdef", vec![3..5, 1..4]),
        vec![Scope::Out("a"), Scope::In("bcd"), Scope::Out("ef")]
    );
}

#[test]
fn of_two_ranges_that_start_together_the_longer_is_taken() {
    assert_eq!(
        scopes_of("abcdef", vec![1..2, 1..4]),
        vec![Scope::Out("a"), Scope::In("bcd"), Scope::Out("ef")]
    );
    assert_eq!(
        scopes_of("abcdef", vec![1..4, 1..2]),
        vec![Scope::Out("a"), Scope::In("bcd"), Scope::Out("ef")]
    );
}

#[test]
fn nested_range_is_discarded() {
    assert_eq!(
        scopes_of("abcdef", vec![0..6, 2..3]),
        vec![Scope::In("abcdef")]
    );
}

#[test]
fn adjacent_ranges_are_both_taken() {
    assert_eq!(
        scopes_of("abcd", vec![0..2, 2..4]),
        vec![Scope::In("ab"), Scope::In("cd")]
    );
}

#[test]
fn empty_ranges_are_discarded() {
    assert_eq!(scopes_of("abc", vec![1..1]), vec![Scope::Out("abc")]);
    assert_eq!(
        scopes_of("abc", vec![0..0, 1..2, 3..3]),
        vec![Scope::Out("a"), Scope::In("b"), Scope::Out("c")]
    );
}

#[test]
fn empty_range_does_not_hide_a_range_behind_it() {
    assert_eq!(
        scopes_of("abc", vec![1..1, 0..2]),
        vec![Scope::In("ab"), Scope::Out("c")]
    );
}

#[test]
fn no_range_puts_all_out_of_scope() {
    assert_eq!(scopes_of("abc", vec![]), vec![Scope::Out("abc")]);
    assert_eq!(scopes_of("", vec![]), Vec::<ROScope>::new());
}

#[test]
fn ranges_cut_between_characters_of_several_bytes() {
    // "ä" takes two bytes, "你" three.
    assert_eq!(
        scopes_of("a\u{e4}\u{4f60}b", vec![1..3, 3..6]),
        vec![Scope::Out("a"), Scope::In("\u{e4}"), Scope::In("\u{4f60}"), Scope::Out("b")]
    );
}

#[test]
fn explode_replaces_in_scope_and_forwards_out_of_scope() {
    let builder = ScopedViewBuilder::from_raw_ranges("ab cd", vec![0..2, 3..5]);
    let exploded = builder.explode(|s| ScopedViewBuilder::from_raw_ranges(s, vec![0..1]));
    assert_eq!(
        exploded.into_scopes(),
        vec![
            Scope::In("a"),
            Scope::Out("b"),
            Scope::Out(" "),
            Scope::In("c"),
            Scope::Out("d")
        ]
    );
}

#[test]
fn explode_prunes_empty_scopes() {
    let exploded = ScopedViewBuilder::new("").explode(|s| ScopedViewBuilder::new(s));
    assert_eq!(exploded.into_scopes(), Vec::<ROScope>::new());
    let exploded = ScopedViewBuilder::new("").explode_from_scoper(&Identity);
    assert_eq!(exploded.into_scopes(), Vec::<ROScope>::new());
}

#[test]
fn explode_keeps_nothing_empty_of_what_the_exploder_answers() {
    let exploded = ScopedViewBuilder::new("abc").explode(|_| ScopedViewBuilder::new(""));
    assert_eq!(exploded.into_scopes(), Vec::<ROScope>::new());
}

#[test]
fn explode_from_ranges_refines_in_scope_parts_only() {
    let builder = ScopedViewBuilder::new("aXbXc").explode_from_ranges(|s| {
        s.match_indices('X').map(|(at, m)| at..at + m.len()).collect()
    });
    assert_eq!(
        builder.clone().into_scopes(),
        vec![
            Scope::Out("a"),
            Scope::In("X"),
            Scope::Out("b"),
            Scope::In("X"),
            Scope::Out("c")
        ]
    );
    // A second explosion sees the in-scope parts only: "a", "b" and "c" stay out.
    let again = builder.explode_from_ranges(|s| vec![0..s.len()]);
    assert_eq!(
        again.into_scopes(),
        vec![
            Scope::Out("a"),
            Scope::In("X"),
            Scope::Out("b"),
            Scope::In("X"),
            Scope::Out("c")
        ]
    );
}

#[test]
fn scopers_compose_by_refining() {
    // Words first, then the letter "o" within the words: the "o" of no word is not in scope.
    let words = Regex::new(r"[A-Z]\w+").unwrap();
    let o = Literal::new("o").unwrap();
    let builder = ScopedViewBuilder::new("Hello, you World!")
        .explode_from_scoper(&words)
        .explode_from_scoper(&o);
    assert_eq!(
        builder.into_scopes(),
        vec![
            Scope::Out("Hell"),
            Scope::In("o"),
            Scope::Out(", you "),
            Scope::Out("W"),
            Scope::In("o"),
            Scope::Out("rld"),
            Scope::Out("!")
        ]
    );
}

#[test]
fn rendering_without_actions_gives_the_input() {
    let input = "resource \"a\" \"b\" {}\n# gr\u{fc}\u{df}e \u{4f60}\u{597d} \u{43f}\u{440}\u{438}\u{432}\u{435}\u{442}\n";
    let hcl = Hcl::new(HclQuery::Premade(PremadeHclQuery::Strings)).unwrap();
    let view = ScopedViewBuilder::new(input)
        .explode_from_scoper(&Regex::new(r"\w+").unwrap())
        .explode_from_scoper(&Literal::new("e").unwrap())
        .explode_from_scoper(&hcl)
        .explode_from_scoper(&Identity)
        .explode_from_ranges(|s| vec![0..s.len()])
        .build();
    assert_eq!(view.to_string(), input);
}

#[test]
fn built_view_holds_no_empty_scope() {
    let mut view = ScopedViewBuilder::new("a,b,,c")
        .explode_from_scoper(&Literal::new(",").unwrap())
        .build();
    let scopes = view.into_inner_mut();
    assert_eq!(scopes.len(), 6);
    assert!(scopes.iter().all(|s| !s.as_str().is_empty()));
}

#[test]
fn scopes_start_at_ascending_offsets_of_the_input() {
    let input = "a\u{e4}b,c\u{4f60},,d";
    let scopes = ScopedViewBuilder::new(input)
        .explode_from_scoper(&Literal::new(",").unwrap())
        .into_scopes();
    let starts = starts(&scopes);
    assert_eq!(starts, vec![0, 4, 5, 9, 10, 11]);
    for (scope, start) in scopes.iter().zip(&starts) {
        let text = scope.as_str();
        assert_eq!(&input[*start..*start + text.len()], text);
    }
}

#[test]
fn identity_scoper_changes_nothing() {
    let with = ScopedViewBuilder::from_raw_ranges("ab cd", vec![0..2, 3..5])
        .explode_from_scoper(&Identity);
    let without = ScopedViewBuilder::from_raw_ranges("ab cd", vec![0..2, 3..5]);
    assert_eq!(with, without);
    assert_eq!(with.build(), without.build());
    let once = ScopedViewBuilder::new("abc").explode_from_scoper(&Identity);
    assert_eq!(once, ScopedViewBuilder::new("abc"));
}

#[test]
fn map_changes_in_scope_parts_only() {
    let mut view = ScopedViewBuilder::from_raw_ranges("ab cd ef", vec![0..2, 6..8]).build();
    view.map(&|s: &str| format!("<{s}>"));
    assert_eq!(
        *view.into_inner_mut(),
        vec![
            Scope::In(Cow::Borrowed("<ab>")),
            Scope::Out(" cd "),
            Scope::In(Cow::Borrowed("<ef>"))
        ]
    );
    assert_eq!(view.to_string(), "<ab> cd <ef>");
}

#[test]
fn map_returns_the_view_for_chaining() {
    let mut view = ScopedViewBuilder::from_raw_ranges("ab cd", vec![0..2]).build();
    let rendered = view
        .map(&|s: &str| s.to_uppercase())
        .map(&|s: &str| format!("{s}{s}"))
        .to_string();
    assert_eq!(rendered, "ABAB cd");
}

#[test]
fn out_of_scope_text_survives_all_actions() {
    let out_of = |view: &mut ScopedView| -> String {
        view.into_inner_mut()
            .iter()
            .filter(|s| matches!(s, Scope::Out(_)))
            .map(|s| s.as_str().to_string())
            .collect()
    };
    let mut view = ScopedViewBuilder::new("a1b22c333")
        .explode_from_scoper(&Regex::new(r"\d+").unwrap())
        .build();
    let before = out_of(&mut view);
    view.map(&|s: &str| s.repeat(2));
    view.delete();
    view.map(&|_: &str| "!".to_string());
    assert_eq!(out_of(&mut view), before);
    assert_eq!(before, "abc");
    assert_eq!(view.to_string(), "a!b!c!");
}

#[test]
fn delete_empties_in_scope_parts() {
    let mut view = ScopedViewBuilder::from_raw_ranges("ab cd", vec![0..2]).build();
    view.delete();
    assert_eq!(
        *view.into_inner_mut(),
        vec![Scope::In(Cow::Borrowed("")), Scope::Out(" cd")]
    );
    assert_eq!(view.to_string(), " cd");
}

#[test]
fn inner_scopes_can_be_changed() {
    let mut view = ScopedViewBuilder::new("abc").build();
    view.into_inner_mut().push(Scope::Out("!"));
    assert_eq!(view.to_string(), "abc!");
    assert_eq!(
        view,
        ScopedView::new(vec![Scope::In(Cow::Borrowed("abc")), Scope::Out("!")])
    );
}

#[test]
fn view_of_given_scopes_renders_them_in_order() {
    let view = ScopedView::new(vec![
        Scope::Out("a"),
        Scope::In(Cow::Owned("b".to_string())),
        Scope::In(Cow::Borrowed("c")),
    ]);
    assert_eq!(view.to_string(), "abc");
    assert_eq!(ScopedView::new(vec![]).to_string(), "");
}
