use srgn::actions::Action;
use srgn::scoping::regex::Regex;
use srgn::scoping::ScopedViewBuilder;
use srgn::stages::UpperStage;

/// Collapses every run of one code point to a single one.
fn squeeze(input: &str) -> String {
    let mut out = String::new();
    let mut last = None;
    for c in input.chars() {
        if last != Some(c) {
            out.push(c);
        }
        last = Some(c);
    }
    out
}

#[test]
fn capitalised_words_are_uppercased() {
    let scoper = Regex::new(r"[A-Z]\w+").unwrap();
    let mut view = ScopedViewBuilder::new("Hello, World!").explode_from_scoper(&scoper).build();
    UpperStage {}.map(&mut view);
    assert_eq!(view.to_string(), "HELLO, WORLD!");
}

#[test]
fn german_input_is_uppercased_whole() {
    let mut view = ScopedViewBuilder::new("aA\u{e4}\u{c4}\u{f6}\u{d6}\u{fc}\u{dc}\u{df}\u{1e9e}!").build();
    UpperStage {}.map(&mut view);
    assert_eq!(view.to_string(), "AA\u{c4}\u{c4}\u{d6}\u{d6}\u{dc}\u{dc}\u{1e9e}\u{1e9e}!");
    assert_eq!(view.to_string(), "AAÄÄÖÖÜÜẞẞ!");
}

#[test]
fn chinese_and_russian_input_is_uppercased_whole() {
    let mut view = ScopedViewBuilder::new("你好! привет!").build();
    UpperStage {}.map(&mut view);
    assert_eq!(view.to_string(), "你好! ПРИВЕТ!");
}

#[test]
fn only_the_run_in_scope_is_squeezed() {
    let scoper = Regex::new("b+").unwrap();
    let mut view = ScopedViewBuilder::new("aaabbbcccc").explode_from_scoper(&scoper).build();
    view.map(&squeeze);
    assert_eq!(view.to_string(), "aaabcccc");
}

#[test]
fn action_applied_twice_is_its_composition() {
    let mut view = ScopedViewBuilder::from_raw_ranges("ab cd", vec![0..2]).build();
    let double = |s: &str| format!("{s}{s}");
    view.map(&double);
    view.map(&double);
    assert_eq!(view.to_string(), "abababab cd");
}
