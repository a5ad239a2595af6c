use srgn::scoping::langs::hcl::{CustomHclQuery, Hcl, HclQuery, PremadeHclQuery};
use srgn::scoping::ScopedViewBuildStep;

fn replaced(query: PremadeHclQuery, input: &str, with: &str) -> String {
    let lang = Hcl::new(HclQuery::Premade(query)).unwrap();
    let mut view = lang.scope(input).build();
    view.map(&|_: &str| with.to_string());
    view.to_string()
}

#[test]
fn hcl_resource_types_are_replaced() {
    assert_eq!(
        replaced(PremadeHclQuery::ResourceTypes, "resource \"aws_s3_bucket\" \"b\" {}", "X"),
        "resource \"X\" \"b\" {}"
    );
}

#[test]
fn hcl_premade_queries_compile() {
    for query in [
        PremadeHclQuery::Variables,
        PremadeHclQuery::ResourceNames,
        PremadeHclQuery::ResourceTypes,
        PremadeHclQuery::DataNames,
        PremadeHclQuery::DataSources,
        PremadeHclQuery::Comments,
        PremadeHclQuery::Strings,
    ] {
        assert!(Hcl::new(HclQuery::Premade(query)).is_ok(), "{:?}", query);
    }
}

#[test]
fn hcl_custom_query_is_checked() {
    assert!(CustomHclQuery::new("(comment) @comment").is_ok());
    assert!(CustomHclQuery::new("(no_such_node) @x").is_err());
    assert!(CustomHclQuery::new("(comment").is_err());
    assert!("(comment) @c".parse::<CustomHclQuery>().is_ok());
}

#[test]
fn hcl_comments_are_deleted() {
    let lang = Hcl::new(HclQuery::Premade(PremadeHclQuery::Comments)).unwrap();
    let input = "# note\nx = 1\n";
    let mut view = lang.scope(input).build();
    view.delete();
    assert_eq!(view.to_string(), "\nx = 1\n");
}

#[test]
fn hcl_resource_names_are_replaced() {
    assert_eq!(
        replaced(PremadeHclQuery::ResourceNames, "resource \"aws_s3_bucket\" \"b\" {}", "X"),
        "resource \"aws_s3_bucket\" X {}"
    );
}

#[test]
fn hcl_ignored_capture_is_not_in_scope() {
    // The identifier `resource` is captured too, under an ignored name.
    let out = replaced(PremadeHclQuery::ResourceTypes, "resource \"t\" \"n\" {}", "");
    assert_eq!(out, "resource \"\" \"n\" {}");
}

#[test]
fn hcl_variable_usage_is_scoped() {
    assert_eq!(
        replaced(PremadeHclQuery::Variables, "x = var.region\n", "NAME"),
        "x = var.NAME\n"
    );
}

#[test]
fn hcl_strings_are_scoped() {
    // A literal string is captured with its quotes.
    assert_eq!(replaced(PremadeHclQuery::Strings, "x = \"abc\"\n", "S"), "x = S\n");
}

#[test]
fn hcl_scope_of_non_ascii_input_is_rendered_whole() {
    let lang = Hcl::new(HclQuery::Premade(PremadeHclQuery::Comments)).unwrap();
    let input = "# gr\u{fc}\u{df}e \u{4f60}\u{597d}\nx = \"\u{e4}\"\n";
    assert_eq!(lang.scope(input).build().to_string(), input);
}
