use srgn::scoping::langs::python::{CustomPythonQuery, PremadePythonQuery, Python, PythonQuery};
use srgn::scoping::ScopedViewBuildStep;

fn deleted(query: PythonQuery, input: &str) -> String {
    let lang = Python::new(query).unwrap();
    let mut view = lang.scope(input).build();
    view.delete();
    view.to_string()
}

#[test]
fn python_docstring_is_deleted() {
    assert_eq!(
        deleted(
            PythonQuery::Premade(PremadePythonQuery::DocStrings),
            "def f():\n    \"\"\"doc\"\"\"\n    pass\n"
        ),
        "def f():\n    \n    pass\n"
    );
}

#[test]
fn python_plain_string_is_no_docstring() {
    let input = "x = \"\"\"text\"\"\"\ny = \"s\"\n";
    assert_eq!(deleted(PythonQuery::Premade(PremadePythonQuery::DocStrings), input), input);
}

#[test]
fn python_comments_are_deleted() {
    assert_eq!(
        deleted(PythonQuery::Premade(PremadePythonQuery::Comments), "x = 1  # one\n# two\n"),
        "x = 1  \n\n"
    );
}

#[test]
fn python_function_names_are_deleted() {
    assert_eq!(
        deleted(
            PythonQuery::Premade(PremadePythonQuery::FunctionNames),
            "def f():\n    g()\n"
        ),
        "def ():\n    g()\n"
    );
}

#[test]
fn python_function_calls_are_deleted() {
    assert_eq!(
        deleted(
            PythonQuery::Premade(PremadePythonQuery::FunctionCalls),
            "def f():\n    g()\n"
        ),
        "def f():\n    ()\n"
    );
}

#[test]
fn python_custom_query_is_checked() {
    let query = CustomPythonQuery::new("(identifier) @id").unwrap();
    assert_eq!(deleted(PythonQuery::Custom(query), "a = b\n"), " = \n");
    assert!(CustomPythonQuery::new("(identifier @id").is_err());
    assert!("(identifier) @id".parse::<CustomPythonQuery>().is_ok());
}

#[test]
fn python_query_of_another_grammar_is_refused() {
    // `get_attr` is a node of HCL, not of Python.
    assert!(CustomPythonQuery::new("(get_attr) @x").is_err());
}
