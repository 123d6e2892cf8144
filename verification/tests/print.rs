use csearch_core::cast::{print, TranslationUnit};
use csearch_core::lower::lower_source;

fn lower(src: &str) -> TranslationUnit {
    lower_source(src).expect("parse")
}

fn printed(src: &str) -> String {
    print(&lower(src)).expect("no unsupported nodes")
}

#[test]
fn prints_a_whole_function() {
    assert_eq!(
        printed("int f(int a, int b) { int c = a + b; c = g(c, 1); return c; }"),
        "int f(int a, int b) {\n    \
             int c = a + b;\n    \
             c = g(c, 1);\n    \
             return c;\n\
         }\n",
    );
}

#[test]
fn empty_parameter_list_prints_as_void() {
    assert_eq!(
        printed("int f() { return 1; }"),
        "int f(void) {\n    return 1;\n}\n"
    );
}

#[test]
fn functions_are_separated_by_a_blank_line() {
    assert_eq!(
        printed("int f(void) { return 1; } int g(void) { return 2; }"),
        "int f(void) {\n    return 1;\n}\n\nint g(void) {\n    return 2;\n}\n",
    );
}

/// Parentheses appear exactly where dropping them would change the tree,
/// and nowhere else.
#[test]
fn parenthesizes_only_where_grouping_matters() {
    let cases = [
        ("1 + 2 * 3", "1 + 2 * 3"),
        ("(1 + 2) * 3", "(1 + 2) * 3"),
        ("1 - 2 - 3", "1 - 2 - 3"),
        ("1 - (2 - 3)", "1 - (2 - 3)"),
        ("1 / (2 * 3)", "1 / (2 * 3)"),
        ("1 * 2 / 3", "1 * 2 / 3"),
        ("((1)) + (2)", "1 + 2"),
    ];
    for (src, expected) in cases {
        let printed = printed(&format!("int f(void) {{ return {src}; }}"));
        assert_eq!(
            printed,
            format!("int f(void) {{\n    return {expected};\n}}\n")
        );
    }
}

#[test]
fn uninitialised_declaration_and_bare_return() {
    assert_eq!(
        printed("int f(void) { int a; return; }"),
        "int f(void) {\n    int a;\n    return;\n}\n",
    );
}

/// A single unmodelled top-level construct makes the whole unit
/// unprintable. That is deliberate — there is no C text meaning "a typedef
/// we could not model" — but it does mean real-world files will usually
/// fail here, and `dump` is the tool for those.
#[test]
fn an_unsupported_item_makes_the_unit_unprintable() {
    let unit = lower("typedef int myint; int f(void) { return 1; }");
    let error = print(&unit).expect_err("typedefs are not modelled");
    assert_eq!(error.len(), 1);
    assert_eq!(error[0].kind, "type_definition");
}

/// The printer promises compilable C, so a tree that still holds an
/// unmodelled construct is an error rather than a plausible-looking lie.
#[test]
fn unsupported_nodes_are_an_error_not_a_guess() {
    let unit = lower("int f(void) { while (1) { } return 1; }");
    let error = print(&unit).expect_err("while is not modelled yet");
    assert_eq!(error.len(), 1);
    assert_eq!(error[0].kind, "while_statement");
}
