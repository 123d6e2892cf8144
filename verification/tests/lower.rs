use csearch_core::cast::{
    collect_unsupported, ExprKind, Function, Identifier, ItemKind, StmtKind, TranslationUnit,
};
use csearch_core::lower::lower_source;

fn lower(src: &str) -> TranslationUnit {
    lower_source(src).expect("parse")
}

fn first_function(unit: &TranslationUnit) -> &Function {
    unit.functions().into_iter().next().expect("a function definition")
}

/// Regression: the C grammar field is `right`, not `rhs`.
#[test]
fn lower_plain_assignment_lowers() {
    let unit = lower("int f() { int a; a = 2; }");
    let stmts = &first_function(&unit).body.statements;
    match &stmts[1].kind {
        StmtKind::Assign { lhs, rhs } => {
            assert!(matches!(&lhs.kind, ExprKind::Variable(Identifier(n)) if n == "a"));
            assert!(matches!(rhs.kind, ExprKind::Int(2)));
        }
        other => panic!("expected Assign, got {other:?}"),
    }
}

/// Regression: nested declarators used to be asserted as `identifier`.
#[test]
fn lower_nested_declarators_lower() {
    let unit = lower("int f() { int *p; int a[10]; int **q; }");
    let names: Vec<_> = first_function(&unit)
        .body
        .statements
        .iter()
        .map(|s| match &s.kind {
            StmtKind::Declaration { name, .. } => name.0.clone(),
            other => panic!("expected Declaration, got {other:?}"),
        })
        .collect();
    assert_eq!(names, ["p", "a", "q"]);
}

#[test]
fn lower_pointer_parameters_lower() {
    let unit = lower("int f(int *x, int y) { return y; }");
    let params: Vec<_> = first_function(&unit)
        .params
        .iter()
        .map(|p| p.0.clone())
        .collect();
    assert_eq!(params, ["x", "y"]);
}

#[test]
fn lower_spans_slice_back_to_source() {
    let src = "int f() { return 1 + 2; }";
    let unit = lower(src);
    let ret = &first_function(&unit).body.statements[0];
    assert_eq!(ret.span.slice(src), "return 1 + 2;");
    match &ret.kind {
        StmtKind::Return(Some(e)) => assert_eq!(e.span.slice(src), "1 + 2"),
        other => panic!("expected Return, got {other:?}"),
    }
}

#[test]
fn unmodelled_statements_become_unsupported() {
    let unit = lower("int f() { for (;;) { } goto end; }");
    let kinds: Vec<_> = first_function(&unit)
        .body
        .statements
        .iter()
        .map(|s| match &s.kind {
            StmtKind::Unsupported { kind } => kind.clone(),
            other => panic!("expected Unsupported, got {other:?}"),
        })
        .collect();
    assert_eq!(kinds, ["for_statement", "goto_statement"]);
}

#[test]
fn compound_assignment_is_unsupported_not_mistranslated() {
    let unit = lower("int f() { int a; a += 2; }");
    assert!(matches!(
        &first_function(&unit).body.statements[1].kind,
        StmtKind::Unsupported { kind } if kind == "assignment_expression"
    ));
}

#[test]
fn unmodelled_expressions_become_unsupported() {
    let unit = lower(r#"int f() { return "hi"; }"#);
    match &first_function(&unit).body.statements[0].kind {
        StmtKind::Return(Some(e)) => assert!(matches!(
            &e.kind,
            ExprKind::Unsupported { kind } if kind == "string_literal"
        )),
        other => panic!("expected Return, got {other:?}"),
    }
}

#[test]
fn integer_literals_parse_by_radix() {
    let unit = lower("int f() { int a = 0x1f; int b = 010; int c = 42u; int d = 1.5; }");
    let values: Vec<_> = first_function(&unit)
        .body
        .statements
        .iter()
        .map(|s| match &s.kind {
            StmtKind::Declaration { value: Some(v), .. } => v.kind.clone(),
            other => panic!("expected initialised Declaration, got {other:?}"),
        })
        .collect();
    assert!(matches!(values[0], ExprKind::Int(31)));
    assert!(matches!(values[1], ExprKind::Int(8)));
    assert!(matches!(values[2], ExprKind::Int(42)));
    // A float is not an i64 — better unsupported than silently 0.
    assert!(matches!(&values[3], ExprKind::Unsupported { kind } if kind == "number_literal"));
}

#[test]
fn collect_unsupported_reports_kind_and_span() {
    let src = "int f() { while (1) { } return 1 + \"x\"; }";
    let found = collect_unsupported(&lower(src));
    let reported: Vec<_> = found
        .iter()
        .map(|u| (u.kind.as_str(), u.span.slice(src)))
        .collect();
    assert_eq!(
        reported,
        [
            ("while_statement", "while (1) { }"),
            ("string_literal", "\"x\""),
        ]
    );
}

/// Globals, typedefs and preprocessor directives used to be dropped
/// without a trace, which was the one place lowering broke its own
/// no-silent-drops contract. They are now reported.
#[test]
fn top_level_constructs_are_reported_not_dropped() {
    let src = "int g = 1;\ntypedef int myint;\nstruct S { int x; };\nint f(void) { return 1; }";
    let unit = lower(src);

    let kinds: Vec<_> = unit
        .items
        .iter()
        .map(|item| match &item.kind {
            ItemKind::Function(function) => format!("fn {}", function.name.0),
            ItemKind::Unsupported { kind } => kind.clone(),
        })
        .collect();
    assert_eq!(
        kinds,
        ["declaration", "type_definition", "struct_specifier", "fn f"]
    );

    // And the diagnostics walker sees them, with spans that slice back.
    let reported: Vec<_> = collect_unsupported(&unit)
        .iter()
        .map(|u| u.span.slice(src))
        .collect();
    // `struct_specifier` is the declaration's *type*, so its span stops
    // before the `;` the other two include.
    assert_eq!(
        reported,
        ["int g = 1;", "typedef int myint;", "struct S { int x; }"]
    );
}

/// A function definition lowering cannot name — here, an unnamed parameter —
/// is an unsupported item rather than a missing one. Lowering it with the
/// wrong arity would be the worse answer.
#[test]
fn unnameable_function_definitions_are_unsupported_items() {
    let unit = lower("void f(int) { }");
    assert_eq!(unit.functions().len(), 0);
    assert!(matches!(
        &unit.items[0].kind,
        ItemKind::Unsupported { kind } if kind == "function_definition"
    ));
}

#[test]
fn functions_skips_unsupported_items_in_source_order() {
    let unit = lower("typedef int a; int f(void) { } typedef int b; int g(void) { }");
    let names: Vec<_> = unit.functions().iter().map(|f| f.name.0.clone()).collect();
    assert_eq!(names, ["f", "g"]);
}

/// The lowering contract: total, and never panics.
#[test]
fn lowering_never_panics_on_awkward_input() {
    let sources = [
        "",
        "int;",
        "void f(int) { }",
        "int (*f(void))(int) { }",
        "struct S { int x; }; int g(struct S *s) { return s->x; }",
        "typedef int myint; myint h(void) { myint v = 1; return v; }",
        "#define M 1\nint i(void) { return M; }",
        "int j(void) { int *p, **q, a[3]; p = &a[0]; return **q; }",
        "int k(void) { switch (1) { case 1: break; default: ; } return 0; }",
        "int l(void) { f->cb(1); (*g)(2); return 0; }",
        "int broken(void) { int a = ; return",
    ];
    for src in sources {
        let unit = lower(src);
        // Exercising the walker too — it must not panic either.
        let _ = collect_unsupported(&unit);
    }
}

/// A definition whose name sits under a further function declarator returns
/// a function pointer; its outer parameter list is the pointer's, so the
/// definition has no signature to give and stays an unsupported item.
#[test]
fn definitions_returning_function_pointers_are_unsupported_items() {
    for src in ["int (*f(void))(int) { }", "int (*f(void))(int x) { return 0; }"] {
        let unit = lower(src);
        assert_eq!(unit.functions().len(), 0);
        assert!(matches!(
            &unit.items[0].kind,
            ItemKind::Unsupported { kind } if kind == "function_definition"
        ));
    }
    for src in ["int f(void) { return 1; }", "int f() { return 1; }", "int (f)(void) { return 1; }"] {
        let unit = lower(src);
        let f = first_function(&unit);
        assert_eq!(f.name.0, "f");
        assert!(f.params.is_empty());
    }
}
