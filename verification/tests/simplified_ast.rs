use csearch_core::simplified_ast::{
    build_translation_unit, try_build_translation_unit, BinOp, Expression, Identifier, Statement,
    TranslationUnit,
};
use csearch_core::syntax::parse_source;

fn read(src: &str) -> Option<TranslationUnit> {
    let tree = parse_source(src).expect("parse");
    try_build_translation_unit(&tree, src)
}

fn name(id: &Identifier) -> &str {
    id.0.as_str()
}

#[test]
fn reads_declarations_calls_and_returns() {
    let src = "int f(int a, int b) { int c = a + b; g(c, 1); return c; }";
    let tree = parse_source(src).expect("parse");
    let unit = build_translation_unit(&tree, src);
    assert_eq!(unit.functions.len(), 1);
    let f = &unit.functions[0];
    assert_eq!(name(&f.name), "f");
    let params: Vec<_> = f.params.iter().map(name).collect();
    assert_eq!(params, ["a", "b"]);
    let stmts = &f.body.statements;
    assert_eq!(stmts.len(), 3);
    match &stmts[0] {
        Statement::Declaration { name: n, value: Some(Expression::BinaryOp { op, lhs, rhs }) } => {
            assert_eq!(name(n), "c");
            assert_eq!(*op, BinOp::Add);
            assert!(matches!(&**lhs, Expression::Variable(Identifier(v)) if v == "a"));
            assert!(matches!(&**rhs, Expression::Variable(Identifier(v)) if v == "b"));
        }
        other => panic!("expected an initialised declaration, got {other:?}"),
    }
    match &stmts[1] {
        Statement::ExprStmt(Expression::Call { callee, args }) => {
            assert_eq!(name(callee), "g");
            assert_eq!(args.len(), 2);
            assert!(matches!(args[1], Expression::Int(1)));
        }
        other => panic!("expected a call, got {other:?}"),
    }
    assert!(matches!(&stmts[2], Statement::Return(Some(Expression::Variable(Identifier(v)))) if v == "c"));
}

#[test]
fn only_function_definitions_are_read_at_the_top_level() {
    let unit = read("int g = 1; typedef int t; int f() { return g; } int h() { return; }").unwrap();
    let names: Vec<_> = unit.functions.iter().map(|f| name(&f.name)).collect();
    assert_eq!(names, ["f", "h"]);
    assert!(matches!(unit.functions[1].body.statements[0], Statement::Return(None)));
}

#[test]
fn literals_read_as_decimal_or_zero() {
    let unit = read("int f() { return 42; } int g() { return 0x1f; }").unwrap();
    assert!(matches!(unit.functions[0].body.statements[0], Statement::Return(Some(Expression::Int(42)))));
    assert!(matches!(unit.functions[1].body.statements[0], Statement::Return(Some(Expression::Int(0)))));
}

#[test]
fn unread_statements_leave_nothing() {
    let unit = read("int f() { while (1) { } return 1; }").unwrap();
    assert_eq!(unit.functions[0].body.statements.len(), 1);
}

#[test]
fn assignments_read_both_sides() {
    let unit = read("int f(int a) { a = 2; return a; }").unwrap();
    match &unit.functions[0].body.statements[0] {
        Statement::Assign { lhs, rhs } => {
            assert!(matches!(lhs, Expression::Variable(Identifier(n)) if n == "a"));
            assert!(matches!(rhs, Expression::Int(2)));
        }
        other => panic!("expected Assign, got {other:?}"),
    }
}

#[test]
fn pointer_declarators_name_what_they_point_at() {
    let unit = read("int f(int *x, int y) { int *p; int **q = 0; return y; }").unwrap();
    let f = &unit.functions[0];
    let params: Vec<_> = f.params.iter().map(name).collect();
    assert_eq!(params, ["x", "y"]);
    let names: Vec<_> = f
        .body
        .statements
        .iter()
        .filter_map(|s| match s {
            Statement::Declaration { name: n, .. } => Some(name(n)),
            _ => None,
        })
        .collect();
    assert_eq!(names, ["p", "q"]);
    let unit = read("int *g(void *) { return 0; }");
    assert!(unit.is_none());
    let unit = read("int *h(int a) { return a; }");
    assert!(unit.is_none());
}

#[test]
fn shapes_the_builder_does_not_read_have_no_tree() {
    // A `void` parameter list has a parameter without a declarator.
    assert!(read("int f(void) { return 1; }").is_none());
    // Arrays are not declarations this reads.
    assert!(read("int f() { int a[3]; return 1; }").is_none());
    // Nor is a string literal an expression this reads.
    assert!(read("int f() { return \"s\"; }").is_none());
    // A definition returning a function pointer has no signature of its own.
    assert!(read("int (*f(int a))(int x) { return 0; }").is_none());
    // A tree whose root is not a translation unit.
    let tree = parse_source("int f() { return 1; }").unwrap();
    assert!(try_build_translation_unit(&tree.children[0], "int f() { return 1; }").is_none());
}

#[test]
fn expressions_clone_to_equal_trees() {
    let unit = read("int f() { return g(1 * 2, h()); }").unwrap();
    let copy = unit.clone();
    assert_eq!(format!("{:?}", copy), format!("{:?}", unit));
}
