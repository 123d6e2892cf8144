use csearch_core::cast::{
    dump, dump_with_spans, Compound, ExprKind, Expression, Function, Identifier, Item, ItemKind,
    Statement, StmtKind, TranslationUnit,
};
use csearch_core::lower::lower_source;
use csearch_core::span::Span;

fn lower(src: &str) -> TranslationUnit {
    lower_source(src).expect("parse")
}

fn dumped(src: &str) -> String {
    dump(&lower(src))
}

#[test]
fn dumps_a_whole_function() {
    assert_eq!(
        dumped("int f(int a, int b) { int c = a + b; c = g(c, 1); return c; }"),
        "\
TranslationUnit
└─ Function f params: [a, b]
   └─ Compound
      ├─ Declaration c
      │  └─ BinaryOp Add
      │     ├─ Variable a
      │     └─ Variable b
      ├─ Assign
      │  ├─ Variable c
      │  └─ Call g
      │     ├─ Variable c
      │     └─ Int 1
      └─ Return
         └─ Variable c
",
    );
}

/// Nesting on the left and on the right, so both the `│` trunk and the
/// blank gap under a last child are exercised.
#[test]
fn nested_expressions_indent_under_their_parent() {
    assert_eq!(
        dumped("int f(void) { return (1 - 2) * (3 + 4); }"),
        "\
TranslationUnit
└─ Function f params: []
   └─ Compound
      └─ Return
         └─ BinaryOp Mul
            ├─ BinaryOp Sub
            │  ├─ Int 1
            │  └─ Int 2
            └─ BinaryOp Add
               ├─ Int 3
               └─ Int 4
",
    );
}

/// Nodes whose optional child is absent print as leaves, not as a parent
/// with an empty branch.
#[test]
fn absent_optional_children_leave_no_branch() {
    assert_eq!(
        dumped("int f(void) { int a; return; }"),
        "\
TranslationUnit
└─ Function f params: []
   └─ Compound
      ├─ Declaration a
      └─ Return
",
    );
}

/// Unlike `print`, which errors on an unmodelled construct, the dump shows
/// it — seeing where lowering gave up is the point of reading a dump.
#[test]
fn unsupported_nodes_are_shown_not_an_error() {
    assert_eq!(
        dumped("int f(void) { while (1) { } return 1; }"),
        "\
TranslationUnit
└─ Function f params: []
   └─ Compound
      ├─ Unsupported statement while_statement
      └─ Return
         └─ Int 1
",
    );
}

/// A literal newline in a string would otherwise be read as another line
/// of the tree.
///
/// Built by hand: `lower` does not produce `ExprKind::String` yet — string
/// literals still become `Unsupported` — so there is no source text that
/// reaches this branch.
#[test]
fn string_literals_are_escaped() {
    let span = Span::new(0, 0);
    let unit = TranslationUnit {
        items: vec![Item::new(
            ItemKind::Function(Function {
                name: Identifier("f".to_string()),
                params: Vec::new(),
                body: Compound {
                    statements: vec![Statement::new(
                        StmtKind::Return(Some(Expression::new(
                            ExprKind::String("a\nb".to_string()),
                            span,
                        ))),
                        span,
                    )],
                    span,
                },
                span,
            }),
            span,
        )],
        span,
    };

    assert_eq!(
        dump(&unit),
        "\
TranslationUnit
└─ Function f params: []
   └─ Compound
      └─ Return
         └─ String \"a\\nb\"
",
    );
}

/// The property the round-trip test will lean on: same tree, different
/// positions, identical dump.
#[test]
fn dump_ignores_spans_but_dump_with_spans_does_not() {
    let tight = lower("int f(void){return 1+2;}");
    let loose = lower("int f ( void )\n{\n    return 1 + 2;\n}\n");

    assert_eq!(dump(&tight), dump(&loose));
    assert_ne!(dump_with_spans(&tight), dump_with_spans(&loose));
}

#[test]
fn spans_annotate_every_node() {
    assert_eq!(
        dump_with_spans(&lower("int f(void) { return 1; }")),
        "\
TranslationUnit @0..25
└─ Function f params: [] @0..25
   └─ Compound @12..25
      └─ Return @14..23
         └─ Int 1 @21..22
",
    );
}

#[test]
fn an_empty_unit_is_a_lone_root() {
    assert_eq!(dumped(""), "TranslationUnit\n");
}

/// Top-level constructs lowering does not model appear in the dump, in
/// source order, alongside the functions.
#[test]
fn unsupported_items_appear_beside_functions() {
    assert_eq!(
        dumped("typedef int myint;\nint x = 1;\nint f(void) { return 1; }"),
        "\
TranslationUnit
├─ Unsupported item type_definition
├─ Unsupported item declaration
└─ Function f params: []
   └─ Compound
      └─ Return
         └─ Int 1
",
    );
}
