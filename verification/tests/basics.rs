use csearch_core::cast::{
    dump, dump_with_spans, print, Compound, ExprKind, Expression, Function, Identifier, Item,
    ItemKind, Statement, StmtKind, TranslationUnit,
};
use csearch_core::lower::lower_source;
use csearch_core::normalize::{normalize, passes, Pass};
use csearch_core::span::{Span, SpanTree};
use csearch_core::syntax::parse_source;
use csearch_core::text::{parse_radix, push_decimal_i64, push_decimal_usize};

fn lower(src: &str) -> TranslationUnit {
    lower_source(src).expect("parse")
}

#[test]
fn span_slice_takes_the_byte_range() {
    let src = "int é = 1;";
    assert_eq!(Span::new(0, 3).slice(src), "int");
    assert_eq!(Span::new(4, 6).slice(src), "é");
    assert_eq!(Span::new(6, 6).slice(src), "");
}

#[test]
fn span_trees_hold_their_children() {
    let leaf = SpanTree::leaf(Span::new(1, 2));
    assert!(leaf.children.is_empty());
    let node = SpanTree::node(Span::new(0, 3), vec![leaf.clone(), leaf]);
    assert_eq!(node.span, Span::new(0, 3));
    assert_eq!(node.children.len(), 2);
    assert_eq!(node.children[1].span, Span::new(1, 2));
}

#[test]
fn radix_parsing_reads_each_base() {
    assert_eq!(parse_radix(b"1f", 16), Some(31));
    assert_eq!(parse_radix(b"FF", 16), Some(255));
    assert_eq!(parse_radix(b"17", 8), Some(15));
    assert_eq!(parse_radix(b"101", 2), Some(5));
    assert_eq!(parse_radix(b"9223372036854775807", 10), Some(i64::MAX));
}

#[test]
fn radix_parsing_rejects_what_is_not_a_number() {
    assert_eq!(parse_radix(b"", 10), None);
    assert_eq!(parse_radix(b"19", 8), None);
    assert_eq!(parse_radix(b"1.5", 10), None);
    assert_eq!(parse_radix(b"9223372036854775808", 10), None);
}

#[test]
fn decimals_are_written_with_their_sign() {
    let mut out = String::from("x=");
    push_decimal_i64(&mut out, -120);
    assert_eq!(out, "x=-120");
    let mut out = String::new();
    push_decimal_i64(&mut out, i64::MIN);
    assert_eq!(out, "-9223372036854775808");
    let mut out = String::new();
    push_decimal_usize(&mut out, 0);
    assert_eq!(out, "0");
}

#[test]
fn the_parser_gives_a_translation_unit() {
    let tree = parse_source("int f(void) { return 1; }").expect("a tree");
    assert_eq!(tree.kind, "translation_unit");
    assert_eq!(tree.start_byte, 0);
    assert_eq!(tree.end_byte, 25);
    assert_eq!(tree.named_child_count(), 1);
    let function = &tree.children[tree.named_child_index().unwrap()];
    assert_eq!(function.kind, "function_definition");
    let body = function.child_index_by_field_name("body").unwrap();
    assert_eq!(function.children[body].kind, "compound_statement");
    assert!(function.child_index_by_field_name("value").is_none());
}

#[test]
fn lowering_reads_identifiers_from_the_source_bytes() {
    let unit = lower("int größe(int b) { return b; }");
    let names: Vec<_> = unit.functions().iter().map(|f| f.name.0.clone()).collect();
    assert_eq!(names, ["größe"]);
}

#[test]
fn every_top_level_construct_is_an_item() {
    let unit = lower("int a; int f(void) { return 1; } struct S { int x; };");
    assert_eq!(unit.items.len(), 3);
    assert_eq!(unit.items[1].span, Span::new(7, 32));
}

#[test]
fn only_spans_separate_the_two_dumps() {
    let a = lower("int f(int x){return x*2;}");
    let b = lower("int  f( int x )\n{ return x * 2 ; }");
    assert_eq!(dump(&a), dump(&b));
    assert_ne!(dump_with_spans(&a), dump_with_spans(&b));
}

#[test]
fn passes_are_listed_in_order() {
    let names: Vec<_> = passes().iter().map(|(name, _)| *name).collect();
    assert_eq!(
        names,
        ["split_declarations", "desugar_compound_assign", "desugar_incdec", "for_to_while", "flatten_blocks"]
    );
    assert_eq!(passes()[3].1, Pass::ForToWhile);
    assert_eq!(Pass::FlattenBlocks.name(), "flatten_blocks");
}

#[test]
fn normalize_leaves_a_printable_unit_printable() {
    let unit = lower("int f(int a) { int b = a + 1; return g(b); }");
    let before = print(&unit).unwrap();
    assert_eq!(print(&normalize(unit)).unwrap(), before);
}

#[test]
fn each_spanned_dump_line_is_the_plain_line_with_a_span() {
    let unit = lower("int f(int a) { int b = a * 2; g(b); return b; }");
    let plain = dump(&unit);
    let spanned = dump_with_spans(&unit);
    let plain_lines: Vec<_> = plain.lines().collect();
    let spanned_lines: Vec<_> = spanned.lines().collect();
    assert_eq!(plain_lines.len(), spanned_lines.len());
    for (p, s) in plain_lines.iter().zip(&spanned_lines) {
        let rest = s.strip_prefix(p).expect("the plain line comes first");
        let (start, end) = rest.strip_prefix(" @").unwrap().split_once("..").unwrap();
        assert!(start.parse::<usize>().unwrap() <= end.parse::<usize>().unwrap());
    }
}

#[test]
fn comparisons_are_not_binary_operations_lowering_models() {
    let unit = lower("int f(int a, int b) { return a < b; }");
    let text = dump(&unit);
    assert!(text.contains("Unsupported expression binary_expression"));
}

#[test]
fn one_declaration_per_declarator() {
    let unit = lower("int f(void) { int a, b = 2; return b; }");
    assert_eq!(
        dump(&unit),
        "TranslationUnit\n└─ Function f params: []\n   └─ Compound\n      ├─ Declaration a\n      ├─ Declaration b\n      │  └─ Int 2\n      └─ Return\n         └─ Variable b\n"
    );
}

#[test]
fn strings_dump_escaped_on_one_line() {
    let span = Span::new(0, 0);
    let unit = TranslationUnit {
        items: vec![Item::new(
            ItemKind::Function(Function {
                name: Identifier("f".to_string()),
                params: Vec::new(),
                body: Compound {
                    statements: vec![Statement::new(
                        StmtKind::ExprStmt(Expression::new(
                            ExprKind::String("q\"\\\t\r\nz".to_string()),
                            span,
                        )),
                        span,
                    )],
                    span,
                },
                span,
            }),
            span,
        )],
        span,
    };
    let text = dump(&unit);
    assert_eq!(text.lines().count(), 5);
    assert!(text.contains("String \"q\\\"\\\\\\t\\r\\nz\"\n"));
    assert!(!text.contains('\t') && !text.contains('\r'));
}
