//! Syntax tree → CAst.
//!
//! Translation only: no semantic rewriting happens here. Lowering is total:
//! whatever it cannot model becomes an `Unsupported` node carrying the syntax
//! node kind, never a silent drop and never a panic.
use vstd::prelude::*;
use vstd::string::*;
use vstd::utf8::*;

use crate::cast::{
    expr_kind_model, function_model, idents_model, item_kind_model, item_model, items_model,
    lemma_exprs_model_push, stmt_kind_model, stmt_kinds_model, stmt_model, stmts_model, BinOp,
    Compound, ExprKind, Expression, Function, Identifier, Item, ItemKind, SpecCompound,
    SpecExprKind, SpecExpression, SpecFunction, SpecItem, SpecItemKind, SpecStatement,
    SpecStmtKind, SpecTranslationUnit, Statement, StmtKind, TranslationUnit, exprs_model,
};
use crate::cast::print::op_symbol_of;
use crate::span::Span;
use crate::syntax::{
    c_syntax_tree, field_index, has_field, lemma_child_within, lemma_field_index,
    lemma_named_index, named_count, named_count_upto, named_index, parse_source, within,
    SyntaxNode,
};
use crate::text::{
    decode_bytes, decode_or_empty, digit_value, digits_value, from_str_radix, lemma_encode_decode_or_empty, parse_radix,
    str_eq, string_bytes, valid_or_empty,
};

verus! {

// ===========================================================================
// What lowering computes
// ===========================================================================

pub open spec fn span_of(n: SyntaxNode) -> Span {
    Span { start: n.start_byte, end: n.end_byte }
}

/// The source bytes a node covers.
pub open spec fn node_bytes(src: Seq<u8>, n: SyntaxNode) -> Seq<u8> {
    src.subrange(n.start_byte as int, n.end_byte as int)
}

/// The text of a node: its bytes decoded as UTF-8, or empty when they are not
/// valid UTF-8.
pub open spec fn node_text(src: Seq<u8>, n: SyntaxNode) -> Seq<char> {
    decode_or_empty(node_bytes(src, n))
}

pub open spec fn child(n: SyntaxNode, i: int) -> SyntaxNode {
    n.children@[i]
}

/// One more level of pointer, counted without wrapping.
pub open spec fn deeper(depth: usize) -> usize {
    if depth < usize::MAX {
        (depth + 1) as usize
    } else {
        depth
    }
}

/// The identifier a (possibly nested) declarator names, with the number of
/// pointer levels stripped on the way down.
pub open spec fn declarator_name(src: Seq<u8>, n: SyntaxNode) -> Option<(Seq<char>, usize)>
    decreases n,
{
    if n.kind@ == "identifier"@ {
        Some((node_text(src, n), 0))
    } else if n.kind@ == "pointer_declarator"@ {
        match field_index(n, "declarator"@) {
            Some(i) => {
                proof {
                    lemma_field_index(n, "declarator"@);
                }
                match declarator_name(src, child(n, i)) {
                    Some((name, depth)) => Some((name, deeper(depth))),
                    None => None,
                }
            },
            None => None,
        }
    } else if n.kind@ == "array_declarator"@ || n.kind@ == "function_declarator"@ {
        match field_index(n, "declarator"@) {
            Some(i) => {
                proof {
                    lemma_field_index(n, "declarator"@);
                }
                declarator_name(src, child(n, i))
            },
            None => None,
        }
    } else if n.kind@ == "parenthesized_declarator"@ {
        match named_index(n) {
            Some(i) => {
                proof {
                    lemma_named_index(n);
                }
                declarator_name(src, child(n, i))
            },
            None => None,
        }
    } else {
        None
    }
}

/// C integer-suffix letters: `u`, `U`, `l`, `L`.
pub open spec fn is_suffix_letter(b: u8) -> bool {
    b == 117 || b == 85 || b == 108 || b == 76
}

/// The text with every trailing suffix letter removed.
pub open spec fn trim_suffix_letters(t: Seq<u8>) -> Seq<u8>
    decreases t.len(),
{
    if t.len() > 0 && is_suffix_letter(t[t.len() - 1]) {
        trim_suffix_letters(t.subrange(0, t.len() - 1))
    } else {
        t
    }
}

/// The value of a C integer literal: `0x`/`0X` hexadecimal, `0b`/`0B` binary,
/// a leading `0` octal (unless the text reads as a floating-point constant),
/// decimal otherwise; `None` for anything that is not an `i64` written that way.
pub open spec fn c_integer(text: Seq<u8>) -> Option<i64> {
    let t = trim_suffix_letters(text);
    if t.len() >= 2 && t[0] == 48 && (t[1] == 120 || t[1] == 88) {
        from_str_radix(t.subrange(2, t.len() as int), 16)
    } else if t.len() >= 2 && t[0] == 48 && (t[1] == 98 || t[1] == 66) {
        from_str_radix(t.subrange(2, t.len() as int), 2)
    } else if t.len() > 1 && t[0] == 48 && !t.contains(46) && !t.contains(101) && !t.contains(
        69,
    ) {
        from_str_radix(t.subrange(1, t.len() as int), 8)
    } else {
        from_str_radix(t, 10)
    }
}

pub open spec fn number_value(src: Seq<u8>, n: SyntaxNode) -> Option<i64> {
    c_integer(valid_or_empty(node_bytes(src, n)))
}

pub open spec fn operation(src: Seq<u8>, n: SyntaxNode) -> Option<BinOp> {
    match field_index(n, "operator"@) {
        Some(i) => {
            let t = node_text(src, child(n, i));
            if t == "+"@ {
                Some(BinOp::Add)
            } else if t == "-"@ {
                Some(BinOp::Sub)
            } else if t == "*"@ {
                Some(BinOp::Mul)
            } else if t == "/"@ {
                Some(BinOp::Div)
            } else {
                None
            }
        },
        None => None,
    }
}

pub open spec fn lower_expr(src: Seq<u8>, n: SyntaxNode) -> SpecExpression
    decreases n, 2int,
{
    SpecExpression {
        kind: match lower_expr_kind(src, n) {
            Some(kind) => kind,
            None => SpecExprKind::Unsupported { kind: n.kind@ },
        },
        span: span_of(n),
    }
}

/// `None` means "not modelled"; [`lower_expr`] turns it into `Unsupported`.
pub open spec fn lower_expr_kind(src: Seq<u8>, n: SyntaxNode) -> Option<SpecExprKind>
    decreases n, 1int,
{
    proof {
        lemma_named_index(n);
        lemma_field_index(n, "left"@);
        lemma_field_index(n, "right"@);
        lemma_field_index(n, "arguments"@);
    }
    if n.kind@ == "identifier"@ {
        Some(SpecExprKind::Variable(node_text(src, n)))
    } else if n.kind@ == "parenthesized_expression"@ {
        match named_index(n) {
            Some(i) => Some(lower_expr(src, child(n, i)).kind),
            None => None,
        }
    } else if n.kind@ == "number_literal"@ {
        match number_value(src, n) {
            Some(v) => Some(SpecExprKind::Int(v)),
            None => None,
        }
    } else if n.kind@ == "binary_expression"@ {
        match (field_index(n, "left"@), field_index(n, "right"@), operation(src, n)) {
            (Some(l), Some(r), Some(op)) => Some(
                SpecExprKind::BinaryOp {
                    op,
                    lhs: Box::new(lower_expr(src, child(n, l))),
                    rhs: Box::new(lower_expr(src, child(n, r))),
                },
            ),
            _ => None,
        }
    } else if n.kind@ == "call_expression"@ {
        match field_index(n, "function"@) {
            Some(f) => if child(n, f).kind@ != "identifier"@ {
                None
            } else {
                Some(
                    SpecExprKind::Call {
                        callee: node_text(src, child(n, f)),
                        args: match field_index(n, "arguments"@) {
                            Some(a) => lower_args_upto(
                                src,
                                child(n, a),
                                child(n, a).children@.len() as int,
                            ),
                            None => Seq::empty(),
                        },
                    },
                )
            },
            None => None,
        }
    } else {
        None
    }
}

/// The lowered named children among the first `k` children of an argument list.
pub open spec fn lower_args_upto(src: Seq<u8>, list: SyntaxNode, k: int) -> Seq<SpecExpression>
    decreases list, k,
{
    if k <= 0 || k > list.children@.len() {
        Seq::empty()
    } else {
        let rest = lower_args_upto(src, list, k - 1);
        if child(list, k - 1).is_named {
            rest.push(lower_expr(src, child(list, k - 1)))
        } else {
            rest
        }
    }
}

/// A declarator of a declaration: `a`, `a = 1`, `*p`, `a[10]`, ...
pub open spec fn lower_declarator(src: Seq<u8>, d: SyntaxNode) -> Option<SpecStmtKind> {
    if d.kind@ == "init_declarator"@ {
        match (field_index(d, "declarator"@), field_index(d, "value"@)) {
            (Some(x), Some(v)) => match declarator_name(src, child(d, x)) {
                Some((name, _)) => Some(
                    SpecStmtKind::Declaration {
                        name,
                        value: Some(lower_expr(src, child(d, v))),
                    },
                ),
                None => None,
            },
            _ => None,
        }
    } else {
        match declarator_name(src, d) {
            Some((name, _)) => Some(SpecStmtKind::Declaration { name, value: None }),
            None => None,
        }
    }
}

/// One statement kind per `declarator` field among the first `k` children.
pub open spec fn declaration_kinds_upto(src: Seq<u8>, n: SyntaxNode, k: int) -> Seq<SpecStmtKind>
    decreases k,
{
    if k <= 0 || k > n.children@.len() {
        Seq::empty()
    } else {
        let rest = declaration_kinds_upto(src, n, k - 1);
        let d = child(n, k - 1);
        if has_field(d, "declarator"@) {
            rest.push(
                match lower_declarator(src, d) {
                    Some(kind) => kind,
                    None => SpecStmtKind::Unsupported { kind: d.kind@ },
                },
            )
        } else {
            rest
        }
    }
}

pub open spec fn with_span(kinds: Seq<SpecStmtKind>, span: Span) -> Seq<SpecStatement> {
    kinds.map_values(|kind: SpecStmtKind| SpecStatement { kind, span })
}

pub open spec fn expression_statement_kind(src: Seq<u8>, e: SyntaxNode) -> Option<SpecStmtKind> {
    if e.kind@ == "assignment_expression"@ {
        match (field_index(e, "left"@), field_index(e, "right"@), field_index(e, "operator"@)) {
            (Some(l), Some(r), Some(o)) => if node_text(src, child(e, o)) != "="@ {
                None
            } else {
                Some(
                    SpecStmtKind::Assign {
                        lhs: lower_expr(src, child(e, l)),
                        rhs: lower_expr(src, child(e, r)),
                    },
                )
            },
            _ => None,
        }
    } else {
        Some(SpecStmtKind::ExprStmt(lower_expr(src, e)))
    }
}

pub open spec fn lower_expression_statement(src: Seq<u8>, n: SyntaxNode) -> SpecStatement {
    SpecStatement {
        kind: match named_index(n) {
            None => SpecStmtKind::Unsupported { kind: n.kind@ },
            Some(i) => match expression_statement_kind(src, child(n, i)) {
                Some(kind) => kind,
                None => SpecStmtKind::Unsupported { kind: child(n, i).kind@ },
            },
        },
        span: span_of(n),
    }
}

/// The statements one child of a function body lowers to.
pub open spec fn lower_statement(src: Seq<u8>, n: SyntaxNode) -> Seq<SpecStatement> {
    let span = span_of(n);
    if n.kind@ == "declaration"@ {
        with_span(declaration_kinds_upto(src, n, n.children@.len() as int), span)
    } else if n.kind@ == "expression_statement"@ {
        seq![lower_expression_statement(src, n)]
    } else if n.kind@ == "return_statement"@ {
        seq![
            SpecStatement {
                kind: SpecStmtKind::Return(
                    match named_index(n) {
                        Some(i) => Some(lower_expr(src, child(n, i))),
                        None => None,
                    },
                ),
                span,
            },
        ]
    } else {
        seq![SpecStatement { kind: SpecStmtKind::Unsupported { kind: n.kind@ }, span }]
    }
}

/// The statements of the named children among the first `k` children of a body.
pub open spec fn body_statements_upto(src: Seq<u8>, body: SyntaxNode, k: int) -> Seq<
    SpecStatement,
>
    decreases k,
{
    if k <= 0 || k > body.children@.len() {
        Seq::empty()
    } else {
        let rest = body_statements_upto(src, body, k - 1);
        if child(body, k - 1).is_named {
            rest + lower_statement(src, child(body, k - 1))
        } else {
            rest
        }
    }
}

/// A parameter list that is exactly `(void)`.
pub open spec fn is_void_parameter_list(src: Seq<u8>, list: SyntaxNode) -> bool {
    match named_index(list) {
        None => false,
        Some(i) => {
            let only = child(list, i);
            if named_count(list) > 1 || only.kind@ != "parameter_declaration"@ {
                false
            } else {
                field_index(only, "declarator"@) is None && match field_index(only, "type"@) {
                    Some(t) => node_text(src, child(only, t)) == "void"@,
                    None => false,
                }
            }
        },
    }
}

/// The parameter names among the first `k` children of a parameter list;
/// `None` as soon as one parameter declaration has no name to give.
pub open spec fn parameter_names_upto(src: Seq<u8>, list: SyntaxNode, k: int) -> Option<
    Seq<Seq<char>>,
>
    decreases k,
{
    if k <= 0 || k > list.children@.len() {
        Some(Seq::empty())
    } else {
        match parameter_names_upto(src, list, k - 1) {
            None => None,
            Some(names) => {
                let c = child(list, k - 1);
                if !c.is_named || c.kind@ != "parameter_declaration"@ {
                    Some(names)
                } else {
                    match field_index(c, "declarator"@) {
                        Some(x) => match declarator_name(src, child(c, x)) {
                            Some((name, _)) => Some(names.push(name)),
                            None => None,
                        },
                        None => None,
                    }
                }
            },
        }
    }
}

/// Whether the path [`declarator_name`] follows down to a name passes
/// through a `function_declarator`, as in the `(*f(void))` of
/// `int (*f(void))(int)`.
pub open spec fn name_under_function_declarator(n: SyntaxNode) -> bool
    decreases n,
{
    if n.kind@ == "function_declarator"@ {
        true
    } else if n.kind@ == "pointer_declarator"@ || n.kind@ == "array_declarator"@ {
        match field_index(n, "declarator"@) {
            Some(i) => {
                proof {
                    lemma_field_index(n, "declarator"@);
                }
                name_under_function_declarator(child(n, i))
            },
            None => false,
        }
    } else if n.kind@ == "parenthesized_declarator"@ {
        match named_index(n) {
            Some(i) => {
                proof {
                    lemma_named_index(n);
                }
                name_under_function_declarator(child(n, i))
            },
            None => false,
        }
    } else {
        false
    }
}

/// The name and parameter names of a function declarator. There are none
/// when the name sits under a further function declarator: the outer
/// parameter list then belongs to the function pointer the definition
/// returns, not to the function it defines.
pub open spec fn function_signature(src: Seq<u8>, d: SyntaxNode) -> Option<
    (Seq<char>, Seq<Seq<char>>),
> {
    if d.kind@ != "function_declarator"@ {
        None
    } else {
        match field_index(d, "declarator"@) {
            None => None,
            Some(x) => if name_under_function_declarator(child(d, x)) {
                None
            } else {
                match declarator_name(src, child(d, x)) {
                None => None,
                Some((name, _)) => {
                    let params = match field_index(d, "parameters"@) {
                        Some(p) => if is_void_parameter_list(src, child(d, p)) {
                            Some(Seq::empty())
                        } else {
                            parameter_names_upto(
                                src,
                                child(d, p),
                                child(d, p).children@.len() as int,
                            )
                        },
                        None => Some(Seq::empty()),
                    };
                    match params {
                        Some(params) => Some((name, params)),
                        None => None,
                    }
                },
            }
            },
        }
    }
}

pub open spec fn lower_function(src: Seq<u8>, n: SyntaxNode) -> Option<SpecFunction> {
    match field_index(n, "declarator"@) {
        None => None,
        Some(d) => match function_signature(src, child(n, d)) {
            None => None,
            Some((name, params)) => match field_index(n, "body"@) {
                None => None,
                Some(b) => {
                    let body = child(n, b);
                    Some(
                        SpecFunction {
                            name,
                            params,
                            body: SpecCompound {
                                statements: body_statements_upto(
                                    src,
                                    body,
                                    body.children@.len() as int,
                                ),
                                span: span_of(body),
                            },
                            span: span_of(n),
                        },
                    )
                },
            },
        },
    }
}

pub open spec fn lower_item(src: Seq<u8>, c: SyntaxNode) -> SpecItem {
    SpecItem {
        kind: if c.kind@ == "function_definition"@ {
            match lower_function(src, c) {
                Some(f) => SpecItemKind::Function(f),
                None => SpecItemKind::Unsupported { kind: c.kind@ },
            }
        } else {
            SpecItemKind::Unsupported { kind: c.kind@ }
        },
        span: span_of(c),
    }
}

/// One item per named child among the first `k` children of the root.
pub open spec fn lower_items_upto(src: Seq<u8>, root: SyntaxNode, k: int) -> Seq<SpecItem>
    decreases k,
{
    if k <= 0 || k > root.children@.len() {
        Seq::empty()
    } else {
        let rest = lower_items_upto(src, root, k - 1);
        if child(root, k - 1).is_named {
            rest.push(lower_item(src, child(root, k - 1)))
        } else {
            rest
        }
    }
}

/// The CAst of the syntax tree `root` of the source bytes `src`.
pub open spec fn lower_unit(src: Seq<u8>, root: SyntaxNode) -> SpecTranslationUnit {
    SpecTranslationUnit {
        items: lower_items_upto(src, root, root.children@.len() as int),
        span: span_of(root),
    }
}

/// What lowering needs of a tree: a `translation_unit` root whose byte ranges
/// all lie within the source.
pub open spec fn lowerable(src: Seq<u8>, root: SyntaxNode) -> bool {
    root.kind@ == "translation_unit"@ && within(root, src.len())
}

// ===========================================================================
// Nothing at the top level is dropped
// ===========================================================================

/// The named children of `n`, in order.
pub open spec fn named_children(n: SyntaxNode) -> Seq<SyntaxNode> {
    n.children@.filter(|c: SyntaxNode| c.is_named)
}

proof fn lemma_items_upto_named(src: Seq<u8>, root: SyntaxNode, k: int)
    requires
        0 <= k <= root.children@.len(),
    ensures
        lower_items_upto(src, root, k) == root.children@.subrange(0, k).filter(
            |c: SyntaxNode| c.is_named,
        ).map_values(|c: SyntaxNode| lower_item(src, c)),
    decreases k,
{
    let pred = |c: SyntaxNode| c.is_named;
    let f = |c: SyntaxNode| lower_item(src, c);
    let upto = root.children@.subrange(0, k);
    if k == 0 {
        reveal(Seq::filter);
        assert(upto.filter(pred) =~= Seq::<SyntaxNode>::empty());
        assert(upto.filter(pred).map_values(f) =~= Seq::<SpecItem>::empty());
    } else {
        lemma_items_upto_named(src, root, k - 1);
        let before = root.children@.subrange(0, k - 1);
        assert(upto.drop_last() =~= before);
        reveal(Seq::filter);
        let last = child(root, k - 1);
        assert(upto.last() == last);
        if last.is_named {
            assert(upto.filter(pred) == before.filter(pred).push(last));
            assert(before.filter(pred).push(last).map_values(f) =~= before.filter(pred).map_values(
                f,
            ).push(f(last)));
        } else {
            assert(upto.filter(pred) == before.filter(pred));
        }
    }
}

/// Lowering keeps every top-level construct: the unit has one item per named
/// child of the root, in source order, each lowered on its own, so a
/// construct that is not a function becomes an `Unsupported` item rather than
/// disappearing.
pub proof fn lemma_lowering_keeps_every_top_level_construct(src: Seq<u8>, root: SyntaxNode)
    ensures
        lower_unit(src, root).items == named_children(root).map_values(
            |c: SyntaxNode| lower_item(src, c),
        ),
        lower_unit(src, root).items.len() == named_children(root).len(),
        forall|i: int|
            0 <= i < named_children(root).len() ==> (#[trigger] lower_unit(src, root).items[i]).span
                == span_of(named_children(root)[i]),
{
    lemma_items_upto_named(src, root, root.children@.len() as int);
    assert(root.children@.subrange(0, root.children@.len() as int) =~= root.children@);
}

// ===========================================================================
// What the readers of single nodes give
// ===========================================================================

/// The operator of a binary expression is read back exactly as the printer
/// writes it: `operation` gives an operator whose printed symbol is the
/// text of the `operator` field, and gives none exactly when there is no
/// such field or its text is none of `+`, `-`, `*`, `/` (so `a < b` is not an
/// operation lowering models).
pub proof fn lemma_operation_reads_printed_symbols(src: Seq<u8>, n: SyntaxNode)
    ensures
        operation(src, n) matches Some(op) ==> field_index(n, "operator"@) matches Some(i)
            && node_text(src, child(n, i)) == op_symbol_of(op),
        operation(src, n) is None <==> match field_index(n, "operator"@) {
            Some(i) => {
                let t = node_text(src, child(n, i));
                t != "+"@ && t != "-"@ && t != "*"@ && t != "/"@
            },
            None => true,
        },
{
}

/// Every named child of a parameter list is a parameter declaration whose
/// `declarator` names an identifier, as in `(int a, void *p)`.
pub open spec fn all_parameters_named(src: Seq<u8>, list: SyntaxNode) -> bool {
    forall|i: int|
        0 <= i < list.children@.len() && (#[trigger] list.children@[i]).is_named ==> {
            let c = list.children@[i];
            &&& c.kind@ == "parameter_declaration"@
            &&& field_index(c, "declarator"@) matches Some(x) && declarator_name(
                src,
                child(c, x),
            ) is Some
        }
}

/// Only a lone parameter declaration without a declarator can make a `(void)`
/// list: `(void *p)` declares a parameter and is no such list.
pub proof fn lemma_void_list_declares_nothing(src: Seq<u8>, list: SyntaxNode)
    ensures
        is_void_parameter_list(src, list) ==> (named_count(list) <= 1 && (named_index(
            list,
        ) matches Some(i) && child(list, i).kind@ == "parameter_declaration"@ && field_index(
            child(list, i),
            "declarator"@,
        ) is None)),
        all_parameters_named(src, list) ==> !is_void_parameter_list(src, list),
{
    lemma_named_index(list);
}

proof fn lemma_parameter_names_keep_arity(src: Seq<u8>, list: SyntaxNode, k: int)
    requires
        0 <= k <= list.children@.len(),
        all_parameters_named(src, list),
    ensures
        parameter_names_upto(src, list, k) matches Some(names) && names.len() == named_count_upto(
            list.children@,
            k,
        ),
    decreases k,
{
    if k > 0 {
        lemma_parameter_names_keep_arity(src, list, k - 1);
        let c = child(list, k - 1);
        if c.is_named {
            assert(list.children@[k - 1] == c);
        }
    }
}

/// Lowering keeps a function's arity: where every parameter declaration
/// names its parameter, the definition's signature has exactly one
/// parameter per named child of its parameter list, `(void *p)` included.
pub proof fn lemma_named_parameters_keep_arity(src: Seq<u8>, d: SyntaxNode)
    requires
        d.kind@ == "function_declarator"@,
        field_index(d, "declarator"@) matches Some(x) && !name_under_function_declarator(
            child(d, x),
        ) && declarator_name(src, child(d, x)) is Some,
        field_index(d, "parameters"@) matches Some(p) && all_parameters_named(src, child(d, p)),
    ensures
        function_signature(src, d) matches Some((name, params)) && params.len() == named_count(
            child(d, field_index(d, "parameters"@)->0),
        ),
{
    let list = child(d, field_index(d, "parameters"@)->0);
    lemma_void_list_declares_nothing(src, list);
    lemma_parameter_names_keep_arity(src, list, list.children@.len() as int);
}

/// Every pointer declarator on the way down to the name adds one pointer
/// level (short of `usize::MAX`); array, function and parenthesized
/// declarators pass the name and level of what they wrap through unchanged.
pub proof fn lemma_declarator_levels(src: Seq<u8>, n: SyntaxNode)
    ensures
        n.kind@ == "identifier"@ ==> declarator_name(src, n) == Some((node_text(src, n), 0usize)),
        n.kind@ == "pointer_declarator"@ ==> match field_index(n, "declarator"@) {
            Some(i) => match declarator_name(src, child(n, i)) {
                Some((name, depth)) => depth < usize::MAX ==> declarator_name(src, n) == Some(
                    (name, (depth + 1) as usize),
                ),
                None => declarator_name(src, n) is None,
            },
            None => declarator_name(src, n) is None,
        },
        (n.kind@ == "array_declarator"@ || n.kind@ == "function_declarator"@) ==> match field_index(
            n,
            "declarator"@,
        ) {
            Some(i) => declarator_name(src, n) == declarator_name(src, child(n, i)),
            None => declarator_name(src, n) is None,
        },
        n.kind@ == "parenthesized_declarator"@ ==> match named_index(n) {
            Some(i) => declarator_name(src, n) == declarator_name(src, child(n, i)),
            None => declarator_name(src, n) is None,
        },
        !(n.kind@ == "identifier"@ || n.kind@ == "pointer_declarator"@ || n.kind@
            == "array_declarator"@ || n.kind@ == "function_declarator"@ || n.kind@
            == "parenthesized_declarator"@) ==> declarator_name(src, n) is None,
{
    reveal_strlit("identifier");
    reveal_strlit("pointer_declarator");
    reveal_strlit("array_declarator");
    reveal_strlit("function_declarator");
    reveal_strlit("parenthesized_declarator");
    // The five kinds differ in length, which tells them apart.
    assert("identifier"@.len() == 10);
    assert("pointer_declarator"@.len() == 18);
    assert("array_declarator"@.len() == 16);
    assert("function_declarator"@.len() == 19);
    assert("parenthesized_declarator"@.len() == 24);
    lemma_field_index(n, "declarator"@);
    lemma_named_index(n);
}

proof fn lemma_point_is_no_digit(ds: Seq<u8>, radix: nat)
    requires
        radix <= 36,
        ds.contains(46),
    ensures
        digits_value(ds, radix) is None,
    decreases ds.len(),
{
    let j = choose|j: int| 0 <= j < ds.len() && ds[j] == 46;
    assert(digit_value(46, radix) is None);
    if j < ds.len() - 1 {
        assert(ds.drop_last()[j] == 46);
        lemma_point_is_no_digit(ds.drop_last(), radix);
    }
}

proof fn lemma_point_is_no_number(s: Seq<u8>, radix: nat)
    requires
        radix <= 36,
        s.contains(46),
    ensures
        from_str_radix(s, radix) is None,
{
    if s.len() > 0 && (s[0] == 43 || s[0] == 45) && s.len() > 1 {
        let j = choose|j: int| 0 <= j < s.len() && s[j] == 46;
        assert(s.drop_first()[j - 1] == 46);
        lemma_point_is_no_digit(s.drop_first(), radix);
    } else if s.len() > 0 && !(s[0] == 43 || s[0] == 45) {
        lemma_point_is_no_digit(s, radix);
    }
}

proof fn lemma_trim_keeps_point(t: Seq<u8>)
    requires
        t.contains(46),
    ensures
        trim_suffix_letters(t).contains(46),
    decreases t.len(),
{
    if t.len() > 0 && is_suffix_letter(t[t.len() - 1]) {
        let j = choose|j: int| 0 <= j < t.len() && t[j] == 46;
        assert(j < t.len() - 1);
        assert(t.subrange(0, t.len() - 1)[j] == 46);
        lemma_trim_keeps_point(t.subrange(0, t.len() - 1));
    }
}

/// A literal with a decimal point is never read as an integer, in any radix:
/// `1.5` lowers to `Unsupported`, not to `1` or `0`.
pub proof fn lemma_floating_literals_are_no_integers(text: Seq<u8>)
    requires
        text.contains(46),
    ensures
        c_integer(text) is None,
{
    lemma_trim_keeps_point(text);
    let t = trim_suffix_letters(text);
    let j = choose|j: int| 0 <= j < t.len() && t[j] == 46;
    if t.len() >= 2 && t[0] == 48 && (t[1] == 120 || t[1] == 88 || t[1] == 98 || t[1] == 66) {
        assert(t.subrange(2, t.len() as int)[j - 2] == 46);
        lemma_point_is_no_number(t.subrange(2, t.len() as int), 16);
        lemma_point_is_no_number(t.subrange(2, t.len() as int), 2);
    } else {
        lemma_point_is_no_number(t, 10);
    }
}

/// A declaration lowers to one statement kind per `declarator` child, in
/// order: the declaration of the name the declarator unwraps to (with its
/// initializer for an `init_declarator`), or `Unsupported` with the
/// declarator's kind where it has no name.
pub proof fn lemma_one_statement_per_declarator(src: Seq<u8>, n: SyntaxNode)
    ensures
        declaration_kinds_upto(src, n, n.children@.len() as int) == n.children@.filter(
            |d: SyntaxNode| has_field(d, "declarator"@),
        ).map_values(
            |d: SyntaxNode|
                match lower_declarator(src, d) {
                    Some(kind) => kind,
                    None => SpecStmtKind::Unsupported { kind: d.kind@ },
                },
        ),
{
    lemma_declarations_filtered(src, n, n.children@.len() as int);
    assert(n.children@.subrange(0, n.children@.len() as int) =~= n.children@);
}

proof fn lemma_declarations_filtered(src: Seq<u8>, n: SyntaxNode, k: int)
    requires
        0 <= k <= n.children@.len(),
    ensures
        declaration_kinds_upto(src, n, k) == n.children@.subrange(0, k).filter(
            |d: SyntaxNode| has_field(d, "declarator"@),
        ).map_values(
            |d: SyntaxNode|
                match lower_declarator(src, d) {
                    Some(kind) => kind,
                    None => SpecStmtKind::Unsupported { kind: d.kind@ },
                },
        ),
    decreases k,
{
    let pred = |d: SyntaxNode| has_field(d, "declarator"@);
    let f = |d: SyntaxNode|
        match lower_declarator(src, d) {
            Some(kind) => kind,
            None => SpecStmtKind::Unsupported { kind: d.kind@ },
        };
    let upto = n.children@.subrange(0, k);
    reveal(Seq::filter);
    if k == 0 {
        assert(upto.filter(pred) =~= Seq::<SyntaxNode>::empty());
        assert(upto.filter(pred).map_values(f) =~= Seq::<SpecStmtKind>::empty());
    } else {
        lemma_declarations_filtered(src, n, k - 1);
        let before = n.children@.subrange(0, k - 1);
        assert(upto.drop_last() =~= before);
        let last = child(n, k - 1);
        assert(upto.last() == last);
        if has_field(last, "declarator"@) {
            assert(upto.filter(pred) == before.filter(pred).push(last));
            assert(before.filter(pred).push(last).map_values(f) =~= before.filter(pred).map_values(
                f,
            ).push(f(last)));
        } else {
            assert(upto.filter(pred) == before.filter(pred));
        }
    }
}

// ===========================================================================
// Every span lies in the source
// ===========================================================================

/// An ordered byte range within `len` bytes.
pub open spec fn span_in(span: Span, len: nat) -> bool {
    span.start <= span.end && span.end <= len
}

pub open spec fn expr_spans_in(e: SpecExpression, len: nat) -> bool
    decreases e, 1int,
{
    span_in(e.span, len) && match e.kind {
        SpecExprKind::BinaryOp { lhs, rhs, .. } => expr_spans_in(*lhs, len) && expr_spans_in(
            *rhs,
            len,
        ),
        SpecExprKind::Call { args, .. } => exprs_spans_in(args, len),
        _ => true,
    }
}

pub open spec fn exprs_spans_in(s: Seq<SpecExpression>, len: nat) -> bool
    decreases s, 0int,
{
    s.len() > 0 ==> exprs_spans_in(s.subrange(0, s.len() - 1), len) && expr_spans_in(
        s[s.len() - 1],
        len,
    )
}

pub open spec fn opt_expr_spans_in(e: Option<SpecExpression>, len: nat) -> bool {
    match e {
        Some(e) => expr_spans_in(e, len),
        None => true,
    }
}

pub open spec fn stmt_kind_spans_in(kind: SpecStmtKind, len: nat) -> bool {
    match kind {
        SpecStmtKind::Declaration { value, .. } => opt_expr_spans_in(value, len),
        SpecStmtKind::Assign { lhs, rhs } => expr_spans_in(lhs, len) && expr_spans_in(rhs, len),
        SpecStmtKind::ExprStmt(e) => expr_spans_in(e, len),
        SpecStmtKind::Return(value) => opt_expr_spans_in(value, len),
        SpecStmtKind::Unsupported { .. } => true,
    }
}

pub open spec fn statements_spans_in(s: Seq<SpecStatement>, len: nat) -> bool {
    forall|i: int|
        0 <= i < s.len() ==> span_in(#[trigger] s[i].span, len) && stmt_kind_spans_in(
            s[i].kind,
            len,
        )
}

pub open spec fn item_spans_in(item: SpecItem, len: nat) -> bool {
    span_in(item.span, len) && match item.kind {
        SpecItemKind::Function(f) => span_in(f.span, len) && span_in(f.body.span, len)
            && statements_spans_in(f.body.statements, len),
        SpecItemKind::Unsupported { .. } => true,
    }
}

/// Every node of `u`, from the unit down to each expression, covers an
/// ordered byte range within `len` bytes.
pub open spec fn unit_spans_in(u: SpecTranslationUnit, len: nat) -> bool {
    span_in(u.span, len) && forall|i: int|
        0 <= i < u.items.len() ==> item_spans_in(#[trigger] u.items[i], len)
}

proof fn lemma_expr_spans_in(src: Seq<u8>, n: SyntaxNode, len: nat)
    requires
        within(n, len),
    ensures
        expr_spans_in(lower_expr(src, n), len),
    decreases n, 2int,
{
    lemma_named_index(n);
    lemma_field_index(n, "left"@);
    lemma_field_index(n, "right"@);
    lemma_field_index(n, "arguments"@);
    if n.kind@ == "parenthesized_expression"@ {
        if let Some(i) = named_index(n) {
            lemma_child_within(n, len, i);
            lemma_expr_spans_in(src, child(n, i), len);
        }
    } else if n.kind@ == "binary_expression"@ {
        if let (Some(l), Some(r)) = (field_index(n, "left"@), field_index(n, "right"@)) {
            lemma_child_within(n, len, l);
            lemma_child_within(n, len, r);
            lemma_expr_spans_in(src, child(n, l), len);
            lemma_expr_spans_in(src, child(n, r), len);
        }
    } else if n.kind@ == "call_expression"@ {
        if let Some(a) = field_index(n, "arguments"@) {
            lemma_child_within(n, len, a);
            lemma_args_spans_in(src, child(n, a), child(n, a).children@.len() as int, len);
        } else {
            assert(exprs_spans_in(Seq::<SpecExpression>::empty(), len));
        }
    }
}

proof fn lemma_args_spans_in(src: Seq<u8>, list: SyntaxNode, k: int, len: nat)
    requires
        within(list, len),
    ensures
        exprs_spans_in(lower_args_upto(src, list, k), len),
    decreases list, k,
{
    if 0 < k <= list.children@.len() {
        lemma_args_spans_in(src, list, k - 1, len);
        let rest = lower_args_upto(src, list, k - 1);
        if child(list, k - 1).is_named {
            lemma_child_within(list, len, k - 1);
            lemma_expr_spans_in(src, child(list, k - 1), len);
            let e = lower_expr(src, child(list, k - 1));
            assert(rest.push(e).subrange(0, rest.len() as int) =~= rest);
        }
    }
}

proof fn lemma_declaration_spans_in(src: Seq<u8>, n: SyntaxNode, k: int, len: nat)
    requires
        within(n, len),
    ensures
        forall|i: int|
            0 <= i < declaration_kinds_upto(src, n, k).len() ==> stmt_kind_spans_in(
                #[trigger] declaration_kinds_upto(src, n, k)[i],
                len,
            ),
    decreases k,
{
    if 0 < k <= n.children@.len() {
        lemma_declaration_spans_in(src, n, k - 1, len);
        let d = child(n, k - 1);
        lemma_child_within(n, len, k - 1);
        if d.kind@ == "init_declarator"@ {
            lemma_field_index(d, "value"@);
            if let Some(v) = field_index(d, "value"@) {
                lemma_child_within(d, len, v);
                lemma_expr_spans_in(src, child(d, v), len);
            }
        }
        let rest = declaration_kinds_upto(src, n, k - 1);
        if has_field(d, "declarator"@) {
            let x = match lower_declarator(src, d) {
                Some(kind) => kind,
                None => SpecStmtKind::Unsupported { kind: d.kind@ },
            };
            assert(stmt_kind_spans_in(x, len));
            assert forall|i: int| 0 <= i < rest.push(x).len() implies stmt_kind_spans_in(
                #[trigger] rest.push(x)[i],
                len,
            ) by {
                if i < rest.len() {
                    assert(rest.push(x)[i] == rest[i]);
                }
            }
        }
    }
}

proof fn lemma_statement_spans_in(src: Seq<u8>, n: SyntaxNode, len: nat)
    requires
        within(n, len),
    ensures
        statements_spans_in(lower_statement(src, n), len),
{
    lemma_named_index(n);
    if n.kind@ == "declaration"@ {
        lemma_declaration_spans_in(src, n, n.children@.len() as int, len);
    } else if n.kind@ == "expression_statement"@ {
        if let Some(i) = named_index(n) {
            lemma_child_within(n, len, i);
            let e = child(n, i);
            lemma_field_index(e, "left"@);
            lemma_field_index(e, "right"@);
            if e.kind@ == "assignment_expression"@ {
                if let (Some(l), Some(r)) = (field_index(e, "left"@), field_index(e, "right"@)) {
                    lemma_child_within(e, len, l);
                    lemma_child_within(e, len, r);
                    lemma_expr_spans_in(src, child(e, l), len);
                    lemma_expr_spans_in(src, child(e, r), len);
                }
            } else {
                lemma_expr_spans_in(src, e, len);
            }
        }
    } else if n.kind@ == "return_statement"@ {
        if let Some(i) = named_index(n) {
            lemma_child_within(n, len, i);
            lemma_expr_spans_in(src, child(n, i), len);
        }
    }
}

proof fn lemma_body_spans_in(src: Seq<u8>, body: SyntaxNode, k: int, len: nat)
    requires
        within(body, len),
    ensures
        statements_spans_in(body_statements_upto(src, body, k), len),
    decreases k,
{
    if 0 < k <= body.children@.len() {
        lemma_body_spans_in(src, body, k - 1, len);
        if child(body, k - 1).is_named {
            lemma_child_within(body, len, k - 1);
            lemma_statement_spans_in(src, child(body, k - 1), len);
            let rest = body_statements_upto(src, body, k - 1);
            let more = lower_statement(src, child(body, k - 1));
            assert forall|i: int| 0 <= i < (rest + more).len() implies span_in(
                #[trigger] (rest + more)[i].span,
                len,
            ) && stmt_kind_spans_in((rest + more)[i].kind, len) by {
                if i < rest.len() {
                    assert((rest + more)[i] == rest[i]);
                } else {
                    assert((rest + more)[i] == more[i - rest.len()]);
                }
            }
        }
    }
}

proof fn lemma_item_spans_in(src: Seq<u8>, c: SyntaxNode, len: nat)
    requires
        within(c, len),
    ensures
        item_spans_in(lower_item(src, c), len),
{
    lemma_field_index(c, "body"@);
    if let Some(b) = field_index(c, "body"@) {
        lemma_child_within(c, len, b);
        let body = child(c, b);
        lemma_body_spans_in(src, body, body.children@.len() as int, len);
    }
}

/// Every node of a lowered unit, from the unit down to each expression,
/// covers an ordered byte range of the source: lowering only ever records
/// positions the parser gave it.
pub proof fn lemma_spans_lie_in_source(src: Seq<u8>, root: SyntaxNode)
    requires
        lowerable(src, root),
    ensures
        unit_spans_in(lower_unit(src, root), src.len()),
{
    lemma_lowering_keeps_every_top_level_construct(src, root);
    let named = named_children(root);
    let items = lower_unit(src, root).items;
    assert forall|i: int| 0 <= i < items.len() implies item_spans_in(
        #[trigger] items[i],
        src.len(),
    ) by {
        let c = named[i];
        assert(named.contains(c));
        root.children@.lemma_filter_contains_rev(|c: SyntaxNode| c.is_named, c);
        let j = choose|j: int| 0 <= j < root.children@.len() && root.children@[j] == c;
        lemma_child_within(root, src.len(), j);
        lemma_item_spans_in(src, c, src.len());
    }
}

// ===========================================================================
// The lowering
// ===========================================================================

struct ASTBuilder<'a> {
    src: &'a str,
}

/// Lowers the syntax tree `tree` of `source`.
pub fn build_translation_unit(tree: &SyntaxNode, source: &str) -> (unit: TranslationUnit)
    requires
        lowerable(source.spec_bytes(), *tree),
    ensures
        unit@ == lower_unit(source.spec_bytes(), *tree),
{
    let builder = ASTBuilder::new(source);
    builder.build_translation_unit(tree)
}

/// Parses `source` as C and lowers its syntax tree; `None` when the parser
/// gives no tree, or one that lowering cannot read.
pub fn lower_source(source: &str) -> (unit: Option<TranslationUnit>)
    ensures
        match c_syntax_tree(source@) {
            Some(tree) => if lowerable(source.spec_bytes(), tree) {
                unit matches Some(u) && u@ == lower_unit(source.spec_bytes(), tree)
            } else {
                unit is None
            },
            None => unit is None,
        },
{
    let tree = match parse_source(source) {
        Some(tree) => tree,
        None => return None,
    };
    let len = source.as_bytes().len();
    if tree.kind_is("translation_unit") && tree.fits_within(len) {
        Some(build_translation_unit(&tree, source))
    } else {
        None
    }
}


/// Whether the name of the declarator `node` is reached through a
/// `function_declarator`.
pub(crate) fn nests_function_declarator(node: &SyntaxNode) -> (nests: bool)
    ensures
        nests == name_under_function_declarator(*node),
    decreases node,
{
    if node.kind_is("function_declarator") {
        true
    } else if node.kind_is("pointer_declarator") || node.kind_is("array_declarator") {
        match node.child_index_by_field_name("declarator") {
            Some(i) => {
                proof {
                    lemma_field_index(*node, "declarator"@);
                }
                nests_function_declarator(&node.children[i])
            },
            None => false,
        }
    } else if node.kind_is("parenthesized_declarator") {
        match node.named_child_index() {
            Some(i) => {
                proof {
                    lemma_named_index(*node);
                }
                nests_function_declarator(&node.children[i])
            },
            None => false,
        }
    } else {
        false
    }
}

/// Strips C integer suffixes and reads the literal in its radix.
fn parse_c_integer(text: &[u8]) -> (value: Option<i64>)
    ensures
        value == c_integer(text@),
{
    let mut end = text.len();
    assert(text@.subrange(0, end as int) =~= text@);
    while end > 0 && (text[end - 1] == 117 || text[end - 1] == 85 || text[end - 1] == 108
        || text[end - 1] == 76)
        invariant
            end <= text@.len(),
            trim_suffix_letters(text@.subrange(0, end as int)) == trim_suffix_letters(text@),
        decreases end,
    {
        proof {
            let t = text@.subrange(0, end as int);
            assert(t.subrange(0, t.len() - 1) =~= text@.subrange(0, end - 1));
        }
        end = end - 1;
    }
    let t = &text[0..end];
    assert(trim_suffix_letters(text@) == t@);
    if t.len() >= 2 && t[0] == 48 && (t[1] == 120 || t[1] == 88) {
        parse_radix(&t[2..t.len()], 16)
    } else if t.len() >= 2 && t[0] == 48 && (t[1] == 98 || t[1] == 66) {
        parse_radix(&t[2..t.len()], 2)
    } else if t.len() > 1 && t[0] == 48 && !contains_byte(t, 46) && !contains_byte(t, 101)
        && !contains_byte(t, 69) {
        parse_radix(&t[1..t.len()], 8)
    } else {
        parse_radix(t, 10)
    }
}

fn contains_byte(t: &[u8], b: u8) -> (found: bool)
    ensures
        found == t@.contains(b),
{
    let mut i: usize = 0;
    while i < t.len()
        invariant
            i <= t@.len(),
            forall|j: int| 0 <= j < i ==> t@[j] != b,
        decreases t@.len() - i,
    {
        if t[i] == b {
            return true;
        }
        i = i + 1;
    }
    false
}

proof fn lemma_parameter_names_stay_none(src: Seq<u8>, list: SyntaxNode, k: int, m: int)
    requires
        k <= m,
        0 < k,
        parameter_names_upto(src, list, k) is None,
    ensures
        m <= list.children@.len() ==> parameter_names_upto(src, list, m) is None,
    decreases m - k,
{
    if k < m && m <= list.children@.len() {
        lemma_parameter_names_stay_none(src, list, k, m - 1);
    }
}

impl<'a> ASTBuilder<'a> {
    pub closed spec fn bytes(&self) -> Seq<u8> {
        self.src.spec_bytes()
    }

    pub fn new(src: &'a str) -> (builder: Self)
        ensures
            builder.bytes() == src.spec_bytes(),
    {
        ASTBuilder { src }
    }

    // ======================
    // Extractors
    // ======================

    fn span(&self, node: &SyntaxNode) -> (span: Span)
        ensures
            span == span_of(*node),
    {
        Span::new(node.start_byte, node.end_byte)
    }

    fn extract_text(&self, node: &SyntaxNode) -> (text: String)
        requires
            within(*node, self.bytes().len()),
        ensures
            text@ == node_text(self.bytes(), *node),
    {
        let bytes = self.src.as_bytes();
        decode_bytes(&bytes[node.start_byte..node.end_byte])
    }

    fn extract_identifier(&self, node: &SyntaxNode) -> (identifier: Identifier)
        requires
            within(*node, self.bytes().len()),
            node.kind@ == "identifier"@,
        ensures
            identifier.0@ == node_text(self.bytes(), *node),
    {
        let name = self.extract_text(node);
        Identifier(name)
    }

    /// Peels a declarator down to the identifier it eventually names.
    ///
    /// C declarators nest: `int *p`, `int a[10]`, `int (*f)(void)`. Only the
    /// innermost node is an `identifier`, so this recurses. The `usize` is the
    /// pointer depth stripped on the way down; callers currently discard it,
    /// since the CAst does not model types yet.
    fn unwrap_declarator(&self, node: &SyntaxNode) -> (named: Option<(Identifier, usize)>)
        requires
            within(*node, self.bytes().len()),
        ensures
            match named {
                Some((name, depth)) => declarator_name(self.bytes(), *node) == Some(
                    (name.0@, depth),
                ),
                None => declarator_name(self.bytes(), *node) is None,
            },
        decreases node,
    {
        let ghost len = self.bytes().len();
        if node.kind_is("identifier") {
            Some((self.extract_identifier(node), 0))
        } else if node.kind_is("pointer_declarator") {
            let inner = node.child_index_by_field_name("declarator")?;
            proof {
                lemma_field_index(*node, "declarator"@);
                lemma_child_within(*node, len, inner as int);
            }
            let (name, depth) = self.unwrap_declarator(&node.children[inner])?;
            let depth = if depth < usize::MAX {
                depth + 1
            } else {
                depth
            };
            Some((name, depth))
        } else if node.kind_is("array_declarator") || node.kind_is("function_declarator") {
            let inner = node.child_index_by_field_name("declarator")?;
            proof {
                lemma_field_index(*node, "declarator"@);
                lemma_child_within(*node, len, inner as int);
            }
            self.unwrap_declarator(&node.children[inner])
        } else if node.kind_is("parenthesized_declarator") {
            let inner = node.named_child_index()?;
            proof {
                lemma_named_index(*node);
                lemma_child_within(*node, len, inner as int);
            }
            self.unwrap_declarator(&node.children[inner])
        } else {
            None
        }
    }

    /// Reads an integer literal, honouring the C radix prefixes and the
    /// `u`/`l` suffixes. `None` for anything that is not an integer this can
    /// represent exactly (floats, overflow), so the caller can mark it
    /// unsupported instead of reading it as `0`.
    fn extract_number(&self, node: &SyntaxNode) -> (value: Option<i64>)
        requires
            within(*node, self.bytes().len()),
            node.kind@ == "number_literal"@,
        ensures
            value == number_value(self.bytes(), *node),
    {
        let text = self.extract_text(node);
        let bytes = string_bytes(&text);
        proof {
            lemma_encode_decode_or_empty(node_bytes(self.bytes(), *node));
        }
        parse_c_integer(bytes)
    }

    fn get_operation(&self, node: &SyntaxNode) -> (op: Option<BinOp>)
        requires
            within(*node, self.bytes().len()),
        ensures
            op == operation(self.bytes(), *node),
    {
        let operator = node.child_index_by_field_name("operator")?;
        proof {
            lemma_field_index(*node, "operator"@);
            lemma_child_within(*node, self.bytes().len(), operator as int);
        }
        let text = self.extract_text(&node.children[operator]);
        if str_eq(text.as_str(), "+") {
            Some(BinOp::Add)
        } else if str_eq(text.as_str(), "-") {
            Some(BinOp::Sub)
        } else if str_eq(text.as_str(), "*") {
            Some(BinOp::Mul)
        } else if str_eq(text.as_str(), "/") {
            Some(BinOp::Div)
        } else {
            None
        }
    }

    // ======================
    // Builders
    // ======================

    pub fn build_translation_unit(&self, tree: &SyntaxNode) -> (unit: TranslationUnit)
        requires
            lowerable(self.bytes(), *tree),
        ensures
            unit@ == lower_unit(self.bytes(), *tree),
    {
        let ghost len = self.bytes().len();
        let mut items: Vec<Item> = Vec::new();
        let mut i: usize = 0;
        while i < tree.children.len()
            invariant
                i <= tree.children@.len(),
                len == self.bytes().len(),
                within(*tree, len),
                items_model(items@) == lower_items_upto(self.bytes(), *tree, i as int),
            decreases tree.children@.len() - i,
        {
            let c = &tree.children[i];
            proof {
                lemma_child_within(*tree, len, i as int);
            }
            if c.is_named {
                // A `function_definition` this cannot name (an unnamed
                // parameter, a declarator too convoluted to unwrap) becomes
                // `Unsupported` like any other top-level construct.
                let kind = if c.kind_is("function_definition") {
                    match self.build_function(c) {
                        Some(function) => ItemKind::Function(function),
                        None => self.unsupported_item_kind(c),
                    }
                } else {
                    self.unsupported_item_kind(c)
                };
                let item = Item::new(kind, self.span(c));
                let ghost before = items@;
                items.push(item);
                proof {
                    assert(items_model(items@) =~= items_model(before).push(item_model(item)));
                }
            }
            i = i + 1;
        }
        TranslationUnit { items, span: self.span(tree) }
    }

    fn unsupported_item_kind(&self, node: &SyntaxNode) -> (kind: ItemKind)
        ensures
            item_kind_model(kind) == (SpecItemKind::Unsupported { kind: node.kind@ }),
    {
        ItemKind::Unsupported { kind: node.kind.clone() }
    }

    fn build_function(&self, node: &SyntaxNode) -> (function: Option<Function>)
        requires
            within(*node, self.bytes().len()),
            node.kind@ == "function_definition"@,
        ensures
            match function {
                Some(f) => lower_function(self.bytes(), *node) == Some(function_model(f)),
                None => lower_function(self.bytes(), *node) is None,
            },
    {
        let ghost len = self.bytes().len();
        let declarator = node.child_index_by_field_name("declarator")?;
        proof {
            lemma_field_index(*node, "declarator"@);
            lemma_child_within(*node, len, declarator as int);
        }
        let (name, params) = self.deconstruct_declarator(&node.children[declarator])?;
        let b = node.child_index_by_field_name("body")?;
        proof {
            lemma_field_index(*node, "body"@);
            lemma_child_within(*node, len, b as int);
        }
        let body = &node.children[b];
        let mut statements: Vec<Statement> = Vec::new();
        let mut i: usize = 0;
        while i < body.children.len()
            invariant
                i <= body.children@.len(),
                len == self.bytes().len(),
                within(*body, len),
                stmts_model(statements@) == body_statements_upto(self.bytes(), *body, i as int),
            decreases body.children@.len() - i,
        {
            proof {
                lemma_child_within(*body, len, i as int);
            }
            if body.children[i].is_named {
                let mut built = self.build_statement(&body.children[i]);
                let ghost before = statements@;
                let ghost added = built@;
                statements.append(&mut built);
                proof {
                    assert(stmts_model(statements@) =~= stmts_model(before) + stmts_model(added));
                }
            }
            i = i + 1;
        }
        Some(
            Function {
                name,
                params,
                body: Compound { statements, span: self.span(body) },
                span: self.span(node),
            },
        )
    }

    /// `None` when the definition has no name this can resolve
    /// (`int (*f(void))(int)` and friends). An unnamed parameter (`void f(int)`)
    /// makes the whole parameter list `None` rather than changing the arity.
    fn deconstruct_declarator(&self, node: &SyntaxNode) -> (signature: Option<
        (Identifier, Vec<Identifier>),
    >)
        requires
            within(*node, self.bytes().len()),
        ensures
            match signature {
                Some((name, params)) => function_signature(self.bytes(), *node) == Some(
                    (name.0@, idents_model(params@)),
                ),
                None => function_signature(self.bytes(), *node) is None,
            },
    {
        let ghost len = self.bytes().len();
        if !node.kind_is("function_declarator") {
            return None;
        }
        let inner = node.child_index_by_field_name("declarator")?;
        proof {
            lemma_field_index(*node, "declarator"@);
            lemma_child_within(*node, len, inner as int);
        }
        if nests_function_declarator(&node.children[inner]) {
            return None;
        }
        let (name, _pointer_depth) = self.unwrap_declarator(&node.children[inner])?;
        let params = match node.child_index_by_field_name("parameters") {
            Some(p) => {
                proof {
                    lemma_field_index(*node, "parameters"@);
                    lemma_child_within(*node, len, p as int);
                }
                let param_list = &node.children[p];
                if self.is_void_parameter_list(param_list) {
                    Vec::new()
                } else {
                    let mut param_identifiers: Vec<Identifier> = Vec::new();
                    let mut i: usize = 0;
                    while i < param_list.children.len()
                        invariant
                            i <= param_list.children@.len(),
                            len == self.bytes().len(),
                            within(*param_list, len),
                            node.kind@ == "function_declarator"@,
                            field_index(*node, "declarator"@) == Some(inner as int),
                            !name_under_function_declarator(child(*node, inner as int)),
                            declarator_name(self.bytes(), child(*node, inner as int)) == Some(
                                (name.0@, _pointer_depth),
                            ),
                            field_index(*node, "parameters"@) == Some(p as int),
                            *param_list == child(*node, p as int),
                            !is_void_parameter_list(self.bytes(), *param_list),
                            parameter_names_upto(self.bytes(), *param_list, i as int) == Some(
                                idents_model(param_identifiers@),
                            ),
                        decreases param_list.children@.len() - i,
                    {
                        proof {
                            lemma_child_within(*param_list, len, i as int);
                        }
                        let c = &param_list.children[i];
                        if c.is_named && c.kind_is("parameter_declaration") {
                            let declarator = match c.child_index_by_field_name("declarator") {
                                Some(d) => d,
                                None => {
                                    proof {
                                        lemma_parameter_names_stay_none(
                                            self.bytes(),
                                            *param_list,
                                            i + 1,
                                            param_list.children@.len() as int,
                                        );
                                    }
                                    return None;
                                },
                            };
                            proof {
                                lemma_field_index(*c, "declarator"@);
                                lemma_child_within(*c, len, declarator as int);
                            }
                            let (param_identifier, _pointer_depth) = match self.unwrap_declarator(
                                &c.children[declarator],
                            ) {
                                Some(named) => named,
                                None => {
                                    proof {
                                        lemma_parameter_names_stay_none(
                                            self.bytes(),
                                            *param_list,
                                            i + 1,
                                            param_list.children@.len() as int,
                                        );
                                    }
                                    return None;
                                },
                            };
                            let ghost before = param_identifiers@;
                            param_identifiers.push(param_identifier);
                            proof {
                                assert(idents_model(param_identifiers@) =~= idents_model(
                                    before,
                                ).push(param_identifier.0@));
                            }
                        }
                        i = i + 1;
                    }
                    param_identifiers
                }
            },
            None => Vec::new(),
        };
        proof {
            assert(idents_model(Seq::<Identifier>::empty()) =~= Seq::<Seq<char>>::empty());
        }
        Some((name, params))
    }

    fn is_void_parameter_list(&self, param_list: &SyntaxNode) -> (is_void: bool)
        requires
            within(*param_list, self.bytes().len()),
        ensures
            is_void == is_void_parameter_list(self.bytes(), *param_list),
    {
        let ghost len = self.bytes().len();
        let first = match param_list.named_child_index() {
            Some(i) => i,
            None => return false,
        };
        proof {
            lemma_named_index(*param_list);
            lemma_child_within(*param_list, len, first as int);
        }
        let only = &param_list.children[first];
        if param_list.named_child_count() > 1 || !only.kind_is("parameter_declaration") {
            return false;
        }
        if only.child_index_by_field_name("declarator").is_some() {
            return false;
        }
        match only.child_index_by_field_name("type") {
            Some(t) => {
                proof {
                    lemma_field_index(*only, "type"@);
                    lemma_child_within(*only, len, t as int);
                }
                let text = self.extract_text(&only.children[t]);
                str_eq(text.as_str(), "void")
            },
            None => false,
        }
    }

    fn build_statement(&self, node: &SyntaxNode) -> (statements: Vec<Statement>)
        requires
            within(*node, self.bytes().len()),
        ensures
            stmts_model(statements@) == lower_statement(self.bytes(), *node),
    {
        let ghost len = self.bytes().len();
        let span = self.span(node);
        if node.kind_is("declaration") {
            let mut kinds = self.process_declaration(node);
            let ghost all = kinds@;
            let mut statements: Vec<Statement> = Vec::new();
            while kinds.len() > 0
                invariant
                    stmts_model(statements@) + with_span(stmt_kinds_model(kinds@), span)
                        == with_span(stmt_kinds_model(all), span),
                decreases kinds@.len(),
            {
                let ghost rest = kinds@;
                let kind = kinds.remove(0);
                let ghost before = statements@;
                statements.push(Statement::new(kind, span));
                proof {
                    assert(rest =~= seq![kind] + kinds@);
                    assert(with_span(stmt_kinds_model(rest), span) =~= seq![
                        stmt_model(Statement { kind, span }),
                    ] + with_span(stmt_kinds_model(kinds@), span));
                    assert(stmts_model(statements@) =~= stmts_model(before).push(
                        stmt_model(Statement { kind, span }),
                    ));
                }
            }
            proof {
                assert(with_span(stmt_kinds_model(kinds@), span) =~= Seq::<SpecStatement>::empty());
                assert(stmts_model(statements@) =~= with_span(stmt_kinds_model(all), span));
            }
            statements
        } else if node.kind_is("expression_statement") {
            let statement = self.process_expression_statement(node);
            let statements = vec![statement];
            proof {
                assert(stmts_model(statements@) =~= seq![stmt_model(statement)]);
            }
            statements
        } else if node.kind_is("return_statement") {
            let value = match node.named_child_index() {
                Some(i) => {
                    proof {
                        lemma_named_index(*node);
                        lemma_child_within(*node, len, i as int);
                    }
                    Some(self.build_expression(&node.children[i]))
                },
                None => None,
            };
            let statement = Statement::new(StmtKind::Return(value), span);
            let statements = vec![statement];
            proof {
                assert(stmts_model(statements@) =~= seq![stmt_model(statement)]);
            }
            statements
        } else {
            let statement = Statement::new(StmtKind::Unsupported { kind: node.kind.clone() }, span);
            let statements = vec![statement];
            proof {
                assert(stmts_model(statements@) =~= seq![stmt_model(statement)]);
            }
            statements
        }
    }

    /// One `StmtKind` per declarator, so `int a, b = 2;` yields two.
    fn process_declaration(&self, node: &SyntaxNode) -> (kinds: Vec<StmtKind>)
        requires
            within(*node, self.bytes().len()),
            node.kind@ == "declaration"@,
        ensures
            stmt_kinds_model(kinds@) == declaration_kinds_upto(
                self.bytes(),
                *node,
                node.children@.len() as int,
            ),
    {
        let ghost len = self.bytes().len();
        let mut declarations: Vec<StmtKind> = Vec::new();
        let mut i: usize = 0;
        while i < node.children.len()
            invariant
                i <= node.children@.len(),
                len == self.bytes().len(),
                within(*node, len),
                stmt_kinds_model(declarations@) == declaration_kinds_upto(
                    self.bytes(),
                    *node,
                    i as int,
                ),
            decreases node.children@.len() - i,
        {
            proof {
                lemma_child_within(*node, len, i as int);
            }
            let declarator = &node.children[i];
            let is_declarator = match &declarator.field {
                Some(field) => str_eq(field.as_str(), "declarator"),
                None => false,
            };
            if is_declarator {
                let kind = match self.process_declarator(declarator) {
                    Some(kind) => kind,
                    None => StmtKind::Unsupported { kind: declarator.kind.clone() },
                };
                let ghost before = declarations@;
                declarations.push(kind);
                proof {
                    assert(stmt_kinds_model(declarations@) =~= stmt_kinds_model(before).push(
                        stmt_kind_model(kind),
                    ));
                }
            }
            i = i + 1;
        }
        declarations
    }

    fn process_declarator(&self, declarator: &SyntaxNode) -> (kind: Option<StmtKind>)
        requires
            within(*declarator, self.bytes().len()),
        ensures
            match kind {
                Some(k) => lower_declarator(self.bytes(), *declarator) == Some(stmt_kind_model(k)),
                None => lower_declarator(self.bytes(), *declarator) is None,
            },
    {
        let ghost len = self.bytes().len();
        if declarator.kind_is("init_declarator") {
            let inner = declarator.child_index_by_field_name("declarator")?;
            proof {
                lemma_field_index(*declarator, "declarator"@);
                lemma_child_within(*declarator, len, inner as int);
            }
            let (name, _pointer_depth) = self.unwrap_declarator(&declarator.children[inner])?;
            let v = declarator.child_index_by_field_name("value")?;
            proof {
                lemma_field_index(*declarator, "value"@);
                lemma_child_within(*declarator, len, v as int);
            }
            let value = self.build_expression(&declarator.children[v]);
            Some(StmtKind::Declaration { name, value: Some(value) })
        } else {
            // Everything else is an uninitialized declarator: `int a;`,
            // `int *p;`, `int a[10];`, `int (*f)(void);`
            let (name, _pointer_depth) = self.unwrap_declarator(declarator)?;
            Some(StmtKind::Declaration { name, value: None })
        }
    }

    fn process_expression_statement(&self, node: &SyntaxNode) -> (statement: Statement)
        requires
            within(*node, self.bytes().len()),
            node.kind@ == "expression_statement"@,
        ensures
            stmt_model(statement) == lower_expression_statement(self.bytes(), *node),
    {
        let ghost len = self.bytes().len();
        let span = self.span(node);
        // An empty statement (`;`) has no child.
        let e = match node.named_child_index() {
            Some(e) => e,
            None => {
                return Statement::new(StmtKind::Unsupported { kind: node.kind.clone() }, span);
            },
        };
        proof {
            lemma_named_index(*node);
            lemma_child_within(*node, len, e as int);
        }
        let expression_child = &node.children[e];
        let kind = match self.build_expression_statement_kind(expression_child) {
            Some(kind) => kind,
            None => StmtKind::Unsupported { kind: expression_child.kind.clone() },
        };
        Statement::new(kind, span)
    }

    fn build_expression_statement_kind(&self, node: &SyntaxNode) -> (kind: Option<StmtKind>)
        requires
            within(*node, self.bytes().len()),
        ensures
            match kind {
                Some(k) => expression_statement_kind(self.bytes(), *node) == Some(
                    stmt_kind_model(k),
                ),
                None => expression_statement_kind(self.bytes(), *node) is None,
            },
    {
        let ghost len = self.bytes().len();
        if node.kind_is("assignment_expression") {
            let lhs = node.child_index_by_field_name("left")?;
            let rhs = node.child_index_by_field_name("right")?;
            // `a += b` is not a plain assignment: modelling it as one would
            // silently drop the operator, so anything but `=` is unsupported.
            let operator = node.child_index_by_field_name("operator")?;
            proof {
                lemma_field_index(*node, "left"@);
                lemma_field_index(*node, "right"@);
                lemma_field_index(*node, "operator"@);
                lemma_child_within(*node, len, lhs as int);
                lemma_child_within(*node, len, rhs as int);
                lemma_child_within(*node, len, operator as int);
            }
            let text = self.extract_text(&node.children[operator]);
            if !str_eq(text.as_str(), "=") {
                return None;
            }
            Some(
                StmtKind::Assign {
                    lhs: self.build_expression(&node.children[lhs]),
                    rhs: self.build_expression(&node.children[rhs]),
                },
            )
        } else {
            Some(StmtKind::ExprStmt(self.build_expression(node)))
        }
    }

    fn build_expression(&self, node: &SyntaxNode) -> (expression: Expression)
        requires
            within(*node, self.bytes().len()),
        ensures
            expression@ == lower_expr(self.bytes(), *node),
        decreases node, 2int,
    {
        let span = self.span(node);
        let kind = match self.build_expression_kind(node) {
            Some(kind) => kind,
            None => self.unsupported_expr_kind(node),
        };
        Expression::new(kind, span)
    }

    /// `None` means "lowering cannot model this node", which the caller turns
    /// into [`ExprKind::Unsupported`].
    fn build_expression_kind(&self, node: &SyntaxNode) -> (kind: Option<ExprKind>)
        requires
            within(*node, self.bytes().len()),
        ensures
            match kind {
                Some(k) => lower_expr_kind(self.bytes(), *node) == Some(expr_kind_model(k)),
                None => lower_expr_kind(self.bytes(), *node) is None,
            },
        decreases node, 1int,
    {
        let ghost len = self.bytes().len();
        if node.kind_is("identifier") {
            Some(ExprKind::Variable(self.extract_identifier(node)))
        } else if node.kind_is("parenthesized_expression") {
            let inner = node.named_child_index()?;
            proof {
                lemma_named_index(*node);
                lemma_child_within(*node, len, inner as int);
            }
            Some(self.build_expression(&node.children[inner]).kind)
        } else if node.kind_is("number_literal") {
            Some(ExprKind::Int(self.extract_number(node)?))
        } else if node.kind_is("binary_expression") {
            let lhs = node.child_index_by_field_name("left")?;
            let rhs = node.child_index_by_field_name("right")?;
            proof {
                lemma_field_index(*node, "left"@);
                lemma_field_index(*node, "right"@);
                lemma_child_within(*node, len, lhs as int);
                lemma_child_within(*node, len, rhs as int);
            }
            let op = self.get_operation(node)?;
            Some(
                ExprKind::BinaryOp {
                    op,
                    lhs: Box::new(self.build_expression(&node.children[lhs])),
                    rhs: Box::new(self.build_expression(&node.children[rhs])),
                },
            )
        } else if node.kind_is("call_expression") {
            let function = node.child_index_by_field_name("function")?;
            proof {
                lemma_field_index(*node, "function"@);
                lemma_child_within(*node, len, function as int);
            }
            let callee = &node.children[function];
            // Calls through a pointer or a member (`f->cb(x)`) are not
            // modelled: the callee is an `Identifier`, not an expression.
            if !callee.kind_is("identifier") {
                return None;
            }
            let args = match node.child_index_by_field_name("arguments") {
                Some(a) => {
                    proof {
                        lemma_field_index(*node, "arguments"@);
                        lemma_child_within(*node, len, a as int);
                    }
                    let args_list = &node.children[a];
                    let mut args: Vec<Expression> = Vec::new();
                    let mut i: usize = 0;
                    while i < args_list.children.len()
                        invariant
                            i <= args_list.children@.len(),
                            len == self.bytes().len(),
                            within(*args_list, len),
                            a < node.children@.len(),
                            *args_list == node.children@[a as int],
                            exprs_model(args@) == lower_args_upto(
                                self.bytes(),
                                *args_list,
                                i as int,
                            ),
                        decreases args_list.children@.len() - i,
                    {
                        proof {
                            lemma_child_within(*args_list, len, i as int);
                        }
                        if args_list.children[i].is_named {
                            let arg = self.build_expression(&args_list.children[i]);
                            proof {
                                lemma_exprs_model_push(args@, arg);
                            }
                            args.push(arg);
                        }
                        i = i + 1;
                    }
                    args
                },
                None => Vec::new(),
            };
            Some(ExprKind::Call { callee: self.extract_identifier(callee), args })
        } else {
            None
        }
    }

    fn unsupported_expr_kind(&self, node: &SyntaxNode) -> (kind: ExprKind)
        ensures
            expr_kind_model(kind) == (SpecExprKind::Unsupported { kind: node.kind@ }),
    {
        ExprKind::Unsupported { kind: node.kind.clone() }
    }
}

} // verus!
