//! CAst → an indented tree, for reading and for comparing.
//!
//! Where [`print`](super::print) emits compilable C and refuses to guess at
//! anything it cannot express, this module renders whatever is in the tree,
//! `Unsupported` nodes included. It is total: every CAst has a dump.
//!
//! [`dump`] omits spans, so two trees that differ only in source position
//! give identical output: `dump(a) == dump(b)` is the spans-ignoring
//! comparison. [`dump_with_spans`] annotates every node with its byte range.
use vstd::prelude::*;

use super::print::{quote, quoted};
use super::{
    exprs_model, expr_model, idents_model, item_model, items_model, lemma_exprs_model, stmt_model,
    stmts_model, BinOp, Compound, ExprKind, Expression, Function, Identifier, Item, ItemKind,
    SpecCompound, SpecExprKind, SpecExpression, SpecFunction, SpecItem, SpecItemKind,
    SpecStatement, SpecStmtKind, SpecTranslationUnit, Statement, StmtKind, TranslationUnit,
};
use crate::span::Span;
use crate::text::{decimal, push_decimal_i64, push_decimal_usize};

verus! {

// ===========================================================================
// The rendered text
// ===========================================================================

/// A labelled node of the rendered tree.
pub struct SpecNode {
    pub label: Seq<char>,
    pub children: Seq<SpecNode>,
}

/// A label, followed by ` @start..end` when spans are shown.
pub open spec fn labelled(label: Seq<char>, span: Span, show_spans: bool) -> Seq<char> {
    if show_spans {
        label + " @"@ + decimal(span.start as int) + ".."@ + decimal(span.end as int)
    } else {
        label
    }
}

pub open spec fn tree_text(root: SpecNode) -> Seq<char> {
    root.label + "\n"@ + children_text(root.children, Seq::empty())
}

/// The lines of `children`, each behind `prefix` and its branch, the last one
/// closing the branch.
pub open spec fn children_text(children: Seq<SpecNode>, prefix: Seq<char>) -> Seq<char>
    decreases children, 0int,
{
    if children.len() == 0 {
        Seq::empty()
    } else {
        branch_text(children.subrange(0, children.len() - 1), prefix) + entry_text(
            children[children.len() - 1],
            prefix,
            true,
        )
    }
}

/// The lines of children none of which is the last.
pub open spec fn branch_text(children: Seq<SpecNode>, prefix: Seq<char>) -> Seq<char>
    decreases children, 0int,
{
    if children.len() == 0 {
        Seq::empty()
    } else {
        branch_text(children.subrange(0, children.len() - 1), prefix) + entry_text(
            children[children.len() - 1],
            prefix,
            false,
        )
    }
}

/// One child's line and, beneath it, its own children.
pub open spec fn entry_text(node: SpecNode, prefix: Seq<char>, last: bool) -> Seq<char>
    decreases node, 1int,
{
    prefix + (if last {
        "└─ "@
    } else {
        "├─ "@
    }) + node.label + "\n"@ + children_text(
        node.children,
        prefix + if last {
            "   "@
        } else {
            "│  "@
        },
    )
}

pub open spec fn op_name_of(op: BinOp) -> Seq<char> {
    match op {
        BinOp::Add => "Add"@,
        BinOp::Sub => "Sub"@,
        BinOp::Mul => "Mul"@,
        BinOp::Div => "Div"@,
    }
}

/// The dump names every operator by a name of its own: no two operators
/// share one.
pub proof fn lemma_operator_names_differ(a: BinOp, b: BinOp)
    ensures
        a != b ==> op_name_of(a) != op_name_of(b),
{
    reveal_strlit("Add");
    reveal_strlit("Sub");
    reveal_strlit("Mul");
    reveal_strlit("Div");
    if a != b {
        assert(op_name_of(a)[0] != op_name_of(b)[0]);
    }
}

/// Two binary operations with different operators dump differently, with or
/// without spans: the dump never confuses one operator for another.
pub proof fn lemma_dump_tells_operators_apart(x: SpecExpression, y: SpecExpression, show_spans: bool)
    requires
        x.kind is BinaryOp,
        y.kind is BinaryOp,
        x.kind->op != y.kind->op,
    ensures
        expr_tree(x, show_spans) != expr_tree(y, show_spans),
{
    reveal_strlit("BinaryOp ");
    reveal_strlit("Add");
    reveal_strlit("Sub");
    reveal_strlit("Mul");
    reveal_strlit("Div");
    reveal_strlit(" @");
    reveal_strlit("..");
    lemma_operator_names_differ(x.kind->op, y.kind->op);
    let lx = expr_tree(x, show_spans).label;
    let ly = expr_tree(y, show_spans).label;
    let nx = op_name_of(x.kind->op);
    let ny = op_name_of(y.kind->op);
    assert(lx[9] == nx[0]);
    assert(ly[9] == ny[0]);
    assert(nx[0] != ny[0]);
}

pub open spec fn leaf(label: Seq<char>, span: Span, show_spans: bool) -> SpecNode {
    SpecNode { label: labelled(label, span, show_spans), children: Seq::empty() }
}

pub open spec fn expr_tree(e: SpecExpression, show_spans: bool) -> SpecNode
    decreases e, 1int,
{
    match e.kind {
        SpecExprKind::Variable(name) => leaf("Variable "@ + name, e.span, show_spans),
        SpecExprKind::Int(v) => leaf("Int "@ + decimal(v as int), e.span, show_spans),
        SpecExprKind::String(v) => leaf("String "@ + quoted(v), e.span, show_spans),
        SpecExprKind::BinaryOp { op, lhs, rhs } => SpecNode {
            label: labelled("BinaryOp "@ + op_name_of(op), e.span, show_spans),
            children: seq![expr_tree(*lhs, show_spans), expr_tree(*rhs, show_spans)],
        },
        SpecExprKind::Call { callee, args } => SpecNode {
            label: labelled("Call "@ + callee, e.span, show_spans),
            children: expr_trees(args, show_spans),
        },
        SpecExprKind::Unsupported { kind } => leaf(
            "Unsupported expression "@ + kind,
            e.span,
            show_spans,
        ),
    }
}

pub open spec fn expr_trees(s: Seq<SpecExpression>, show_spans: bool) -> Seq<SpecNode>
    decreases s, 0int,
{
    if s.len() == 0 {
        Seq::empty()
    } else {
        expr_trees(s.subrange(0, s.len() - 1), show_spans).push(
            expr_tree(s[s.len() - 1], show_spans),
        )
    }
}

pub open spec fn opt_expr_trees(e: Option<SpecExpression>, show_spans: bool) -> Seq<SpecNode> {
    match e {
        Some(e) => seq![expr_tree(e, show_spans)],
        None => Seq::empty(),
    }
}

pub open spec fn statement_tree(s: SpecStatement, show_spans: bool) -> SpecNode {
    let (label, children) = match s.kind {
        SpecStmtKind::Declaration { name, value } => (
            "Declaration "@ + name,
            opt_expr_trees(value, show_spans),
        ),
        SpecStmtKind::Assign { lhs, rhs } => (
            "Assign"@,
            seq![expr_tree(lhs, show_spans), expr_tree(rhs, show_spans)],
        ),
        SpecStmtKind::ExprStmt(v) => ("ExprStmt"@, seq![expr_tree(v, show_spans)]),
        SpecStmtKind::Return(value) => ("Return"@, opt_expr_trees(value, show_spans)),
        SpecStmtKind::Unsupported { kind } => ("Unsupported statement "@ + kind, Seq::empty()),
    };
    SpecNode { label: labelled(label, s.span, show_spans), children }
}

/// How a statement renders: a label by its kind (with its span when spans
/// are shown), and beneath it the initializer or returned value where there
/// is one, both sides of an assignment, or the expression of an expression
/// statement; an unmodelled statement has no children.
pub proof fn lemma_statement_tree_shape(st: SpecStatement, show_spans: bool)
    ensures
        statement_tree(st, show_spans).label == labelled(
            match st.kind {
                SpecStmtKind::Declaration { name, .. } => "Declaration "@ + name,
                SpecStmtKind::Assign { .. } => "Assign"@,
                SpecStmtKind::ExprStmt(_) => "ExprStmt"@,
                SpecStmtKind::Return(_) => "Return"@,
                SpecStmtKind::Unsupported { kind } => "Unsupported statement "@ + kind,
            },
            st.span,
            show_spans,
        ),
        statement_tree(st, show_spans).children == match st.kind {
            SpecStmtKind::Declaration { value, .. } => opt_expr_trees(value, show_spans),
            SpecStmtKind::Assign { lhs, rhs } => seq![
                expr_tree(lhs, show_spans),
                expr_tree(rhs, show_spans),
            ],
            SpecStmtKind::ExprStmt(e) => seq![expr_tree(e, show_spans)],
            SpecStmtKind::Return(value) => opt_expr_trees(value, show_spans),
            SpecStmtKind::Unsupported { .. } => Seq::empty(),
        },
{
}

pub open spec fn statement_trees(s: Seq<SpecStatement>, show_spans: bool) -> Seq<SpecNode>
    decreases s.len(),
{
    if s.len() == 0 {
        Seq::empty()
    } else {
        statement_trees(s.subrange(0, s.len() - 1), show_spans).push(
            statement_tree(s[s.len() - 1], show_spans),
        )
    }
}

pub open spec fn compound_tree(c: SpecCompound, show_spans: bool) -> SpecNode {
    SpecNode {
        label: labelled("Compound"@, c.span, show_spans),
        children: statement_trees(c.statements, show_spans),
    }
}

/// The parameter names separated by `, `.
pub open spec fn names_text(names: Seq<Seq<char>>) -> Seq<char>
    decreases names.len(),
{
    if names.len() == 0 {
        Seq::empty()
    } else if names.len() == 1 {
        names[0]
    } else {
        names_text(names.subrange(0, names.len() - 1)) + ", "@ + names[names.len() - 1]
    }
}

pub open spec fn function_tree(f: SpecFunction, show_spans: bool) -> SpecNode {
    SpecNode {
        label: labelled(
            "Function "@ + f.name + " params: ["@ + names_text(f.params) + "]"@,
            f.span,
            show_spans,
        ),
        children: seq![compound_tree(f.body, show_spans)],
    }
}

/// A function item renders as its function directly; the two carry the same
/// information.
pub open spec fn item_tree(i: SpecItem, show_spans: bool) -> SpecNode {
    match i.kind {
        SpecItemKind::Function(f) => function_tree(f, show_spans),
        SpecItemKind::Unsupported { kind } => leaf("Unsupported item "@ + kind, i.span, show_spans),
    }
}

pub open spec fn item_trees(s: Seq<SpecItem>, show_spans: bool) -> Seq<SpecNode>
    decreases s.len(),
{
    if s.len() == 0 {
        Seq::empty()
    } else {
        item_trees(s.subrange(0, s.len() - 1), show_spans).push(
            item_tree(s[s.len() - 1], show_spans),
        )
    }
}

pub open spec fn unit_tree(u: SpecTranslationUnit, show_spans: bool) -> SpecNode {
    SpecNode {
        label: labelled("TranslationUnit"@, u.span, show_spans),
        children: item_trees(u.items, show_spans),
    }
}

/// What [`dump`] gives.
pub open spec fn dumped(u: SpecTranslationUnit) -> Seq<char> {
    tree_text(unit_tree(u, false))
}

/// What [`dump_with_spans`] gives.
pub open spec fn dumped_with_spans(u: SpecTranslationUnit) -> Seq<char> {
    tree_text(unit_tree(u, true))
}

// ===========================================================================
// Spans do not reach the dump
// ===========================================================================

/// The position every span is moved to by [`without_spans`].
pub open spec fn no_span() -> Span {
    Span { start: 0, end: 0 }
}

pub open spec fn expr_without_spans(e: SpecExpression) -> SpecExpression
    decreases e, 1int,
{
    let kind = match e.kind {
        SpecExprKind::BinaryOp { op, lhs, rhs } => SpecExprKind::BinaryOp {
            op,
            lhs: Box::new(expr_without_spans(*lhs)),
            rhs: Box::new(expr_without_spans(*rhs)),
        },
        SpecExprKind::Call { callee, args } => SpecExprKind::Call {
            callee,
            args: exprs_without_spans(args),
        },
        other => other,
    };
    SpecExpression { kind, span: no_span() }
}

pub open spec fn exprs_without_spans(s: Seq<SpecExpression>) -> Seq<SpecExpression>
    decreases s, 0int,
{
    if s.len() == 0 {
        Seq::empty()
    } else {
        exprs_without_spans(s.subrange(0, s.len() - 1)).push(expr_without_spans(s[s.len() - 1]))
    }
}

pub open spec fn opt_expr_without_spans(e: Option<SpecExpression>) -> Option<SpecExpression> {
    match e {
        Some(e) => Some(expr_without_spans(e)),
        None => None,
    }
}

pub open spec fn statement_without_spans(s: SpecStatement) -> SpecStatement {
    let kind = match s.kind {
        SpecStmtKind::Declaration { name, value } => SpecStmtKind::Declaration {
            name,
            value: opt_expr_without_spans(value),
        },
        SpecStmtKind::Assign { lhs, rhs } => SpecStmtKind::Assign {
            lhs: expr_without_spans(lhs),
            rhs: expr_without_spans(rhs),
        },
        SpecStmtKind::ExprStmt(v) => SpecStmtKind::ExprStmt(expr_without_spans(v)),
        SpecStmtKind::Return(value) => SpecStmtKind::Return(opt_expr_without_spans(value)),
        SpecStmtKind::Unsupported { kind } => SpecStmtKind::Unsupported { kind },
    };
    SpecStatement { kind, span: no_span() }
}

pub open spec fn statements_without_spans(s: Seq<SpecStatement>) -> Seq<SpecStatement>
    decreases s.len(),
{
    if s.len() == 0 {
        Seq::empty()
    } else {
        statements_without_spans(s.subrange(0, s.len() - 1)).push(
            statement_without_spans(s[s.len() - 1]),
        )
    }
}

pub open spec fn function_without_spans(f: SpecFunction) -> SpecFunction {
    SpecFunction {
        name: f.name,
        params: f.params,
        body: SpecCompound {
            statements: statements_without_spans(f.body.statements),
            span: no_span(),
        },
        span: no_span(),
    }
}

pub open spec fn item_without_spans(i: SpecItem) -> SpecItem {
    let kind = match i.kind {
        SpecItemKind::Function(f) => SpecItemKind::Function(function_without_spans(f)),
        SpecItemKind::Unsupported { kind } => SpecItemKind::Unsupported { kind },
    };
    SpecItem { kind, span: no_span() }
}

pub open spec fn items_without_spans(s: Seq<SpecItem>) -> Seq<SpecItem>
    decreases s.len(),
{
    if s.len() == 0 {
        Seq::empty()
    } else {
        items_without_spans(s.subrange(0, s.len() - 1)).push(item_without_spans(s[s.len() - 1]))
    }
}

/// The unit with every span of every node moved to [`no_span`]: the same
/// tree, at no position.
pub open spec fn without_spans(u: SpecTranslationUnit) -> SpecTranslationUnit {
    SpecTranslationUnit { items: items_without_spans(u.items), span: no_span() }
}

proof fn lemma_expr_node_ignores_spans(e: SpecExpression)
    ensures
        expr_tree(expr_without_spans(e), false) == expr_tree(e, false),
    decreases e, 1int,
{
    match e.kind {
        SpecExprKind::BinaryOp { op, lhs, rhs } => {
            lemma_expr_node_ignores_spans(*lhs);
            lemma_expr_node_ignores_spans(*rhs);
        },
        SpecExprKind::Call { callee, args } => {
            lemma_expr_nodes_ignore_spans(args);
        },
        _ => {},
    }
}

proof fn lemma_expr_nodes_ignore_spans(s: Seq<SpecExpression>)
    ensures
        expr_trees(exprs_without_spans(s), false) == expr_trees(s, false),
    decreases s, 0int,
{
    if s.len() > 0 {
        let init = s.subrange(0, s.len() - 1);
        lemma_expr_nodes_ignore_spans(init);
        lemma_expr_node_ignores_spans(s[s.len() - 1]);
        let stripped = exprs_without_spans(s);
        assert(stripped.subrange(0, stripped.len() - 1) =~= exprs_without_spans(init));
    }
}

proof fn lemma_statement_nodes_ignore_spans(s: Seq<SpecStatement>)
    ensures
        statement_trees(statements_without_spans(s), false) == statement_trees(s, false),
    decreases s.len(),
{
    if s.len() > 0 {
        let init = s.subrange(0, s.len() - 1);
        lemma_statement_nodes_ignore_spans(init);
        let last = s[s.len() - 1];
        match last.kind {
            SpecStmtKind::Declaration { name, value } => {
                if let Some(v) = value {
                    lemma_expr_node_ignores_spans(v);
                }
            },
            SpecStmtKind::Assign { lhs, rhs } => {
                lemma_expr_node_ignores_spans(lhs);
                lemma_expr_node_ignores_spans(rhs);
            },
            SpecStmtKind::ExprStmt(v) => {
                lemma_expr_node_ignores_spans(v);
            },
            SpecStmtKind::Return(value) => {
                if let Some(v) = value {
                    lemma_expr_node_ignores_spans(v);
                }
            },
            _ => {},
        }
        let stripped = statements_without_spans(s);
        assert(stripped.subrange(0, stripped.len() - 1) =~= statements_without_spans(init));
    }
}

proof fn lemma_item_nodes_ignore_spans(s: Seq<SpecItem>)
    ensures
        item_trees(items_without_spans(s), false) == item_trees(s, false),
    decreases s.len(),
{
    if s.len() > 0 {
        let init = s.subrange(0, s.len() - 1);
        lemma_item_nodes_ignore_spans(init);
        if let SpecItemKind::Function(f) = s[s.len() - 1].kind {
            lemma_statement_nodes_ignore_spans(f.body.statements);
        }
        let stripped = items_without_spans(s);
        assert(stripped.subrange(0, stripped.len() - 1) =~= items_without_spans(init));
    }
}

/// [`dump`] does not see spans: a unit dumps exactly as the same tree with
/// every span moved to one position.
pub proof fn lemma_dump_ignores_spans(u: SpecTranslationUnit)
    ensures
        dumped(without_spans(u)) == dumped(u),
{
    lemma_item_nodes_ignore_spans(u.items);
}

/// Two units that differ only in their spans have the same [`dump`].
pub proof fn lemma_dump_equal_when_only_spans_differ(a: SpecTranslationUnit, b: SpecTranslationUnit)
    requires
        without_spans(a) == without_spans(b),
    ensures
        dumped(a) == dumped(b),
{
    lemma_dump_ignores_spans(a);
    lemma_dump_ignores_spans(b);
}

// ===========================================================================
// The dump with spans is the dump, line by line, with a span suffix
// ===========================================================================

/// What [`dump_with_spans`] adds to the label of a node at `span`.
pub open spec fn span_suffix(span: Span) -> Seq<char> {
    " @"@ + decimal(span.start as int) + ".."@ + decimal(span.end as int)
}

/// The lines of a rendered tree, each without its line break: the root's
/// label, then one line per descendant, behind its branch.
pub open spec fn tree_lines(root: SpecNode) -> Seq<Seq<char>> {
    seq![root.label] + children_lines(root.children, Seq::empty())
}

pub open spec fn children_lines(children: Seq<SpecNode>, prefix: Seq<char>) -> Seq<Seq<char>>
    decreases children, 0int,
{
    if children.len() == 0 {
        Seq::empty()
    } else {
        branch_lines(children.subrange(0, children.len() - 1), prefix) + entry_lines(
            children[children.len() - 1],
            prefix,
            true,
        )
    }
}

pub open spec fn branch_lines(children: Seq<SpecNode>, prefix: Seq<char>) -> Seq<Seq<char>>
    decreases children, 0int,
{
    if children.len() == 0 {
        Seq::empty()
    } else {
        branch_lines(children.subrange(0, children.len() - 1), prefix) + entry_lines(
            children[children.len() - 1],
            prefix,
            false,
        )
    }
}

pub open spec fn entry_lines(node: SpecNode, prefix: Seq<char>, last: bool) -> Seq<Seq<char>>
    decreases node, 1int,
{
    seq![
        prefix + (if last {
            "└─ "@
        } else {
            "├─ "@
        }) + node.label,
    ] + children_lines(
        node.children,
        prefix + if last {
            "   "@
        } else {
            "│  "@
        },
    )
}

/// Lines put back together, each followed by a line break.
pub open spec fn joined(lines: Seq<Seq<char>>) -> Seq<char>
    decreases lines.len(),
{
    if lines.len() == 0 {
        Seq::empty()
    } else {
        joined(lines.subrange(0, lines.len() - 1)) + lines[lines.len() - 1] + "\n"@
    }
}

proof fn lemma_joined_concat(a: Seq<Seq<char>>, b: Seq<Seq<char>>)
    ensures
        joined(a + b) == joined(a) + joined(b),
    decreases b.len(),
{
    if b.len() == 0 {
        assert(a + b =~= a);
        assert(joined(b) =~= Seq::<char>::empty());
        assert(joined(a) + joined(b) =~= joined(a));
    } else {
        let b0 = b.subrange(0, b.len() - 1);
        lemma_joined_concat(a, b0);
        assert((a + b).subrange(0, (a + b).len() - 1) =~= a + b0);
        assert((a + b)[(a + b).len() - 1] == b[b.len() - 1]);
        assert(joined(a) + joined(b) =~= joined(a) + joined(b0) + b[b.len() - 1] + "\n"@);
    }
}

proof fn lemma_joined_one(line: Seq<char>)
    ensures
        joined(seq![line]) == line + "\n"@,
{
    assert(seq![line].subrange(0, 0) =~= Seq::<Seq<char>>::empty());
    assert(joined(Seq::<Seq<char>>::empty()) + line + "\n"@ =~= line + "\n"@);
}

proof fn lemma_entry_text_lines(node: SpecNode, prefix: Seq<char>, last: bool)
    ensures
        entry_text(node, prefix, last) == joined(entry_lines(node, prefix, last)),
    decreases node, 1int,
{
    let branch = if last {
        "└─ "@
    } else {
        "├─ "@
    };
    let pad = if last {
        "   "@
    } else {
        "│  "@
    };
    let head = prefix + branch + node.label;
    lemma_children_text_lines(node.children, prefix + pad);
    lemma_joined_concat(seq![head], children_lines(node.children, prefix + pad));
    lemma_joined_one(head);
    assert(entry_text(node, prefix, last) =~= head + "\n"@ + children_text(
        node.children,
        prefix + pad,
    ));
}

proof fn lemma_children_text_lines(children: Seq<SpecNode>, prefix: Seq<char>)
    ensures
        children_text(children, prefix) == joined(children_lines(children, prefix)),
        branch_text(children, prefix) == joined(branch_lines(children, prefix)),
    decreases children, 0int,
{
    if children.len() > 0 {
        let init = children.subrange(0, children.len() - 1);
        let last = children[children.len() - 1];
        lemma_children_text_lines(init, prefix);
        lemma_entry_text_lines(last, prefix, true);
        lemma_entry_text_lines(last, prefix, false);
        lemma_joined_concat(branch_lines(init, prefix), entry_lines(last, prefix, true));
        lemma_joined_concat(branch_lines(init, prefix), entry_lines(last, prefix, false));
    } else {
        assert(joined(Seq::<Seq<char>>::empty()) =~= Seq::<char>::empty());
    }
}

/// A rendered tree is its [`tree_lines`], each ended by a line break.
pub proof fn lemma_tree_text_is_its_lines(root: SpecNode)
    ensures
        tree_text(root) == joined(tree_lines(root)),
{
    lemma_children_text_lines(root.children, Seq::empty());
    lemma_joined_concat(seq![root.label], children_lines(root.children, Seq::empty()));
    lemma_joined_one(root.label);
}

// ---------------------------------------------------------------------------
// Which span each line carries
// ---------------------------------------------------------------------------

/// The spans of the nodes an expression renders as, in the order of their
/// lines: the expression's own, then its operands' or arguments'.
pub open spec fn expr_spans(e: SpecExpression) -> Seq<Span>
    decreases e, 1int,
{
    seq![e.span] + match e.kind {
        SpecExprKind::BinaryOp { lhs, rhs, .. } => expr_spans(*lhs) + expr_spans(*rhs),
        SpecExprKind::Call { args, .. } => exprs_spans(args),
        _ => Seq::empty(),
    }
}

pub open spec fn exprs_spans(s: Seq<SpecExpression>) -> Seq<Span>
    decreases s, 0int,
{
    if s.len() == 0 {
        Seq::empty()
    } else {
        exprs_spans(s.subrange(0, s.len() - 1)) + expr_spans(s[s.len() - 1])
    }
}

pub open spec fn opt_expr_spans(e: Option<SpecExpression>) -> Seq<Span> {
    match e {
        Some(e) => expr_spans(e),
        None => Seq::empty(),
    }
}

/// The statement's own span, then those of the expressions beneath it.
pub open spec fn statement_spans(st: SpecStatement) -> Seq<Span> {
    seq![st.span] + match st.kind {
        SpecStmtKind::Declaration { value, .. } => opt_expr_spans(value),
        SpecStmtKind::Assign { lhs, rhs } => expr_spans(lhs) + expr_spans(rhs),
        SpecStmtKind::ExprStmt(e) => expr_spans(e),
        SpecStmtKind::Return(value) => opt_expr_spans(value),
        SpecStmtKind::Unsupported { .. } => Seq::empty(),
    }
}

pub open spec fn statements_spans(s: Seq<SpecStatement>) -> Seq<Span>
    decreases s.len(),
{
    if s.len() == 0 {
        Seq::empty()
    } else {
        statements_spans(s.subrange(0, s.len() - 1)) + statement_spans(s[s.len() - 1])
    }
}

/// A function's span, its body's, then its statements'; an unmodelled
/// item's own span.
pub open spec fn item_spans(i: SpecItem) -> Seq<Span> {
    match i.kind {
        SpecItemKind::Function(f) => seq![f.span] + (seq![f.body.span] + statements_spans(
            f.body.statements,
        )),
        SpecItemKind::Unsupported { .. } => seq![i.span],
    }
}

pub open spec fn items_spans(s: Seq<SpecItem>) -> Seq<Span>
    decreases s.len(),
{
    if s.len() == 0 {
        Seq::empty()
    } else {
        items_spans(s.subrange(0, s.len() - 1)) + item_spans(s[s.len() - 1])
    }
}

/// The span of the node each line of a dump renders, in the order of the
/// lines: the unit, then each item, its body, statements and expressions.
pub open spec fn unit_spans(u: SpecTranslationUnit) -> Seq<Span> {
    seq![u.span] + items_spans(u.items)
}

/// Each line followed by the suffix of the matching span.
pub open spec fn with_suffixes(lines: Seq<Seq<char>>, spans: Seq<Span>) -> Seq<Seq<char>> {
    Seq::new(lines.len(), |i: int| lines[i] + span_suffix(spans[i]))
}

/// The number of nodes of a tree.
pub open spec fn tree_size(n: SpecNode) -> nat
    decreases n, 1int,
{
    1 + trees_size(n.children)
}

pub open spec fn trees_size(s: Seq<SpecNode>) -> nat
    decreases s, 0int,
{
    if s.len() == 0 {
        0
    } else {
        trees_size(s.subrange(0, s.len() - 1)) + tree_size(s[s.len() - 1])
    }
}

/// `node` is `plain` with the suffix of `spans[k]` on the label of its
/// `k`-th node, counted in the order of the lines.
pub open spec fn node_suffixed(node: SpecNode, plain: SpecNode, spans: Seq<Span>) -> bool
    decreases node, 1int,
{
    &&& spans.len() == tree_size(plain)
    &&& node.label == plain.label + span_suffix(spans[0])
    &&& nodes_suffixed(node.children, plain.children, spans.subrange(1, spans.len() as int))
}

pub open spec fn nodes_suffixed(nodes: Seq<SpecNode>, plain: Seq<SpecNode>, spans: Seq<Span>) -> bool
    decreases nodes, 0int,
{
    &&& nodes.len() == plain.len()
    &&& spans.len() == trees_size(plain)
    &&& nodes.len() > 0 ==> {
        let k = trees_size(plain.subrange(0, plain.len() - 1)) as int;
        &&& nodes_suffixed(
            nodes.subrange(0, nodes.len() - 1),
            plain.subrange(0, plain.len() - 1),
            spans.subrange(0, k),
        )
        &&& node_suffixed(nodes[nodes.len() - 1], plain[plain.len() - 1], spans.subrange(k, spans.len() as int))
    }
}

proof fn lemma_with_suffixes_concat(a: Seq<Seq<char>>, sa: Seq<Span>, b: Seq<Seq<char>>, sb: Seq<Span>)
    requires
        a.len() == sa.len(),
        b.len() == sb.len(),
    ensures
        with_suffixes(a + b, sa + sb) == with_suffixes(a, sa) + with_suffixes(b, sb),
{
    assert(with_suffixes(a + b, sa + sb) =~= with_suffixes(a, sa) + with_suffixes(b, sb));
}

proof fn lemma_entry_lines_suffixed(node: SpecNode, plain: SpecNode, spans: Seq<Span>, prefix: Seq<char>, last: bool)
    requires
        node_suffixed(node, plain, spans),
    ensures
        entry_lines(plain, prefix, last).len() == tree_size(plain),
        entry_lines(node, prefix, last) == with_suffixes(entry_lines(plain, prefix, last), spans),
    decreases node, 1int,
{
    let branch = if last {
        "└─ "@
    } else {
        "├─ "@
    };
    let pad = if last {
        "   "@
    } else {
        "│  "@
    };
    let rest = spans.subrange(1, spans.len() as int);
    lemma_children_lines_suffixed(node.children, plain.children, rest, prefix + pad);
    let head = prefix + branch + plain.label;
    assert(prefix + branch + node.label =~= head + span_suffix(spans[0]));
    assert(spans =~= seq![spans[0]] + rest);
    assert(with_suffixes(seq![head], seq![spans[0]]) =~= seq![head + span_suffix(spans[0])]);
    lemma_with_suffixes_concat(
        seq![head],
        seq![spans[0]],
        children_lines(plain.children, prefix + pad),
        rest,
    );
}

proof fn lemma_children_lines_suffixed(nodes: Seq<SpecNode>, plain: Seq<SpecNode>, spans: Seq<Span>, prefix: Seq<char>)
    requires
        nodes_suffixed(nodes, plain, spans),
    ensures
        children_lines(plain, prefix).len() == trees_size(plain),
        branch_lines(plain, prefix).len() == trees_size(plain),
        children_lines(nodes, prefix) == with_suffixes(children_lines(plain, prefix), spans),
        branch_lines(nodes, prefix) == with_suffixes(branch_lines(plain, prefix), spans),
    decreases nodes, 0int,
{
    if nodes.len() == 0 {
        assert(with_suffixes(Seq::<Seq<char>>::empty(), spans) =~= Seq::<Seq<char>>::empty());
    } else {
        let init = nodes.subrange(0, nodes.len() - 1);
        let pinit = plain.subrange(0, plain.len() - 1);
        let k = trees_size(pinit) as int;
        let s1 = spans.subrange(0, k);
        let s2 = spans.subrange(k, spans.len() as int);
        let last = nodes[nodes.len() - 1];
        let plast = plain[plain.len() - 1];
        lemma_children_lines_suffixed(init, pinit, s1, prefix);
        lemma_entry_lines_suffixed(last, plast, s2, prefix, true);
        lemma_entry_lines_suffixed(last, plast, s2, prefix, false);
        assert(spans =~= s1 + s2);
        lemma_with_suffixes_concat(
            branch_lines(pinit, prefix),
            s1,
            entry_lines(plast, prefix, true),
            s2,
        );
        lemma_with_suffixes_concat(
            branch_lines(pinit, prefix),
            s1,
            entry_lines(plast, prefix, false),
            s2,
        );
    }
}

proof fn lemma_no_nodes_suffixed()
    ensures
        nodes_suffixed(Seq::empty(), Seq::empty(), Seq::empty()),
{
}

proof fn lemma_labelled_suffixed(label: Seq<char>, span: Span)
    ensures
        labelled(label, span, true) == labelled(label, span, false) + span_suffix(span),
{
    assert(labelled(label, span, true) =~= label + span_suffix(span));
}

/// A node whose label gets the suffix of `span`, above children that match.
proof fn lemma_node_suffixed(node: SpecNode, plain: SpecNode, span: Span, rest: Seq<Span>)
    requires
        node.label == plain.label + span_suffix(span),
        nodes_suffixed(node.children, plain.children, rest),
    ensures
        node_suffixed(node, plain, seq![span] + rest),
{
    assert((seq![span] + rest).subrange(1, (seq![span] + rest).len() as int) =~= rest);
}

proof fn lemma_one_node_suffixed(a: SpecNode, b: SpecNode, sa: Seq<Span>)
    requires
        node_suffixed(a, b, sa),
    ensures
        nodes_suffixed(seq![a], seq![b], sa),
{
    assert(seq![a].subrange(0, 0) =~= Seq::<SpecNode>::empty());
    assert(seq![b].subrange(0, 0) =~= Seq::<SpecNode>::empty());
    assert(sa.subrange(0, 0) =~= Seq::<Span>::empty());
    assert(sa.subrange(0, sa.len() as int) =~= sa);
    lemma_no_nodes_suffixed();
}

proof fn lemma_push_node_suffixed(
    nodes: Seq<SpecNode>,
    plain: Seq<SpecNode>,
    spans: Seq<Span>,
    a: SpecNode,
    b: SpecNode,
    sa: Seq<Span>,
)
    requires
        nodes_suffixed(nodes, plain, spans),
        node_suffixed(a, b, sa),
    ensures
        nodes_suffixed(nodes.push(a), plain.push(b), spans + sa),
{
    assert(nodes.push(a).subrange(0, nodes.len() as int) =~= nodes);
    assert(plain.push(b).subrange(0, plain.len() as int) =~= plain);
    assert((spans + sa).subrange(0, spans.len() as int) =~= spans);
    assert((spans + sa).subrange(spans.len() as int, (spans + sa).len() as int) =~= sa);
}

proof fn lemma_two_nodes_suffixed(
    a1: SpecNode,
    a2: SpecNode,
    b1: SpecNode,
    b2: SpecNode,
    s1: Seq<Span>,
    s2: Seq<Span>,
)
    requires
        node_suffixed(a1, b1, s1),
        node_suffixed(a2, b2, s2),
    ensures
        nodes_suffixed(seq![a1, a2], seq![b1, b2], s1 + s2),
{
    lemma_one_node_suffixed(a1, b1, s1);
    lemma_push_node_suffixed(seq![a1], seq![b1], s1, a2, b2, s2);
    assert(seq![a1].push(a2) =~= seq![a1, a2]);
    assert(seq![b1].push(b2) =~= seq![b1, b2]);
}

proof fn lemma_expr_tree_suffixed(e: SpecExpression)
    ensures
        node_suffixed(expr_tree(e, true), expr_tree(e, false), expr_spans(e)),
    decreases e, 1int,
{
    lemma_labelled_suffixed(expr_tree(e, false).label, e.span);
    let rest = match e.kind {
        SpecExprKind::BinaryOp { lhs, rhs, .. } => expr_spans(*lhs) + expr_spans(*rhs),
        SpecExprKind::Call { args, .. } => exprs_spans(args),
        _ => Seq::empty(),
    };
    match e.kind {
        SpecExprKind::BinaryOp { op, lhs, rhs } => {
            lemma_expr_tree_suffixed(*lhs);
            lemma_expr_tree_suffixed(*rhs);
            lemma_two_nodes_suffixed(
                expr_tree(*lhs, true),
                expr_tree(*rhs, true),
                expr_tree(*lhs, false),
                expr_tree(*rhs, false),
                expr_spans(*lhs),
                expr_spans(*rhs),
            );
        },
        SpecExprKind::Call { callee, args } => {
            lemma_expr_trees_suffixed(args);
        },
        _ => {
            lemma_no_nodes_suffixed();
        },
    }
    lemma_node_suffixed(expr_tree(e, true), expr_tree(e, false), e.span, rest);
}

proof fn lemma_expr_trees_suffixed(s: Seq<SpecExpression>)
    ensures
        nodes_suffixed(expr_trees(s, true), expr_trees(s, false), exprs_spans(s)),
    decreases s, 0int,
{
    if s.len() == 0 {
        lemma_no_nodes_suffixed();
    } else {
        let init = s.subrange(0, s.len() - 1);
        lemma_expr_trees_suffixed(init);
        lemma_expr_tree_suffixed(s[s.len() - 1]);
        lemma_push_node_suffixed(
            expr_trees(init, true),
            expr_trees(init, false),
            exprs_spans(init),
            expr_tree(s[s.len() - 1], true),
            expr_tree(s[s.len() - 1], false),
            expr_spans(s[s.len() - 1]),
        );
    }
}

proof fn lemma_opt_expr_trees_suffixed(e: Option<SpecExpression>)
    ensures
        nodes_suffixed(opt_expr_trees(e, true), opt_expr_trees(e, false), opt_expr_spans(e)),
{
    if let Some(v) = e {
        lemma_expr_tree_suffixed(v);
        lemma_one_node_suffixed(expr_tree(v, true), expr_tree(v, false), expr_spans(v));
    } else {
        lemma_no_nodes_suffixed();
    }
}

proof fn lemma_statement_tree_suffixed(st: SpecStatement)
    ensures
        node_suffixed(statement_tree(st, true), statement_tree(st, false), statement_spans(st)),
{
    lemma_labelled_suffixed(statement_tree(st, false).label, st.span);
    lemma_statement_tree_shape(st, true);
    lemma_statement_tree_shape(st, false);
    let rest = match st.kind {
        SpecStmtKind::Declaration { value, .. } => opt_expr_spans(value),
        SpecStmtKind::Assign { lhs, rhs } => expr_spans(lhs) + expr_spans(rhs),
        SpecStmtKind::ExprStmt(e) => expr_spans(e),
        SpecStmtKind::Return(value) => opt_expr_spans(value),
        SpecStmtKind::Unsupported { .. } => Seq::empty(),
    };
    match st.kind {
        SpecStmtKind::Declaration { name, value } => {
            lemma_opt_expr_trees_suffixed(value);
        },
        SpecStmtKind::Assign { lhs, rhs } => {
            lemma_expr_tree_suffixed(lhs);
            lemma_expr_tree_suffixed(rhs);
            lemma_two_nodes_suffixed(
                expr_tree(lhs, true),
                expr_tree(rhs, true),
                expr_tree(lhs, false),
                expr_tree(rhs, false),
                expr_spans(lhs),
                expr_spans(rhs),
            );
        },
        SpecStmtKind::ExprStmt(v) => {
            lemma_expr_tree_suffixed(v);
            lemma_one_node_suffixed(expr_tree(v, true), expr_tree(v, false), expr_spans(v));
        },
        SpecStmtKind::Return(value) => {
            lemma_opt_expr_trees_suffixed(value);
        },
        _ => {
            lemma_no_nodes_suffixed();
        },
    }
    lemma_node_suffixed(statement_tree(st, true), statement_tree(st, false), st.span, rest);
}

proof fn lemma_statement_trees_suffixed(s: Seq<SpecStatement>)
    ensures
        nodes_suffixed(statement_trees(s, true), statement_trees(s, false), statements_spans(s)),
    decreases s.len(),
{
    if s.len() == 0 {
        lemma_no_nodes_suffixed();
    } else {
        let init = s.subrange(0, s.len() - 1);
        lemma_statement_trees_suffixed(init);
        lemma_statement_tree_suffixed(s[s.len() - 1]);
        lemma_push_node_suffixed(
            statement_trees(init, true),
            statement_trees(init, false),
            statements_spans(init),
            statement_tree(s[s.len() - 1], true),
            statement_tree(s[s.len() - 1], false),
            statement_spans(s[s.len() - 1]),
        );
    }
}

proof fn lemma_item_tree_suffixed(i: SpecItem)
    ensures
        node_suffixed(item_tree(i, true), item_tree(i, false), item_spans(i)),
{
    match i.kind {
        SpecItemKind::Function(f) => {
            let c = f.body;
            lemma_labelled_suffixed(item_tree(i, false).label, f.span);
            lemma_labelled_suffixed("Compound"@, c.span);
            lemma_statement_trees_suffixed(c.statements);
            lemma_node_suffixed(
                compound_tree(c, true),
                compound_tree(c, false),
                c.span,
                statements_spans(c.statements),
            );
            let cs = seq![c.span] + statements_spans(c.statements);
            lemma_one_node_suffixed(compound_tree(c, true), compound_tree(c, false), cs);
            lemma_node_suffixed(item_tree(i, true), item_tree(i, false), f.span, cs);
        },
        SpecItemKind::Unsupported { kind } => {
            lemma_labelled_suffixed("Unsupported item "@ + kind, i.span);
            lemma_no_nodes_suffixed();
            lemma_node_suffixed(item_tree(i, true), item_tree(i, false), i.span, Seq::empty());
            assert(seq![i.span] + Seq::<Span>::empty() =~= seq![i.span]);
        },
    }
}

proof fn lemma_item_trees_suffixed(s: Seq<SpecItem>)
    ensures
        nodes_suffixed(item_trees(s, true), item_trees(s, false), items_spans(s)),
    decreases s.len(),
{
    if s.len() == 0 {
        lemma_no_nodes_suffixed();
    } else {
        let init = s.subrange(0, s.len() - 1);
        lemma_item_trees_suffixed(init);
        lemma_item_tree_suffixed(s[s.len() - 1]);
        lemma_push_node_suffixed(
            item_trees(init, true),
            item_trees(init, false),
            items_spans(init),
            item_tree(s[s.len() - 1], true),
            item_tree(s[s.len() - 1], false),
            item_spans(s[s.len() - 1]),
        );
    }
}

/// [`dump_with_spans`] is [`dump`] with, on every line, the span of the node
/// that line renders: both are their lines each ended by a line break, there
/// are as many lines as [`unit_spans`] lists spans, and each line of the
/// first is the matching line of the second followed by ` @start..end` of
/// the matching span, the span of that line's unit, function, unmodelled
/// item, body, statement or expression.
pub proof fn lemma_dump_with_spans_suffixes_each_line(u: SpecTranslationUnit)
    ensures
        dumped(u) == joined(tree_lines(unit_tree(u, false))),
        dumped_with_spans(u) == joined(tree_lines(unit_tree(u, true))),
        tree_lines(unit_tree(u, false)).len() == unit_spans(u).len(),
        tree_lines(unit_tree(u, true)) == with_suffixes(tree_lines(unit_tree(u, false)), unit_spans(u)),
{
    lemma_tree_text_is_its_lines(unit_tree(u, false));
    lemma_tree_text_is_its_lines(unit_tree(u, true));
    lemma_item_trees_suffixed(u.items);
    lemma_labelled_suffixed("TranslationUnit"@, u.span);
    let items_true = unit_tree(u, true).children;
    let items_false = unit_tree(u, false).children;
    lemma_children_lines_suffixed(items_true, items_false, items_spans(u.items), Seq::empty());
    let root = unit_tree(u, false).label;
    assert(with_suffixes(seq![root], seq![u.span]) =~= seq![unit_tree(u, true).label]);
    lemma_with_suffixes_concat(
        seq![root],
        seq![u.span],
        children_lines(items_false, Seq::empty()),
        items_spans(u.items),
    );
}

// ===========================================================================
// Rendering
// ===========================================================================

/// Renders `unit` as a tree, without spans.
pub fn dump(unit: &TranslationUnit) -> (text: String)
    ensures
        text@ == dumped(unit@),
{
    render(&unit_node(unit, Spans::Hide))
}

/// Renders `unit` as a tree, annotating every node with its byte range.
pub fn dump_with_spans(unit: &TranslationUnit) -> (text: String)
    ensures
        text@ == dumped_with_spans(unit@),
{
    render(&unit_node(unit, Spans::Show))
}

#[derive(Clone, Copy, PartialEq, Eq, Structural)]
enum Spans {
    Show,
    Hide,
}

/// An already-labelled node. Building this first keeps the walk over the CAst
/// separate from the box drawing, which only needs to know how many children
/// each node has.
struct Node {
    label: String,
    children: Vec<Node>,
}

spec fn node_model(n: Node) -> SpecNode
    decreases n,
{
    SpecNode { label: n.label@, children: nodes_model(n.children@) }
}

spec fn nodes_model(s: Seq<Node>) -> Seq<SpecNode>
    decreases s,
{
    if s.len() == 0 {
        Seq::empty()
    } else {
        nodes_model(s.subrange(0, s.len() - 1)).push(node_model(s[s.len() - 1]))
    }
}

proof fn lemma_nodes_model_push(s: Seq<Node>, n: Node)
    ensures
        nodes_model(s.push(n)) == nodes_model(s).push(node_model(n)),
{
    assert(s.push(n).subrange(0, s.len() as int) =~= s);
}

proof fn lemma_nodes_model(s: Seq<Node>)
    ensures
        nodes_model(s).len() == s.len(),
        forall|i: int| 0 <= i < s.len() ==> #[trigger] nodes_model(s)[i] == node_model(s[i]),
    decreases s.len(),
{
    if s.len() > 0 {
        lemma_nodes_model(s.subrange(0, s.len() - 1));
    }
}

impl Node {
    fn new(label: String, span: Span, spans: Spans, children: Vec<Node>) -> (node: Self)
        ensures
            node_model(node) == (SpecNode {
                label: labelled(label@, span, spans == Spans::Show),
                children: nodes_model(children@),
            }),
    {
        let mut label = label;
        if spans == Spans::Show {
            label.append(" @");
            push_decimal_usize(&mut label, span.start);
            label.append("..");
            push_decimal_usize(&mut label, span.end);
        }
        Node { label, children }
    }

    fn leaf(label: String, span: Span, spans: Spans) -> (node: Self)
        ensures
            node_model(node) == leaf(label@, span, spans == Spans::Show),
    {
        Node::new(label, span, spans, Vec::new())
    }
}

const LAST: &'static str = "└─ ";

const BRANCH: &'static str = "├─ ";

const GAP: &'static str = "   ";

const TRUNK: &'static str = "│  ";

fn render(root: &Node) -> (text: String)
    ensures
        text@ == tree_text(node_model(*root)),
{
    let mut out = String::new();
    out.append(root.label.as_str());
    out.append("\n");
    proof {
        reveal_strlit("");
        assert(""@ =~= Seq::<char>::empty());
    }
    write_children(&mut out, root, "");
    out
}

fn write_children(out: &mut String, node: &Node, prefix: &str)
    ensures
        final(out)@ == old(out)@ + children_text(nodes_model(node.children@), prefix@),
    decreases node,
{
    let ghost models = nodes_model(node.children@);
    proof {
        lemma_nodes_model(node.children@);
    }
    if node.children.len() == 0 {
        assert(old(out)@ + children_text(models, prefix@) =~= old(out)@);
        return;
    }
    let last = node.children.len() - 1;
    let mut index: usize = 0;
    while index < node.children.len()
        invariant
            last + 1 == node.children@.len(),
            index <= node.children@.len(),
            models == nodes_model(node.children@),
            models.len() == node.children@.len(),
            forall|j: int| 0 <= j < models.len() ==> #[trigger] models[j] == node_model(node.children@[j]),
            index <= last ==> out@ == old(out)@ + branch_text(models.subrange(0, index as int), prefix@),
            index > last ==> out@ == old(out)@ + children_text(models, prefix@),
        decreases node.children@.len() - index,
    {
        let child = &node.children[index];
        let is_last = index == last;
        let ghost before = out@;
        proof {
            let next = models.subrange(0, index + 1);
            assert(next.subrange(0, next.len() - 1) =~= models.subrange(0, index as int));
            if is_last {
                assert(models.subrange(0, models.len() - 1) =~= models.subrange(0, index as int));
            }
        }
        out.append(prefix);
        out.append(
            if is_last {
                LAST
            } else {
                BRANCH
            },
        );
        out.append(child.label.as_str());
        out.append("\n");
        let mut deeper = prefix.to_string();
        deeper.append(
            if is_last {
                GAP
            } else {
                TRUNK
            },
        );
        write_children(out, child, deeper.as_str());
        proof {
            assert(models[index as int] == node_model(*child));
            assert(out@ =~= before + entry_text(models[index as int], prefix@, is_last));
        }
        index = index + 1;
    }
}

fn unit_node(unit: &TranslationUnit, spans: Spans) -> (node: Node)
    ensures
        node_model(node) == unit_tree(unit@, spans == Spans::Show),
{
    let ghost show = spans == Spans::Show;
    let mut items: Vec<Node> = Vec::new();
    let mut i: usize = 0;
    while i < unit.items.len()
        invariant
            i <= unit.items@.len(),
            show == (spans == Spans::Show),
            nodes_model(items@) == item_trees(items_model(unit.items@.subrange(0, i as int)), show),
        decreases unit.items@.len() - i,
    {
        proof {
            let next = items_model(unit.items@.subrange(0, i + 1));
            assert(next.subrange(0, next.len() - 1) =~= items_model(
                unit.items@.subrange(0, i as int),
            ));
        }
        let n = item_node(&unit.items[i], spans);
        proof {
            lemma_nodes_model_push(items@, n);
        }
        items.push(n);
        i = i + 1;
    }
    assert(unit.items@.subrange(0, unit.items@.len() as int) =~= unit.items@);
    Node::new("TranslationUnit".to_string(), unit.span, spans, items)
}

fn item_node(item: &Item, spans: Spans) -> (node: Node)
    ensures
        node_model(node) == item_tree(item@, spans == Spans::Show),
{
    match &item.kind {
        ItemKind::Function(function) => function_node(function, spans),
        ItemKind::Unsupported { kind } => {
            let mut label = "Unsupported item ".to_string();
            label.append(kind.as_str());
            Node::leaf(label, item.span, spans)
        },
    }
}

fn function_node(function: &Function, spans: Spans) -> (node: Node)
    ensures
        node_model(node) == function_tree(function@, spans == Spans::Show),
{
    // Parameters are `Identifier`s, not nodes: they carry no span of their
    // own, so they belong in the label rather than as children.
    let mut params = String::new();
    let mut i: usize = 0;
    while i < function.params.len()
        invariant
            i <= function.params@.len(),
            params@ == names_text(idents_model(function.params@.subrange(0, i as int))),
        decreases function.params@.len() - i,
    {
        proof {
            let next = idents_model(function.params@.subrange(0, i + 1));
            assert(next.subrange(0, next.len() - 1) =~= idents_model(
                function.params@.subrange(0, i as int),
            ));
        }
        if i > 0 {
            params.append(", ");
        }
        params.append(function.params[i].0.as_str());
        i = i + 1;
    }
    assert(function.params@.subrange(0, function.params@.len() as int) =~= function.params@);
    let mut label = "Function ".to_string();
    label.append(function.name.0.as_str());
    label.append(" params: [");
    label.append(params.as_str());
    label.append("]");
    let body = compound_node(&function.body, spans);
    let children = vec![body];
    proof {
        lemma_nodes_model_push(Seq::empty(), body);
        assert(Seq::<Node>::empty().push(body) =~= children@);
        assert(nodes_model(Seq::<Node>::empty()) =~= Seq::<SpecNode>::empty());
    }
    Node::new(label, function.span, spans, children)
}

fn compound_node(compound: &Compound, spans: Spans) -> (node: Node)
    ensures
        node_model(node) == compound_tree(compound@, spans == Spans::Show),
{
    let ghost show = spans == Spans::Show;
    let mut statements: Vec<Node> = Vec::new();
    let mut i: usize = 0;
    while i < compound.statements.len()
        invariant
            i <= compound.statements@.len(),
            show == (spans == Spans::Show),
            nodes_model(statements@) == statement_trees(
                stmts_model(compound.statements@.subrange(0, i as int)),
                show,
            ),
        decreases compound.statements@.len() - i,
    {
        proof {
            let next = stmts_model(compound.statements@.subrange(0, i + 1));
            assert(next.subrange(0, next.len() - 1) =~= stmts_model(
                compound.statements@.subrange(0, i as int),
            ));
        }
        let n = statement_node(&compound.statements[i], spans);
        proof {
            lemma_nodes_model_push(statements@, n);
        }
        statements.push(n);
        i = i + 1;
    }
    assert(compound.statements@.subrange(0, compound.statements@.len() as int)
        =~= compound.statements@);
    Node::new("Compound".to_string(), compound.span, spans, statements)
}

/// The nodes of an optional expression: none or one.
fn optional_expression_nodes(value: &Option<Expression>, spans: Spans) -> (nodes: Vec<Node>)
    ensures
        nodes_model(nodes@) == opt_expr_trees(
            match value {
                Some(e) => Some(expr_model(*e)),
                None => None,
            },
            spans == Spans::Show,
        ),
{
    let mut nodes: Vec<Node> = Vec::new();
    if let Some(value) = value {
        let n = expression_node(value, spans);
        proof {
            lemma_nodes_model_push(nodes@, n);
            assert(nodes_model(Seq::<Node>::empty()) =~= Seq::<SpecNode>::empty());
        }
        nodes.push(n);
    }
    nodes
}

fn two_nodes(first: Node, second: Node) -> (nodes: Vec<Node>)
    ensures
        nodes_model(nodes@) == seq![node_model(first), node_model(second)],
{
    let mut nodes: Vec<Node> = Vec::new();
    proof {
        lemma_nodes_model_push(Seq::empty(), first);
        lemma_nodes_model_push(seq![first], second);
        assert(Seq::<Node>::empty().push(first) =~= seq![first]);
        assert(seq![first].push(second) =~= seq![first, second]);
        assert(nodes_model(Seq::<Node>::empty()) =~= Seq::<SpecNode>::empty());
    }
    nodes.push(first);
    nodes.push(second);
    nodes
}

fn statement_node(statement: &Statement, spans: Spans) -> (node: Node)
    ensures
        node_model(node) == statement_tree(statement@, spans == Spans::Show),
{
    let (label, children) = match &statement.kind {
        StmtKind::Declaration { name, value } => {
            let mut label = "Declaration ".to_string();
            label.append(name.0.as_str());
            (label, optional_expression_nodes(value, spans))
        },
        StmtKind::Assign { lhs, rhs } => (
            "Assign".to_string(),
            two_nodes(expression_node(lhs, spans), expression_node(rhs, spans)),
        ),
        StmtKind::ExprStmt(value) => {
            let n = expression_node(value, spans);
            let children = vec![n];
            proof {
                lemma_nodes_model_push(Seq::empty(), n);
                assert(Seq::<Node>::empty().push(n) =~= children@);
                assert(nodes_model(Seq::<Node>::empty()) =~= Seq::<SpecNode>::empty());
            }
            ("ExprStmt".to_string(), children)
        },
        StmtKind::Return(value) => ("Return".to_string(), optional_expression_nodes(value, spans)),
        StmtKind::Unsupported { kind } => {
            let mut label = "Unsupported statement ".to_string();
            label.append(kind.as_str());
            let children: Vec<Node> = Vec::new();
            proof {
                assert(nodes_model(children@) =~= Seq::<SpecNode>::empty());
            }
            (label, children)
        },
    };
    Node::new(label, statement.span, spans, children)
}

fn expression_node(expression: &Expression, spans: Spans) -> (node: Node)
    ensures
        node_model(node) == expr_tree(expression@, spans == Spans::Show),
    decreases expression,
{
    let span = expression.span;
    match &expression.kind {
        ExprKind::Variable(Identifier(name)) => {
            let mut label = "Variable ".to_string();
            label.append(name.as_str());
            Node::leaf(label, span, spans)
        },
        ExprKind::Int(value) => {
            let mut label = "Int ".to_string();
            push_decimal_i64(&mut label, *value);
            Node::leaf(label, span, spans)
        },
        ExprKind::String(value) => {
            let mut label = "String ".to_string();
            label.append(quote(value.as_str()).as_str());
            Node::leaf(label, span, spans)
        },
        ExprKind::BinaryOp { op, lhs, rhs } => {
            let mut label = "BinaryOp ".to_string();
            label.append(op_name(op));
            Node::new(
                label,
                span,
                spans,
                two_nodes(expression_node(lhs, spans), expression_node(rhs, spans)),
            )
        },
        ExprKind::Call { callee, args } => {
            let ghost show = spans == Spans::Show;
            let ghost models = exprs_model(args@);
            proof {
                lemma_exprs_model(args@);
            }
            let mut children: Vec<Node> = Vec::new();
            let mut i: usize = 0;
            while i < args.len()
                invariant
                    i <= args@.len(),
                    show == (spans == Spans::Show),
                    expression.kind is Call,
                    expression.kind->args == *args,
                    models == exprs_model(args@),
                    models.len() == args@.len(),
                    forall|j: int| 0 <= j < args@.len() ==> #[trigger] models[j] == expr_model(args@[j]),
                    nodes_model(children@) == expr_trees(models.subrange(0, i as int), show),
                decreases args@.len() - i,
            {
                proof {
                    let next = models.subrange(0, i + 1);
                    assert(next.subrange(0, next.len() - 1) =~= models.subrange(0, i as int));
                }
                let n = expression_node(&args[i], spans);
                proof {
                    lemma_nodes_model_push(children@, n);
                }
                children.push(n);
                i = i + 1;
            }
            assert(models.subrange(0, models.len() as int) =~= models);
            let mut label = "Call ".to_string();
            label.append(callee.0.as_str());
            Node::new(label, span, spans, children)
        },
        ExprKind::Unsupported { kind } => {
            let mut label = "Unsupported expression ".to_string();
            label.append(kind.as_str());
            Node::leaf(label, span, spans)
        },
    }
}

fn op_name(op: &BinOp) -> (name: &'static str)
    ensures
        name@ == op_name_of(*op),
{
    match op {
        BinOp::Add => "Add",
        BinOp::Sub => "Sub",
        BinOp::Mul => "Mul",
        BinOp::Div => "Div",
    }
}

} // verus!
