//! The C AST (`CAst`): an owned representation of C that does not depend on
//! the parser it was read with.
//!
//! This module is the tree and the two ways to render it ([`print`],
//! [`dump`]); nothing here rewrites. [`crate::lower`] builds these types from
//! a syntax tree and [`crate::normalize`] rewrites them.
//!
//! Every node is a struct carrying a `kind` and a `Span`. `Identifier` is the
//! exception: it is a name, not a node, so it carries no span.
//!
//! Each type has a mathematical model (`Spec*`), reached through `@`; every
//! contract in the crate is stated over those models.
use vstd::prelude::*;

use crate::span::Span;

pub mod dump;
pub mod print;

pub use dump::{dump, dump_with_spans};
pub use print::print;

verus! {

// ===========================================================================
// The tree
// ===========================================================================

#[derive(Debug, Clone, PartialEq, Eq, Hash)]
pub struct Identifier(pub String);

#[derive(Debug, Clone)]
pub struct TranslationUnit {
    pub items: Vec<Item>,
    pub span: Span,
}

/// A top-level construct. Anything that is not a function definition (a
/// global, a `typedef`, a struct definition, a preprocessor directive) is
/// [`ItemKind::Unsupported`] rather than absent, so nothing at the top level
/// is dropped silently.
#[derive(Debug, Clone)]
pub struct Item {
    pub kind: ItemKind,
    pub span: Span,
}

#[derive(Debug, Clone)]
pub enum ItemKind {
    Function(Function),
    /// A top-level construct that lowering does not model, with the syntax
    /// node kind it came from.
    Unsupported { kind: String },
}

#[derive(Debug, Clone)]
pub struct Function {
    pub name: Identifier,
    pub params: Vec<Identifier>,
    pub body: Compound,
    pub span: Span,
}

#[derive(Debug, Clone)]
pub struct Compound {
    pub statements: Vec<Statement>,
    pub span: Span,
}

#[derive(Debug, Clone)]
pub struct Statement {
    pub kind: StmtKind,
    pub span: Span,
}

#[derive(Debug, Clone)]
pub enum StmtKind {
    Declaration { name: Identifier, value: Option<Expression> },
    Assign { lhs: Expression, rhs: Expression },
    ExprStmt(Expression),
    Return(Option<Expression>),
    /// A statement lowering does not model, with the syntax node kind that
    /// produced it. Lowering never drops input silently.
    Unsupported { kind: String },
}

#[derive(Debug, Clone, Copy, PartialEq, Eq, Hash, Structural)]
pub enum BinOp {
    Add,
    Sub,
    Mul,
    Div,
}

#[derive(Debug)]
pub struct Expression {
    pub kind: ExprKind,
    pub span: Span,
}

#[derive(Debug)]
pub enum ExprKind {
    Variable(Identifier),
    Int(i64),
    String(String),
    BinaryOp { op: BinOp, lhs: Box<Expression>, rhs: Box<Expression> },
    Call { callee: Identifier, args: Vec<Expression> },
    /// An expression lowering does not model. See [`StmtKind::Unsupported`].
    Unsupported { kind: String },
}

/// A construct lowering could not model, as reported by [`collect_unsupported`].
#[derive(Debug, Clone, PartialEq, Eq)]
pub struct Unsupported {
    /// The syntax node kind, e.g. `"for_statement"`.
    pub kind: String,
    pub span: Span,
}

// ===========================================================================
// Models
// ===========================================================================

pub struct SpecTranslationUnit {
    pub items: Seq<SpecItem>,
    pub span: Span,
}

pub struct SpecItem {
    pub kind: SpecItemKind,
    pub span: Span,
}

pub enum SpecItemKind {
    Function(SpecFunction),
    Unsupported { kind: Seq<char> },
}

pub struct SpecFunction {
    pub name: Seq<char>,
    pub params: Seq<Seq<char>>,
    pub body: SpecCompound,
    pub span: Span,
}

pub struct SpecCompound {
    pub statements: Seq<SpecStatement>,
    pub span: Span,
}

pub struct SpecStatement {
    pub kind: SpecStmtKind,
    pub span: Span,
}

pub enum SpecStmtKind {
    Declaration { name: Seq<char>, value: Option<SpecExpression> },
    Assign { lhs: SpecExpression, rhs: SpecExpression },
    ExprStmt(SpecExpression),
    Return(Option<SpecExpression>),
    Unsupported { kind: Seq<char> },
}

pub struct SpecExpression {
    pub kind: SpecExprKind,
    pub span: Span,
}

pub enum SpecExprKind {
    Variable(Seq<char>),
    Int(i64),
    String(Seq<char>),
    BinaryOp { op: BinOp, lhs: Box<SpecExpression>, rhs: Box<SpecExpression> },
    Call { callee: Seq<char>, args: Seq<SpecExpression> },
    Unsupported { kind: Seq<char> },
}

pub struct SpecUnsupported {
    pub kind: Seq<char>,
    pub span: Span,
}

pub open spec fn expr_model(e: Expression) -> SpecExpression
    decreases e,
{
    SpecExpression { kind: expr_kind_model(e.kind), span: e.span }
}

pub open spec fn expr_kind_model(k: ExprKind) -> SpecExprKind
    decreases k,
{
    match k {
        ExprKind::Variable(name) => SpecExprKind::Variable(name.0@),
        ExprKind::Int(v) => SpecExprKind::Int(v),
        ExprKind::String(s) => SpecExprKind::String(s@),
        ExprKind::BinaryOp { op, lhs, rhs } => SpecExprKind::BinaryOp {
            op,
            lhs: Box::new(expr_model(*lhs)),
            rhs: Box::new(expr_model(*rhs)),
        },
        ExprKind::Call { callee, args } => SpecExprKind::Call {
            callee: callee.0@,
            args: exprs_model(args@),
        },
        ExprKind::Unsupported { kind } => SpecExprKind::Unsupported { kind: kind@ },
    }
}

pub open spec fn exprs_model(s: Seq<Expression>) -> Seq<SpecExpression>
    decreases s,
{
    if s.len() == 0 {
        Seq::empty()
    } else {
        exprs_model(s.subrange(0, s.len() - 1)).push(expr_model(s[s.len() - 1]))
    }
}

pub open spec fn opt_expr_model(e: Option<Expression>) -> Option<SpecExpression> {
    match e {
        Some(e) => Some(expr_model(e)),
        None => None,
    }
}

pub open spec fn stmt_kind_model(k: StmtKind) -> SpecStmtKind {
    match k {
        StmtKind::Declaration { name, value } => SpecStmtKind::Declaration {
            name: name.0@,
            value: opt_expr_model(value),
        },
        StmtKind::Assign { lhs, rhs } => SpecStmtKind::Assign {
            lhs: expr_model(lhs),
            rhs: expr_model(rhs),
        },
        StmtKind::ExprStmt(e) => SpecStmtKind::ExprStmt(expr_model(e)),
        StmtKind::Return(value) => SpecStmtKind::Return(opt_expr_model(value)),
        StmtKind::Unsupported { kind } => SpecStmtKind::Unsupported { kind: kind@ },
    }
}

pub open spec fn stmt_model(s: Statement) -> SpecStatement {
    SpecStatement { kind: stmt_kind_model(s.kind), span: s.span }
}

pub open spec fn stmt_kinds_model(s: Seq<StmtKind>) -> Seq<SpecStmtKind> {
    s.map_values(|k: StmtKind| stmt_kind_model(k))
}

pub open spec fn stmts_model(s: Seq<Statement>) -> Seq<SpecStatement> {
    s.map_values(|st: Statement| stmt_model(st))
}

pub open spec fn idents_model(s: Seq<Identifier>) -> Seq<Seq<char>> {
    s.map_values(|id: Identifier| id.0@)
}

pub open spec fn function_model(f: Function) -> SpecFunction {
    SpecFunction {
        name: f.name.0@,
        params: idents_model(f.params@),
        body: SpecCompound { statements: stmts_model(f.body.statements@), span: f.body.span },
        span: f.span,
    }
}

pub open spec fn item_kind_model(k: ItemKind) -> SpecItemKind {
    match k {
        ItemKind::Function(f) => SpecItemKind::Function(function_model(f)),
        ItemKind::Unsupported { kind } => SpecItemKind::Unsupported { kind: kind@ },
    }
}

pub open spec fn item_model(i: Item) -> SpecItem {
    SpecItem { kind: item_kind_model(i.kind), span: i.span }
}

pub open spec fn items_model(s: Seq<Item>) -> Seq<SpecItem> {
    s.map_values(|i: Item| item_model(i))
}

pub open spec fn unsupported_model(u: Unsupported) -> SpecUnsupported {
    SpecUnsupported { kind: u.kind@, span: u.span }
}

pub open spec fn unsupported_list_model(s: Seq<Unsupported>) -> Seq<SpecUnsupported> {
    s.map_values(|u: Unsupported| unsupported_model(u))
}

impl View for Expression {
    type V = SpecExpression;

    open spec fn view(&self) -> SpecExpression {
        expr_model(*self)
    }
}

impl View for Statement {
    type V = SpecStatement;

    open spec fn view(&self) -> SpecStatement {
        stmt_model(*self)
    }
}

impl View for Compound {
    type V = SpecCompound;

    open spec fn view(&self) -> SpecCompound {
        SpecCompound { statements: stmts_model(self.statements@), span: self.span }
    }
}

impl View for Function {
    type V = SpecFunction;

    open spec fn view(&self) -> SpecFunction {
        function_model(*self)
    }
}

impl View for Item {
    type V = SpecItem;

    open spec fn view(&self) -> SpecItem {
        item_model(*self)
    }
}

impl View for TranslationUnit {
    type V = SpecTranslationUnit;

    open spec fn view(&self) -> SpecTranslationUnit {
        SpecTranslationUnit { items: items_model(self.items@), span: self.span }
    }
}

impl View for Unsupported {
    type V = SpecUnsupported;

    open spec fn view(&self) -> SpecUnsupported {
        unsupported_model(*self)
    }
}

/// The model of a list of expressions is the list of their models.
pub proof fn lemma_exprs_model(s: Seq<Expression>)
    ensures
        exprs_model(s).len() == s.len(),
        forall|i: int| 0 <= i < s.len() ==> #[trigger] exprs_model(s)[i] == expr_model(s[i]),
    decreases s.len(),
{
    if s.len() > 0 {
        lemma_exprs_model(s.subrange(0, s.len() - 1));
    }
}

/// Extending a list of expressions extends its model.
pub proof fn lemma_exprs_model_push(s: Seq<Expression>, e: Expression)
    ensures
        exprs_model(s.push(e)) == exprs_model(s).push(expr_model(e)),
{
    assert(s.push(e).subrange(0, s.len() as int) =~= s);
}

// ===========================================================================
// Clone for the recursive part of the tree
// ===========================================================================

impl Clone for Expression {
    fn clone(&self) -> (copy: Self)
        ensures
            copy@ == self@,
        decreases self,
    {
        Expression { kind: self.kind.clone(), span: self.span }
    }
}

impl Clone for ExprKind {
    fn clone(&self) -> (copy: Self)
        ensures
            expr_kind_model(copy) == expr_kind_model(*self),
        decreases self,
    {
        match self {
            ExprKind::Variable(name) => ExprKind::Variable(Identifier(name.0.clone())),
            ExprKind::Int(v) => ExprKind::Int(*v),
            ExprKind::String(s) => ExprKind::String(s.clone()),
            ExprKind::BinaryOp { op, lhs, rhs } => ExprKind::BinaryOp {
                op: *op,
                lhs: Box::new((**lhs).clone()),
                rhs: Box::new((**rhs).clone()),
            },
            ExprKind::Call { callee, args } => {
                let mut copies: Vec<Expression> = Vec::new();
                let mut i: usize = 0;
                while i < args.len()
                    invariant
                        i <= args@.len(),
                        *self is Call,
                        self->args == *args,
                        exprs_model(copies@) == exprs_model(args@.subrange(0, i as int)),
                    decreases args@.len() - i,
                {
                    let c = args[i].clone();
                    proof {
                        lemma_exprs_model_push(copies@, c);
                        lemma_exprs_model_push(args@.subrange(0, i as int), args@[i as int]);
                        assert(args@.subrange(0, i as int).push(args@[i as int]) =~= args@.subrange(
                            0,
                            i + 1,
                        ));
                    }
                    copies.push(c);
                    i = i + 1;
                }
                assert(args@.subrange(0, args@.len() as int) =~= args@);
                ExprKind::Call { callee: Identifier(callee.0.clone()), args: copies }
            },
            ExprKind::Unsupported { kind } => ExprKind::Unsupported { kind: kind.clone() },
        }
    }
}

// ===========================================================================
// Constructors and accessors
// ===========================================================================

impl Item {
    pub fn new(kind: ItemKind, span: Span) -> (item: Self)
        ensures
            item.kind == kind,
            item.span == span,
    {
        Item { kind, span }
    }
}

impl Statement {
    pub fn new(kind: StmtKind, span: Span) -> (statement: Self)
        ensures
            statement.kind == kind,
            statement.span == span,
    {
        Statement { kind, span }
    }
}

impl Expression {
    pub fn new(kind: ExprKind, span: Span) -> (expression: Self)
        ensures
            expression.kind == kind,
            expression.span == span,
    {
        Expression { kind, span }
    }

    pub fn boxed(kind: ExprKind, span: Span) -> (expression: Box<Self>)
        ensures
            expression.kind == kind,
            expression.span == span,
    {
        Box::new(Expression::new(kind, span))
    }
}

/// The function definitions among `items`, in order.
pub open spec fn functions_of(items: Seq<SpecItem>) -> Seq<SpecFunction>
    decreases items.len(),
{
    if items.len() == 0 {
        Seq::empty()
    } else {
        let rest = functions_of(items.subrange(0, items.len() - 1));
        match items[items.len() - 1].kind {
            SpecItemKind::Function(f) => rest.push(f),
            SpecItemKind::Unsupported { .. } => rest,
        }
    }
}

impl TranslationUnit {
    /// The function definitions, in source order, skipping everything
    /// lowering could not model. Callers that need to know what was skipped
    /// should ask [`collect_unsupported`].
    pub fn functions(&self) -> (functions: Vec<&Function>)
        ensures
            functions@.len() == functions_of(self@.items).len(),
            forall|i: int|
                0 <= i < functions@.len() ==> function_model(*#[trigger] functions@[i])
                    == functions_of(self@.items)[i],
    {
        let mut functions: Vec<&Function> = Vec::new();
        let mut i: usize = 0;
        while i < self.items.len()
            invariant
                i <= self.items@.len(),
                functions@.len() == functions_of(items_model(self.items@.subrange(0, i as int))).len(),
                forall|j: int|
                    0 <= j < functions@.len() ==> function_model(*#[trigger] functions@[j])
                        == functions_of(items_model(self.items@.subrange(0, i as int)))[j],
            decreases self.items@.len() - i,
        {
            proof {
                let before = items_model(self.items@.subrange(0, i as int));
                let after = items_model(self.items@.subrange(0, i + 1));
                assert(after.subrange(0, after.len() - 1) =~= before);
                assert(after[after.len() - 1] == item_model(self.items@[i as int]));
            }
            match &self.items[i].kind {
                ItemKind::Function(function) => functions.push(function),
                ItemKind::Unsupported { .. } => {},
            }
            i = i + 1;
        }
        assert(self.items@.subrange(0, self.items@.len() as int) =~= self.items@);
        functions
    }
}

// ===========================================================================
// Unmodelled constructs
// ===========================================================================

pub open spec fn unsupported_in_expr(e: SpecExpression) -> Seq<SpecUnsupported>
    decreases e,
{
    match e.kind {
        SpecExprKind::Unsupported { kind } => seq![SpecUnsupported { kind, span: e.span }],
        SpecExprKind::BinaryOp { lhs, rhs, .. } => unsupported_in_expr(*lhs) + unsupported_in_expr(
            *rhs,
        ),
        SpecExprKind::Call { args, .. } => unsupported_in_exprs(args),
        _ => Seq::empty(),
    }
}

pub open spec fn unsupported_in_exprs(s: Seq<SpecExpression>) -> Seq<SpecUnsupported>
    decreases s,
{
    if s.len() == 0 {
        Seq::empty()
    } else {
        unsupported_in_exprs(s.subrange(0, s.len() - 1)) + unsupported_in_expr(s[s.len() - 1])
    }
}

pub open spec fn unsupported_in_opt(e: Option<SpecExpression>) -> Seq<SpecUnsupported> {
    match e {
        Some(e) => unsupported_in_expr(e),
        None => Seq::empty(),
    }
}

pub open spec fn unsupported_in_stmt(s: SpecStatement) -> Seq<SpecUnsupported> {
    match s.kind {
        SpecStmtKind::Unsupported { kind } => seq![SpecUnsupported { kind, span: s.span }],
        SpecStmtKind::Declaration { value, .. } => unsupported_in_opt(value),
        SpecStmtKind::Assign { lhs, rhs } => unsupported_in_expr(lhs) + unsupported_in_expr(rhs),
        SpecStmtKind::ExprStmt(e) => unsupported_in_expr(e),
        SpecStmtKind::Return(value) => unsupported_in_opt(value),
    }
}

/// The unmodelled constructs of a statement, in pre-order: the statement
/// itself when it is one, and otherwise those inside its expressions, left to
/// right, each with its kind and span.
pub proof fn lemma_statement_unsupported_in_order(s: SpecStatement)
    ensures
        unsupported_in_stmt(s) == match s.kind {
            SpecStmtKind::Unsupported { kind } => seq![SpecUnsupported { kind, span: s.span }],
            SpecStmtKind::Declaration { value, .. } => unsupported_in_opt(value),
            SpecStmtKind::Assign { lhs, rhs } => unsupported_in_expr(lhs) + unsupported_in_expr(rhs),
            SpecStmtKind::ExprStmt(e) => unsupported_in_expr(e),
            SpecStmtKind::Return(value) => unsupported_in_opt(value),
        },
        s.kind is Unsupported ==> unsupported_in_stmt(s).len() == 1,
{
}

pub open spec fn unsupported_in_stmts(s: Seq<SpecStatement>) -> Seq<SpecUnsupported>
    decreases s.len(),
{
    if s.len() == 0 {
        Seq::empty()
    } else {
        unsupported_in_stmts(s.subrange(0, s.len() - 1)) + unsupported_in_stmt(s[s.len() - 1])
    }
}

pub open spec fn unsupported_in_item(i: SpecItem) -> Seq<SpecUnsupported> {
    match i.kind {
        SpecItemKind::Unsupported { kind } => seq![SpecUnsupported { kind, span: i.span }],
        SpecItemKind::Function(f) => unsupported_in_stmts(f.body.statements),
    }
}

pub open spec fn unsupported_in_items(s: Seq<SpecItem>) -> Seq<SpecUnsupported>
    decreases s.len(),
{
    if s.len() == 0 {
        Seq::empty()
    } else {
        unsupported_in_items(s.subrange(0, s.len() - 1)) + unsupported_in_item(s[s.len() - 1])
    }
}

/// Everything in `unit` that lowering could not model, in source order.
pub open spec fn unsupported_in_unit(unit: SpecTranslationUnit) -> Seq<SpecUnsupported> {
    unsupported_in_items(unit.items)
}

// ---------------------------------------------------------------------------
// Nothing unmodelled goes unreported
// ---------------------------------------------------------------------------

/// Whether an expression holds an unmodelled construct anywhere: itself, an
/// operand, or an argument of a call at any depth.
pub open spec fn expr_has_unsupported(e: SpecExpression) -> bool
    decreases e, 1int,
{
    match e.kind {
        SpecExprKind::Unsupported { .. } => true,
        SpecExprKind::BinaryOp { lhs, rhs, .. } => expr_has_unsupported(*lhs)
            || expr_has_unsupported(*rhs),
        SpecExprKind::Call { args, .. } => exprs_have_unsupported(args),
        _ => false,
    }
}

/// Whether any of the expressions holds an unmodelled construct.
pub open spec fn exprs_have_unsupported(s: Seq<SpecExpression>) -> bool
    decreases s, 0int,
{
    s.len() > 0 && (exprs_have_unsupported(s.subrange(0, s.len() - 1)) || expr_has_unsupported(
        s[s.len() - 1],
    ))
}

pub open spec fn opt_has_unsupported(e: Option<SpecExpression>) -> bool {
    e matches Some(v) && expr_has_unsupported(v)
}

pub open spec fn stmt_has_unsupported(s: SpecStatement) -> bool {
    match s.kind {
        SpecStmtKind::Unsupported { .. } => true,
        SpecStmtKind::Declaration { value, .. } => opt_has_unsupported(value),
        SpecStmtKind::Assign { lhs, rhs } => expr_has_unsupported(lhs) || expr_has_unsupported(rhs),
        SpecStmtKind::ExprStmt(e) => expr_has_unsupported(e),
        SpecStmtKind::Return(value) => opt_has_unsupported(value),
    }
}

pub open spec fn item_has_unsupported(i: SpecItem) -> bool {
    match i.kind {
        SpecItemKind::Unsupported { .. } => true,
        SpecItemKind::Function(f) => exists|j: int|
            0 <= j < f.body.statements.len() && #[trigger] stmt_has_unsupported(
                f.body.statements[j],
            ),
    }
}

/// Whether a unit holds an unmodelled construct anywhere: an item, a
/// statement, or an expression at any depth.
pub open spec fn unit_has_unsupported(u: SpecTranslationUnit) -> bool {
    exists|i: int| 0 <= i < u.items.len() && #[trigger] item_has_unsupported(u.items[i])
}

proof fn lemma_expr_unsupported_reported(e: SpecExpression)
    ensures
        unsupported_in_expr(e).len() == 0 <==> !expr_has_unsupported(e),
    decreases e, 1int,
{
    match e.kind {
        SpecExprKind::BinaryOp { lhs, rhs, .. } => {
            lemma_expr_unsupported_reported(*lhs);
            lemma_expr_unsupported_reported(*rhs);
        },
        SpecExprKind::Call { args, .. } => {
            lemma_exprs_unsupported_reported(args);
        },
        _ => {},
    }
}

proof fn lemma_exprs_unsupported_reported(s: Seq<SpecExpression>)
    ensures
        unsupported_in_exprs(s).len() == 0 <==> !exprs_have_unsupported(s),
    decreases s, 0int,
{
    if s.len() > 0 {
        lemma_exprs_unsupported_reported(s.subrange(0, s.len() - 1));
        lemma_expr_unsupported_reported(s[s.len() - 1]);
    }
}

proof fn lemma_stmt_unsupported_reported(st: SpecStatement)
    ensures
        unsupported_in_stmt(st).len() == 0 <==> !stmt_has_unsupported(st),
{
    match st.kind {
        SpecStmtKind::Declaration { value, .. } => {
            if let Some(v) = value {
                lemma_expr_unsupported_reported(v);
            }
        },
        SpecStmtKind::Assign { lhs, rhs } => {
            lemma_expr_unsupported_reported(lhs);
            lemma_expr_unsupported_reported(rhs);
        },
        SpecStmtKind::ExprStmt(e) => {
            lemma_expr_unsupported_reported(e);
        },
        SpecStmtKind::Return(value) => {
            if let Some(v) = value {
                lemma_expr_unsupported_reported(v);
            }
        },
        _ => {},
    }
}

proof fn lemma_stmts_unsupported_reported(s: Seq<SpecStatement>)
    ensures
        unsupported_in_stmts(s).len() == 0 <==> !exists|i: int|
            0 <= i < s.len() && #[trigger] stmt_has_unsupported(s[i]),
    decreases s.len(),
{
    if s.len() > 0 {
        let init = s.subrange(0, s.len() - 1);
        lemma_stmts_unsupported_reported(init);
        lemma_stmt_unsupported_reported(s[s.len() - 1]);
        if exists|i: int| 0 <= i < s.len() && #[trigger] stmt_has_unsupported(s[i]) {
            let i = choose|i: int| 0 <= i < s.len() && #[trigger] stmt_has_unsupported(s[i]);
            if i < s.len() - 1 {
                assert(init[i] == s[i]);
            }
        }
        if exists|i: int| 0 <= i < init.len() && #[trigger] stmt_has_unsupported(init[i]) {
            let i = choose|i: int| 0 <= i < init.len() && #[trigger] stmt_has_unsupported(init[i]);
            assert(s[i] == init[i]);
        }
    }
}

proof fn lemma_item_unsupported_reported(i: SpecItem)
    ensures
        unsupported_in_item(i).len() == 0 <==> !item_has_unsupported(i),
{
    if let SpecItemKind::Function(f) = i.kind {
        lemma_stmts_unsupported_reported(f.body.statements);
    }
}

proof fn lemma_items_unsupported_reported(s: Seq<SpecItem>)
    ensures
        unsupported_in_items(s).len() == 0 <==> !exists|i: int|
            0 <= i < s.len() && #[trigger] item_has_unsupported(s[i]),
    decreases s.len(),
{
    if s.len() > 0 {
        let init = s.subrange(0, s.len() - 1);
        lemma_items_unsupported_reported(init);
        lemma_item_unsupported_reported(s[s.len() - 1]);
        if exists|i: int| 0 <= i < s.len() && #[trigger] item_has_unsupported(s[i]) {
            let i = choose|i: int| 0 <= i < s.len() && #[trigger] item_has_unsupported(s[i]);
            if i < s.len() - 1 {
                assert(init[i] == s[i]);
            }
        }
        if exists|i: int| 0 <= i < init.len() && #[trigger] item_has_unsupported(init[i]) {
            let i = choose|i: int| 0 <= i < init.len() && #[trigger] item_has_unsupported(init[i]);
            assert(s[i] == init[i]);
        }
    }
}

/// The report of unmodelled constructs is empty exactly when the unit holds
/// none anywhere, inside call arguments and operands included: nothing
/// unmodelled goes unreported.
pub proof fn lemma_every_unsupported_node_is_reported(u: SpecTranslationUnit)
    ensures
        unsupported_in_unit(u).len() == 0 <==> !unit_has_unsupported(u),
{
    lemma_items_unsupported_reported(u.items);
}

/// Walks a unit and reports everything lowering could not model, in source
/// order, each with its node kind and span.
pub fn collect_unsupported(unit: &TranslationUnit) -> (found: Vec<Unsupported>)
    ensures
        unsupported_list_model(found@) == unsupported_in_unit(unit@),
{
    let mut out: Vec<Unsupported> = Vec::new();
    let mut i: usize = 0;
    while i < unit.items.len()
        invariant
            i <= unit.items@.len(),
            unsupported_list_model(out@) == unsupported_in_items(
                items_model(unit.items@.subrange(0, i as int)),
            ),
        decreases unit.items@.len() - i,
    {
        let ghost before = out@;
        proof {
            let prev = items_model(unit.items@.subrange(0, i as int));
            let next = items_model(unit.items@.subrange(0, i + 1));
            assert(next.subrange(0, next.len() - 1) =~= prev);
        }
        let item = &unit.items[i];
        match &item.kind {
            ItemKind::Unsupported { kind } => {
                out.push(Unsupported { kind: kind.clone(), span: item.span });
                assert(unsupported_list_model(out@) =~= unsupported_list_model(before)
                    + unsupported_in_item(item@));
            },
            ItemKind::Function(function) => {
                let statements = &function.body.statements;
                let mut k: usize = 0;
                while k < statements.len()
                    invariant
                        k <= statements@.len(),
                        unsupported_list_model(out@) == unsupported_list_model(before)
                            + unsupported_in_stmts(stmts_model(statements@.subrange(0, k as int))),
                    decreases statements@.len() - k,
                {
                    proof {
                        let prev = stmts_model(statements@.subrange(0, k as int));
                        let next = stmts_model(statements@.subrange(0, k + 1));
                        assert(next.subrange(0, next.len() - 1) =~= prev);
                    }
                    collect_in_statement(&statements[k], &mut out);
                    proof {
                        let prev = stmts_model(statements@.subrange(0, k as int));
                        assert(unsupported_list_model(out@) =~= unsupported_list_model(before)
                            + unsupported_in_stmts(prev) + unsupported_in_stmt(
                            statements@[k as int]@,
                        ));
                    }
                    k = k + 1;
                }
                assert(statements@.subrange(0, statements@.len() as int) =~= statements@);
            },
        }
        assert(unsupported_list_model(out@) =~= unsupported_list_model(before)
            + unsupported_in_item(item@));
        i = i + 1;
    }
    assert(unit.items@.subrange(0, unit.items@.len() as int) =~= unit.items@);
    out
}

fn collect_in_statement(statement: &Statement, out: &mut Vec<Unsupported>)
    ensures
        unsupported_list_model(final(out)@) == unsupported_list_model(old(out)@)
            + unsupported_in_stmt(statement@),
{
    match &statement.kind {
        StmtKind::Unsupported { kind } => {
            out.push(Unsupported { kind: kind.clone(), span: statement.span });
        },
        StmtKind::Declaration { value, .. } => {
            if let Some(value) = value {
                collect_in_expression(value, out);
            }
        },
        StmtKind::Assign { lhs, rhs } => {
            collect_in_expression(lhs, out);
            collect_in_expression(rhs, out);
        },
        StmtKind::ExprStmt(expression) => collect_in_expression(expression, out),
        StmtKind::Return(value) => {
            if let Some(value) = value {
                collect_in_expression(value, out);
            }
        },
    }
    assert(unsupported_list_model(final(out)@) =~= unsupported_list_model(old(out)@)
        + unsupported_in_stmt(statement@));
}

fn collect_in_expression(expression: &Expression, out: &mut Vec<Unsupported>)
    ensures
        unsupported_list_model(final(out)@) == unsupported_list_model(old(out)@)
            + unsupported_in_expr(expression@),
    decreases expression,
{
    match &expression.kind {
        ExprKind::Unsupported { kind } => {
            out.push(Unsupported { kind: kind.clone(), span: expression.span });
        },
        ExprKind::BinaryOp { lhs, rhs, .. } => {
            collect_in_expression(lhs, out);
            collect_in_expression(rhs, out);
        },
        ExprKind::Call { args, .. } => {
            let ghost start = out@;
            let mut i: usize = 0;
            while i < args.len()
                invariant
                    i <= args@.len(),
                    expression.kind is Call,
                    expression.kind->args == *args,
                    unsupported_list_model(out@) == unsupported_list_model(start)
                        + unsupported_in_exprs(exprs_model(args@.subrange(0, i as int))),
                decreases args@.len() - i,
            {
                proof {
                    lemma_exprs_model_push(args@.subrange(0, i as int), args@[i as int]);
                    assert(args@.subrange(0, i as int).push(args@[i as int]) =~= args@.subrange(
                        0,
                        i + 1,
                    ));
                    let next = exprs_model(args@.subrange(0, i + 1));
                    assert(next.subrange(0, next.len() - 1) =~= exprs_model(
                        args@.subrange(0, i as int),
                    ));
                }
                collect_in_expression(&args[i], out);
                i = i + 1;
            }
            assert(args@.subrange(0, args@.len() as int) =~= args@);
        },
        ExprKind::Variable(_) | ExprKind::Int(_) | ExprKind::String(_) => {},
    }
    assert(unsupported_list_model(final(out)@) =~= unsupported_list_model(old(out)@)
        + unsupported_in_expr(expression@));
}

} // verus!
