//! A smaller C AST, without spans or `Unsupported` nodes, and the builder
//! that reads it off a syntax tree.
//!
//! Unlike [`crate::lower`], this builder is partial: it reads only the shapes
//! it was written for and has no answer for anything else. Where the tree
//! holds something it cannot read, there is no tree to give. The models below
//! say exactly which trees it reads ([`simplified_unit`] is `Some`) and what it
//! makes of them; [`build_translation_unit`] requires such a tree, and
//! [`try_build_translation_unit`] decides whether a tree is one.
use vstd::prelude::*;
use vstd::string::*;

use crate::cast::print::op_symbol_of;
use crate::lower::{
    child, operation, declarator_name, name_under_function_declarator, nests_function_declarator, node_bytes,
    node_text,
};
use crate::syntax::{
    field_index, has_field, lemma_child_within, lemma_field_index, lemma_named_index,
    named_index, within, SyntaxNode,
};
use crate::text::{
    decode_bytes, from_str_radix, lemma_encode_decode_or_empty, parse_radix, str_eq,
    string_bytes, valid_or_empty,
};

verus! {

// ===========================================================================
// Nodes
// ===========================================================================

#[derive(Debug, Clone, PartialEq, Eq, Hash)]
pub struct Identifier(pub String);

#[derive(Debug, Clone)]
pub struct TranslationUnit {
    pub functions: Vec<Function>,
}

#[derive(Debug, Clone)]
pub struct Function {
    pub name: Identifier,
    pub params: Vec<Identifier>,
    pub body: Compound,
}

#[derive(Debug, Clone)]
pub struct Compound {
    pub statements: Vec<Statement>,
}

#[derive(Debug, Clone)]
pub enum Statement {
    Declaration { name: Identifier, value: Option<Expression> },
    Assign { lhs: Expression, rhs: Expression },
    ExprStmt(Expression),
    Return(Option<Expression>),
}

#[derive(Debug, Clone, PartialEq, Eq, Hash)]
pub enum BinOp {
    Add,
    Sub,
    Mul,
    Div,
}

#[derive(Debug)]
pub enum Expression {
    Variable(Identifier),
    Int(i64),
    String(String),
    BinaryOp { op: BinOp, lhs: Box<Expression>, rhs: Box<Expression> },
    Call { callee: Identifier, args: Vec<Expression> },
}

// ===========================================================================
// Models
// ===========================================================================

pub enum ExprModel {
    Variable(Seq<char>),
    Int(i64),
    String(Seq<char>),
    BinaryOp { op: BinOp, lhs: Box<ExprModel>, rhs: Box<ExprModel> },
    Call { callee: Seq<char>, args: Seq<ExprModel> },
}

pub enum StatementModel {
    Declaration { name: Seq<char>, value: Option<ExprModel> },
    Assign { lhs: ExprModel, rhs: ExprModel },
    ExprStmt(ExprModel),
    Return(Option<ExprModel>),
}

pub struct FunctionModel {
    pub name: Seq<char>,
    pub params: Seq<Seq<char>>,
    pub body: Seq<StatementModel>,
}

pub open spec fn expr_model(e: Expression) -> ExprModel
    decreases e,
{
    match e {
        Expression::Variable(name) => ExprModel::Variable(name.0@),
        Expression::Int(v) => ExprModel::Int(v),
        Expression::String(s) => ExprModel::String(s@),
        Expression::BinaryOp { op, lhs, rhs } => ExprModel::BinaryOp {
            op,
            lhs: Box::new(expr_model(*lhs)),
            rhs: Box::new(expr_model(*rhs)),
        },
        Expression::Call { callee, args } => ExprModel::Call {
            callee: callee.0@,
            args: exprs_model(args@),
        },
    }
}

pub open spec fn exprs_model(s: Seq<Expression>) -> Seq<ExprModel>
    decreases s,
{
    if s.len() == 0 {
        Seq::empty()
    } else {
        exprs_model(s.subrange(0, s.len() - 1)).push(expr_model(s[s.len() - 1]))
    }
}

pub open spec fn opt_expr_model(e: Option<Expression>) -> Option<ExprModel> {
    match e {
        Some(e) => Some(expr_model(e)),
        None => None,
    }
}

pub open spec fn statement_model(s: Statement) -> StatementModel {
    match s {
        Statement::Declaration { name, value } => StatementModel::Declaration {
            name: name.0@,
            value: opt_expr_model(value),
        },
        Statement::Assign { lhs, rhs } => StatementModel::Assign {
            lhs: expr_model(lhs),
            rhs: expr_model(rhs),
        },
        Statement::ExprStmt(e) => StatementModel::ExprStmt(expr_model(e)),
        Statement::Return(value) => StatementModel::Return(opt_expr_model(value)),
    }
}

pub open spec fn statements_model(s: Seq<Statement>) -> Seq<StatementModel> {
    s.map_values(|x: Statement| statement_model(x))
}

pub open spec fn names_model(s: Seq<Identifier>) -> Seq<Seq<char>> {
    s.map_values(|x: Identifier| x.0@)
}

pub open spec fn function_model(f: Function) -> FunctionModel {
    FunctionModel {
        name: f.name.0@,
        params: names_model(f.params@),
        body: statements_model(f.body.statements@),
    }
}

pub open spec fn functions_model(s: Seq<Function>) -> Seq<FunctionModel> {
    s.map_values(|x: Function| function_model(x))
}

impl View for Expression {
    type V = ExprModel;

    open spec fn view(&self) -> ExprModel {
        expr_model(*self)
    }
}

impl View for Statement {
    type V = StatementModel;

    open spec fn view(&self) -> StatementModel {
        statement_model(*self)
    }
}

impl View for Function {
    type V = FunctionModel;

    open spec fn view(&self) -> FunctionModel {
        function_model(*self)
    }
}

impl View for TranslationUnit {
    type V = Seq<FunctionModel>;

    open spec fn view(&self) -> Seq<FunctionModel> {
        functions_model(self.functions@)
    }
}

proof fn lemma_exprs_model_push(s: Seq<Expression>, e: Expression)
    ensures
        exprs_model(s.push(e)) == exprs_model(s).push(expr_model(e)),
{
    assert(s.push(e).subrange(0, s.len() as int) =~= s);
}

fn copy_op(op: &BinOp) -> (copy: BinOp)
    ensures
        copy == *op,
{
    match op {
        BinOp::Add => BinOp::Add,
        BinOp::Sub => BinOp::Sub,
        BinOp::Mul => BinOp::Mul,
        BinOp::Div => BinOp::Div,
    }
}

impl Clone for Expression {
    fn clone(&self) -> (copy: Self)
        ensures
            copy@ == self@,
        decreases self,
    {
        match self {
            Expression::Variable(name) => Expression::Variable(Identifier(name.0.clone())),
            Expression::Int(v) => Expression::Int(*v),
            Expression::String(s) => Expression::String(s.clone()),
            Expression::BinaryOp { op, lhs, rhs } => Expression::BinaryOp {
                op: copy_op(op),
                lhs: Box::new((**lhs).clone()),
                rhs: Box::new((**rhs).clone()),
            },
            Expression::Call { callee, args } => {
                let mut copies: Vec<Expression> = Vec::new();
                let mut i: usize = 0;
                while i < args.len()
                    invariant
                        i <= args@.len(),
                        *self is Call,
                        self->args == *args,
                        exprs_model(copies@) == exprs_model(args@.subrange(0, i as int)),
                    decreases args@.len() - i,
                {
                    let c = args[i].clone();
                    proof {
                        lemma_exprs_model_push(copies@, c);
                        lemma_exprs_model_push(args@.subrange(0, i as int), args@[i as int]);
                        assert(args@.subrange(0, i as int).push(args@[i as int]) =~= args@.subrange(
                            0,
                            i + 1,
                        ));
                    }
                    copies.push(c);
                    i = i + 1;
                }
                assert(args@.subrange(0, args@.len() as int) =~= args@);
                Expression::Call { callee: Identifier(callee.0.clone()), args: copies }
            },
        }
    }
}

// ===========================================================================
// What the builder reads
// ===========================================================================

/// The name an `identifier` node spells; `None` for any other node.
pub open spec fn identifier_text(src: Seq<u8>, n: SyntaxNode) -> Option<Seq<char>> {
    if n.kind@ == "identifier"@ {
        Some(node_text(src, n))
    } else {
        None
    }
}

/// A number literal read as a decimal `i64`, or 0 where its text is not one.
pub open spec fn decimal_or_zero(src: Seq<u8>, n: SyntaxNode) -> i64 {
    match from_str_radix(valid_or_empty(node_bytes(src, n)), 10) {
        Some(v) => v,
        None => 0,
    }
}

/// The operator in the `operator` field: `+`, `-`, `*` or `/`.
pub open spec fn operator_of(src: Seq<u8>, n: SyntaxNode) -> Option<BinOp> {
    match field_index(n, "operator"@) {
        Some(i) => {
            let t = node_text(src, child(n, i));
            if t == "+"@ {
                Some(BinOp::Add)
            } else if t == "-"@ {
                Some(BinOp::Sub)
            } else if t == "*"@ {
                Some(BinOp::Mul)
            } else if t == "/"@ {
                Some(BinOp::Div)
            } else {
                None
            }
        },
        None => None,
    }
}

/// The operator of the main C AST with the same name.
pub open spec fn same_operator(op: BinOp) -> crate::cast::BinOp {
    match op {
        BinOp::Add => crate::cast::BinOp::Add,
        BinOp::Sub => crate::cast::BinOp::Sub,
        BinOp::Mul => crate::cast::BinOp::Mul,
        BinOp::Div => crate::cast::BinOp::Div,
    }
}

/// This builder reads a binary operator exactly as written and as the main
/// lowering reads it: the printed symbol of the operator it gives is the text
/// of the node's `operator` field, and it gives one exactly where lowering
/// does, the operator of the same name.
pub proof fn lemma_operators_read_as_written(src: Seq<u8>, n: SyntaxNode)
    ensures
        operator_of(src, n) matches Some(op) ==> (field_index(n, "operator"@) matches Some(i)
            && node_text(src, child(n, i)) == op_symbol_of(same_operator(op))),
        operator_of(src, n) is Some <==> operation(src, n) is Some,
        operator_of(src, n) matches Some(op) ==> operation(src, n) == Some(same_operator(op)),
{
}

/// The expression `n` stands for: an identifier, a number literal, a binary
/// expression or a call of a named function.
pub open spec fn expr_of(src: Seq<u8>, n: SyntaxNode) -> Option<ExprModel>
    decreases n, 1int,
{
    proof {
        lemma_field_index(n, "left"@);
        lemma_field_index(n, "right"@);
        lemma_field_index(n, "function"@);
        lemma_field_index(n, "arguments"@);
    }
    if n.kind@ == "identifier"@ {
        Some(ExprModel::Variable(node_text(src, n)))
    } else if n.kind@ == "number_literal"@ {
        Some(ExprModel::Int(decimal_or_zero(src, n)))
    } else if n.kind@ == "binary_expression"@ {
        match (field_index(n, "left"@), field_index(n, "right"@), operator_of(src, n)) {
            (Some(l), Some(r), Some(op)) => match (
                expr_of(src, child(n, l)),
                expr_of(src, child(n, r)),
            ) {
                (Some(lhs), Some(rhs)) => Some(
                    ExprModel::BinaryOp { op, lhs: Box::new(lhs), rhs: Box::new(rhs) },
                ),
                _ => None,
            },
            _ => None,
        }
    } else if n.kind@ == "call_expression"@ {
        match field_index(n, "function"@) {
            Some(f) => {
                let args = match field_index(n, "arguments"@) {
                    Some(a) => args_upto(src, child(n, a), child(n, a).children@.len() as int),
                    None => Some(Seq::empty()),
                };
                match (args, identifier_text(src, child(n, f))) {
                    (Some(args), Some(callee)) => Some(ExprModel::Call { callee, args }),
                    _ => None,
                }
            },
            None => None,
        }
    } else {
        None
    }
}

/// The expressions of the named children among the first `k` children of an
/// argument list.
pub open spec fn args_upto(src: Seq<u8>, list: SyntaxNode, k: int) -> Option<Seq<ExprModel>>
    decreases list, k,
{
    if k <= 0 || k > list.children@.len() {
        Some(Seq::empty())
    } else if child(list, k - 1).is_named {
        match (args_upto(src, list, k - 1), expr_of(src, child(list, k - 1))) {
            (Some(rest), Some(e)) => Some(rest.push(e)),
            _ => None,
        }
    } else {
        args_upto(src, list, k - 1)
    }
}

/// The identifier a declarator eventually names, through any pointer, array,
/// function or parenthesized declarators around it.
pub open spec fn declarator_identifier(src: Seq<u8>, n: SyntaxNode) -> Option<Seq<char>> {
    match declarator_name(src, n) {
        Some((name, _)) => Some(name),
        None => None,
    }
}

/// A declarator of a declaration: a name, possibly behind pointers, or
/// `name = value`.
pub open spec fn declared(src: Seq<u8>, d: SyntaxNode) -> Option<StatementModel> {
    if d.kind@ == "identifier"@ || d.kind@ == "pointer_declarator"@ {
        match declarator_identifier(src, d) {
            Some(name) => Some(StatementModel::Declaration { name, value: None }),
            None => None,
        }
    } else if d.kind@ == "init_declarator"@ {
        match (field_index(d, "declarator"@), field_index(d, "value"@)) {
            (Some(x), Some(v)) => match (
                declarator_identifier(src, child(d, x)),
                expr_of(src, child(d, v)),
            ) {
                (Some(name), Some(value)) => Some(
                    StatementModel::Declaration { name, value: Some(value) },
                ),
                _ => None,
            },
            _ => None,
        }
    } else {
        None
    }
}

/// One declaration per `declarator` field among the first `k` children.
pub open spec fn declarations_upto(src: Seq<u8>, n: SyntaxNode, k: int) -> Option<
    Seq<StatementModel>,
>
    decreases k,
{
    if k <= 0 || k > n.children@.len() {
        Some(Seq::empty())
    } else if has_field(child(n, k - 1), "declarator"@) {
        match (declarations_upto(src, n, k - 1), declared(src, child(n, k - 1))) {
            (Some(rest), Some(d)) => Some(rest.push(d)),
            _ => None,
        }
    } else {
        declarations_upto(src, n, k - 1)
    }
}

/// An expression statement: an assignment through its `left` and `right`
/// fields, or the expression itself.
pub open spec fn expression_statement(src: Seq<u8>, n: SyntaxNode) -> Option<StatementModel> {
    match named_index(n) {
        Some(i) => {
            let e = child(n, i);
            if e.kind@ == "assignment_expression"@ {
                match (field_index(e, "left"@), field_index(e, "right"@)) {
                    (Some(l), Some(r)) => match (
                        expr_of(src, child(e, l)),
                        expr_of(src, child(e, r)),
                    ) {
                        (Some(lhs), Some(rhs)) => Some(StatementModel::Assign { lhs, rhs }),
                        _ => None,
                    },
                    _ => None,
                }
            } else {
                match expr_of(src, e) {
                    Some(v) => Some(StatementModel::ExprStmt(v)),
                    None => None,
                }
            }
        },
        None => None,
    }
}

/// The statements a statement node stands for: one per declarator of a
/// declaration, one for an expression or `return` statement, and none for
/// anything else.
pub open spec fn statements_of(src: Seq<u8>, n: SyntaxNode) -> Option<Seq<StatementModel>> {
    if n.kind@ == "declaration"@ {
        declarations_upto(src, n, n.children@.len() as int)
    } else if n.kind@ == "expression_statement"@ {
        match expression_statement(src, n) {
            Some(s) => Some(seq![s]),
            None => None,
        }
    } else if n.kind@ == "return_statement"@ {
        match named_index(n) {
            Some(i) => match expr_of(src, child(n, i)) {
                Some(v) => Some(seq![StatementModel::Return(Some(v))]),
                None => None,
            },
            None => Some(seq![StatementModel::Return(None)]),
        }
    } else {
        Some(Seq::empty())
    }
}

/// The statements of the named children among the first `k` children of a
/// function body.
pub open spec fn body_upto(src: Seq<u8>, body: SyntaxNode, k: int) -> Option<Seq<StatementModel>>
    decreases k,
{
    if k <= 0 || k > body.children@.len() {
        Some(Seq::empty())
    } else if child(body, k - 1).is_named {
        match (body_upto(src, body, k - 1), statements_of(src, child(body, k - 1))) {
            (Some(rest), Some(s)) => Some(rest + s),
            _ => None,
        }
    } else {
        body_upto(src, body, k - 1)
    }
}

/// The name of a parameter declaration: the identifier its `declarator`
/// names.
pub open spec fn parameter_name(src: Seq<u8>, p: SyntaxNode) -> Option<Seq<char>> {
    match field_index(p, "declarator"@) {
        Some(d) => declarator_identifier(src, child(p, d)),
        None => None,
    }
}

/// The names of the parameter declarations among the first `k` children of
/// a parameter list; other named children are skipped.
pub open spec fn params_upto(src: Seq<u8>, list: SyntaxNode, k: int) -> Option<Seq<Seq<char>>>
    decreases k,
{
    if k <= 0 || k > list.children@.len() {
        Some(Seq::empty())
    } else if child(list, k - 1).is_named && child(list, k - 1).kind@
        == "parameter_declaration"@ {
        match (params_upto(src, list, k - 1), parameter_name(src, child(list, k - 1))) {
            (Some(rest), Some(name)) => Some(rest.push(name)),
            _ => None,
        }
    } else {
        params_upto(src, list, k - 1)
    }
}

/// The name and parameters of a `function_declarator`; none when the name
/// sits under a further function declarator, whose parameters the outer list
/// would then be.
pub open spec fn signature_of(src: Seq<u8>, d: SyntaxNode) -> Option<(Seq<char>, Seq<Seq<char>>)> {
    if d.kind@ != "function_declarator"@ {
        None
    } else {
        match field_index(d, "declarator"@) {
            Some(x) => {
                let params = match field_index(d, "parameters"@) {
                    Some(p) => params_upto(src, child(d, p), child(d, p).children@.len() as int),
                    None => Some(Seq::empty()),
                };
                if name_under_function_declarator(child(d, x)) {
                    None
                } else {
                    match (declarator_identifier(src, child(d, x)), params) {
                        (Some(name), Some(params)) => Some((name, params)),
                        _ => None,
                    }
                }
            },
            None => None,
        }
    }
}

/// A `function_definition`.
pub open spec fn function_of(src: Seq<u8>, n: SyntaxNode) -> Option<FunctionModel> {
    match (field_index(n, "declarator"@), field_index(n, "body"@)) {
        (Some(d), Some(b)) => match (
            signature_of(src, child(n, d)),
            body_upto(src, child(n, b), child(n, b).children@.len() as int),
        ) {
            (Some((name, params)), Some(body)) => Some(FunctionModel { name, params, body }),
            _ => None,
        },
        _ => None,
    }
}

/// The functions among the named children of the first `k` children of the
/// root; other named children are skipped.
pub open spec fn functions_upto(src: Seq<u8>, root: SyntaxNode, k: int) -> Option<
    Seq<FunctionModel>,
>
    decreases k,
{
    if k <= 0 || k > root.children@.len() {
        Some(Seq::empty())
    } else if child(root, k - 1).is_named && child(root, k - 1).kind@ == "function_definition"@ {
        match (functions_upto(src, root, k - 1), function_of(src, child(root, k - 1))) {
            (Some(rest), Some(f)) => Some(rest.push(f)),
            _ => None,
        }
    } else {
        functions_upto(src, root, k - 1)
    }
}

/// What the builder makes of the syntax tree `root` of `src`: `None` where it
/// has no answer.
pub open spec fn simplified_unit(src: Seq<u8>, root: SyntaxNode) -> Option<Seq<FunctionModel>> {
    if root.kind@ == "translation_unit"@ {
        functions_upto(src, root, root.children@.len() as int)
    } else {
        None
    }
}

// ===========================================================================
// A prefix the builder has no answer for stays so
// ===========================================================================

proof fn lemma_args_stay_none(src: Seq<u8>, list: SyntaxNode, k: int, m: int)
    requires
        0 < k <= m <= list.children@.len(),
        args_upto(src, list, k) is None,
    ensures
        args_upto(src, list, m) is None,
    decreases m - k,
{
    if k < m {
        lemma_args_stay_none(src, list, k, m - 1);
    }
}

proof fn lemma_declarations_stay_none(src: Seq<u8>, n: SyntaxNode, k: int, m: int)
    requires
        0 < k <= m <= n.children@.len(),
        declarations_upto(src, n, k) is None,
    ensures
        declarations_upto(src, n, m) is None,
    decreases m - k,
{
    if k < m {
        lemma_declarations_stay_none(src, n, k, m - 1);
    }
}

proof fn lemma_body_stays_none(src: Seq<u8>, body: SyntaxNode, k: int, m: int)
    requires
        0 < k <= m <= body.children@.len(),
        body_upto(src, body, k) is None,
    ensures
        body_upto(src, body, m) is None,
    decreases m - k,
{
    if k < m {
        lemma_body_stays_none(src, body, k, m - 1);
    }
}

proof fn lemma_params_stay_none(src: Seq<u8>, list: SyntaxNode, k: int, m: int)
    requires
        0 < k <= m <= list.children@.len(),
        params_upto(src, list, k) is None,
    ensures
        params_upto(src, list, m) is None,
    decreases m - k,
{
    if k < m {
        lemma_params_stay_none(src, list, k, m - 1);
    }
}

proof fn lemma_functions_stay_none(src: Seq<u8>, root: SyntaxNode, k: int, m: int)
    requires
        0 < k <= m <= root.children@.len(),
        functions_upto(src, root, k) is None,
    ensures
        functions_upto(src, root, m) is None,
    decreases m - k,
{
    if k < m {
        lemma_functions_stay_none(src, root, k, m - 1);
    }
}

// ===========================================================================
// The builder
// ===========================================================================

struct ASTBuilder<'a> {
    src: &'a str,
}

/// Builds the AST of the syntax tree `tree` of `source`, which must be one
/// the builder reads.
pub fn build_translation_unit(tree: &SyntaxNode, source: &str) -> (unit: TranslationUnit)
    requires
        within(*tree, source.spec_bytes().len()),
        simplified_unit(source.spec_bytes(), *tree) is Some,
    ensures
        unit@ == simplified_unit(source.spec_bytes(), *tree)->0,
{
    let builder = ASTBuilder::new(source);
    builder.build_translation_unit(tree)
}

/// Builds the AST of the syntax tree `tree` of `source`; `None` where the
/// tree holds something the builder does not read.
pub fn try_build_translation_unit(tree: &SyntaxNode, source: &str) -> (unit: Option<
    TranslationUnit,
>)
    requires
        within(*tree, source.spec_bytes().len()),
    ensures
        match unit {
            Some(u) => simplified_unit(source.spec_bytes(), *tree) == Some(u@),
            None => simplified_unit(source.spec_bytes(), *tree) is None,
        },
{
    let builder = ASTBuilder::new(source);
    builder.build_unit(tree)
}

impl<'a> ASTBuilder<'a> {
    pub closed spec fn bytes(&self) -> Seq<u8> {
        self.src.spec_bytes()
    }

    pub fn new(src: &'a str) -> (builder: Self)
        ensures
            builder.bytes() == src.spec_bytes(),
    {
        ASTBuilder { src }
    }

    fn extract_text(&self, node: &SyntaxNode) -> (text: String)
        requires
            within(*node, self.bytes().len()),
        ensures
            text@ == node_text(self.bytes(), *node),
    {
        let bytes = self.src.as_bytes();
        decode_bytes(&bytes[node.start_byte..node.end_byte])
    }

    fn extract_identifier(&self, node: &SyntaxNode) -> (identifier: Option<Identifier>)
        requires
            within(*node, self.bytes().len()),
        ensures
            match identifier {
                Some(id) => identifier_text(self.bytes(), *node) == Some(id.0@),
                None => identifier_text(self.bytes(), *node) is None,
            },
    {
        if !node.kind_is("identifier") {
            return None;
        }
        let name = self.extract_text(node);
        Some(Identifier(name))
    }

    /// Peels a declarator down to the identifier it eventually names.
    fn unwrap_declarator(&self, node: &SyntaxNode) -> (identifier: Option<Identifier>)
        requires
            within(*node, self.bytes().len()),
        ensures
            match identifier {
                Some(id) => declarator_identifier(self.bytes(), *node) == Some(id.0@),
                None => declarator_identifier(self.bytes(), *node) is None,
            },
        decreases node,
    {
        let ghost len = self.bytes().len();
        if node.kind_is("identifier") {
            let name = self.extract_text(node);
            Some(Identifier(name))
        } else if node.kind_is("pointer_declarator") || node.kind_is("array_declarator")
            || node.kind_is("function_declarator") {
            let inner = node.child_index_by_field_name("declarator")?;
            proof {
                lemma_field_index(*node, "declarator"@);
                lemma_child_within(*node, len, inner as int);
            }
            self.unwrap_declarator(&node.children[inner])
        } else if node.kind_is("parenthesized_declarator") {
            let inner = node.named_child_index()?;
            proof {
                lemma_named_index(*node);
                lemma_child_within(*node, len, inner as int);
            }
            self.unwrap_declarator(&node.children[inner])
        } else {
            None
        }
    }

    fn extract_number(&self, node: &SyntaxNode) -> (value: i64)
        requires
            within(*node, self.bytes().len()),
        ensures
            value == decimal_or_zero(self.bytes(), *node),
    {
        let text = self.extract_text(node);
        let bytes = string_bytes(&text);
        proof {
            lemma_encode_decode_or_empty(node_bytes(self.bytes(), *node));
        }
        match parse_radix(bytes, 10) {
            Some(v) => v,
            None => 0,
        }
    }

    fn get_operation(&self, node: &SyntaxNode) -> (op: Option<BinOp>)
        requires
            within(*node, self.bytes().len()),
        ensures
            op == operator_of(self.bytes(), *node),
    {
        let operator = node.child_index_by_field_name("operator")?;
        proof {
            lemma_field_index(*node, "operator"@);
            lemma_child_within(*node, self.bytes().len(), operator as int);
        }
        let text = self.extract_text(&node.children[operator]);
        if str_eq(text.as_str(), "+") {
            Some(BinOp::Add)
        } else if str_eq(text.as_str(), "-") {
            Some(BinOp::Sub)
        } else if str_eq(text.as_str(), "*") {
            Some(BinOp::Mul)
        } else if str_eq(text.as_str(), "/") {
            Some(BinOp::Div)
        } else {
            None
        }
    }

    /// Builds the AST of `tree`, which must be one the builder reads.
    pub fn build_translation_unit(&self, tree: &SyntaxNode) -> (unit: TranslationUnit)
        requires
            within(*tree, self.bytes().len()),
            simplified_unit(self.bytes(), *tree) is Some,
        ensures
            unit@ == simplified_unit(self.bytes(), *tree)->0,
    {
        match self.build_unit(tree) {
            Some(unit) => unit,
            None => TranslationUnit { functions: Vec::new() },
        }
    }

    fn build_unit(&self, tree: &SyntaxNode) -> (unit: Option<TranslationUnit>)
        requires
            within(*tree, self.bytes().len()),
        ensures
            match unit {
                Some(u) => simplified_unit(self.bytes(), *tree) == Some(u@),
                None => simplified_unit(self.bytes(), *tree) is None,
            },
    {
        let ghost len = self.bytes().len();
        if !tree.kind_is("translation_unit") {
            return None;
        }
        let mut functions: Vec<Function> = Vec::new();
        let mut i: usize = 0;
        while i < tree.children.len()
            invariant
                i <= tree.children@.len(),
                len == self.bytes().len(),
                within(*tree, len),
                tree.kind@ == "translation_unit"@,
                functions_upto(self.bytes(), *tree, i as int) == Some(functions_model(functions@)),
            decreases tree.children@.len() - i,
        {
            let c = &tree.children[i];
            proof {
                lemma_child_within(*tree, len, i as int);
            }
            if c.is_named && c.kind_is("function_definition") {
                match self.build_function(c) {
                    Some(f) => {
                        let ghost before = functions@;
                        functions.push(f);
                        proof {
                            assert(functions_model(functions@) =~= functions_model(before).push(
                                function_model(f),
                            ));
                        }
                    },
                    None => {
                        proof {
                            lemma_functions_stay_none(
                                self.bytes(),
                                *tree,
                                i + 1,
                                tree.children@.len() as int,
                            );
                        }
                        return None;
                    },
                }
            }
            i = i + 1;
        }
        Some(TranslationUnit { functions })
    }

    fn build_function(&self, node: &SyntaxNode) -> (function: Option<Function>)
        requires
            within(*node, self.bytes().len()),
        ensures
            match function {
                Some(f) => function_of(self.bytes(), *node) == Some(f@),
                None => function_of(self.bytes(), *node) is None,
            },
    {
        let ghost len = self.bytes().len();
        let declarator = node.child_index_by_field_name("declarator")?;
        proof {
            lemma_field_index(*node, "declarator"@);
            lemma_child_within(*node, len, declarator as int);
        }
        let b = node.child_index_by_field_name("body")?;
        proof {
            lemma_field_index(*node, "body"@);
            lemma_child_within(*node, len, b as int);
        }
        let (name, params) = self.deconstruct_declarator(&node.children[declarator])?;
        let body = &node.children[b];
        let mut statements: Vec<Statement> = Vec::new();
        let mut i: usize = 0;
        while i < body.children.len()
            invariant
                i <= body.children@.len(),
                len == self.bytes().len(),
                within(*body, len),
                field_index(*node, "declarator"@) == Some(declarator as int),
                field_index(*node, "body"@) == Some(b as int),
                *body == child(*node, b as int),
                signature_of(self.bytes(), child(*node, declarator as int)) == Some(
                    (name.0@, names_model(params@)),
                ),
                body_upto(self.bytes(), *body, i as int) == Some(statements_model(statements@)),
            decreases body.children@.len() - i,
        {
            proof {
                lemma_child_within(*body, len, i as int);
            }
            if body.children[i].is_named {
                match self.build_statement(&body.children[i]) {
                    Some(mut built) => {
                        let ghost before = statements@;
                        let ghost added = built@;
                        statements.append(&mut built);
                        proof {
                            assert(statements_model(statements@) =~= statements_model(before)
                                + statements_model(added));
                        }
                    },
                    None => {
                        proof {
                            lemma_body_stays_none(
                                self.bytes(),
                                *body,
                                i + 1,
                                body.children@.len() as int,
                            );
                        }
                        return None;
                    },
                }
            }
            i = i + 1;
        }
        Some(Function { name, params, body: Compound { statements } })
    }

    fn deconstruct_declarator(&self, node: &SyntaxNode) -> (signature: Option<
        (Identifier, Vec<Identifier>),
    >)
        requires
            within(*node, self.bytes().len()),
        ensures
            match signature {
                Some((name, params)) => signature_of(self.bytes(), *node) == Some(
                    (name.0@, names_model(params@)),
                ),
                None => signature_of(self.bytes(), *node) is None,
            },
    {
        let ghost len = self.bytes().len();
        if !node.kind_is("function_declarator") {
            return None;
        }
        let name_node = node.child_index_by_field_name("declarator")?;
        proof {
            lemma_field_index(*node, "declarator"@);
            lemma_child_within(*node, len, name_node as int);
        }
        let params = match node.child_index_by_field_name("parameters") {
            Some(p) => {
                proof {
                    lemma_field_index(*node, "parameters"@);
                    lemma_child_within(*node, len, p as int);
                }
                let param_list = &node.children[p];
                let mut param_identifiers: Vec<Identifier> = Vec::new();
                let mut i: usize = 0;
                while i < param_list.children.len()
                    invariant
                        i <= param_list.children@.len(),
                        len == self.bytes().len(),
                        within(*param_list, len),
                        node.kind@ == "function_declarator"@,
                        field_index(*node, "declarator"@) == Some(name_node as int),
                        field_index(*node, "parameters"@) == Some(p as int),
                        *param_list == child(*node, p as int),
                        params_upto(self.bytes(), *param_list, i as int) == Some(
                            names_model(param_identifiers@),
                        ),
                    decreases param_list.children@.len() - i,
                {
                    let child_node = &param_list.children[i];
                    proof {
                        lemma_child_within(*param_list, len, i as int);
                    }
                    if child_node.is_named && child_node.kind_is("parameter_declaration") {
                        let found = match child_node.child_index_by_field_name("declarator") {
                            Some(d) => {
                                proof {
                                    lemma_field_index(*child_node, "declarator"@);
                                    lemma_child_within(*child_node, len, d as int);
                                }
                                self.unwrap_declarator(&child_node.children[d])
                            },
                            None => None,
                        };
                        match found {
                            Some(param_identifier) => {
                                let ghost before = param_identifiers@;
                                param_identifiers.push(param_identifier);
                                proof {
                                    assert(names_model(param_identifiers@) =~= names_model(
                                        before,
                                    ).push(param_identifier.0@));
                                }
                            },
                            None => {
                                proof {
                                    lemma_params_stay_none(
                                        self.bytes(),
                                        *param_list,
                                        i + 1,
                                        param_list.children@.len() as int,
                                    );
                                }
                                return None;
                            },
                        }
                    }
                    i = i + 1;
                }
                param_identifiers
            },
            None => Vec::new(),
        };
        if nests_function_declarator(&node.children[name_node]) {
            return None;
        }
        let name = self.unwrap_declarator(&node.children[name_node])?;
        Some((name, params))
    }

    fn build_statement(&self, node: &SyntaxNode) -> (statements: Option<Vec<Statement>>)
        requires
            within(*node, self.bytes().len()),
        ensures
            match statements {
                Some(s) => statements_of(self.bytes(), *node) == Some(statements_model(s@)),
                None => statements_of(self.bytes(), *node) is None,
            },
    {
        let ghost len = self.bytes().len();
        if node.kind_is("declaration") {
            self.process_declaration(node)
        } else if node.kind_is("expression_statement") {
            let statement = self.process_expression_statement(node)?;
            let v = vec![statement];
            assert(statements_model(v@) =~= seq![statement_model(statement)]);
            Some(v)
        } else if node.kind_is("return_statement") {
            let value = match node.named_child_index() {
                Some(i) => {
                    proof {
                        lemma_named_index(*node);
                        lemma_child_within(*node, len, i as int);
                    }
                    Some(self.build_expression(&node.children[i])?)
                },
                None => None,
            };
            let v = vec![Statement::Return(value)];
            assert(statements_model(v@) =~= seq![statement_model(Statement::Return(value))]);
            Some(v)
        } else {
            let v: Vec<Statement> = Vec::new();
            assert(statements_model(v@) =~= Seq::empty());
            Some(v)
        }
    }

    fn process_declaration(&self, node: &SyntaxNode) -> (declarations: Option<Vec<Statement>>)
        requires
            within(*node, self.bytes().len()),
        ensures
            match declarations {
                Some(s) => declarations_upto(self.bytes(), *node, node.children@.len() as int)
                    == Some(statements_model(s@)),
                None => declarations_upto(self.bytes(), *node, node.children@.len() as int) is None,
            },
    {
        let ghost len = self.bytes().len();
        let mut declarations: Vec<Statement> = Vec::new();
        let mut i: usize = 0;
        while i < node.children.len()
            invariant
                i <= node.children@.len(),
                len == self.bytes().len(),
                within(*node, len),
                declarations_upto(self.bytes(), *node, i as int) == Some(
                    statements_model(declarations@),
                ),
            decreases node.children@.len() - i,
        {
            let declarator = &node.children[i];
            proof {
                lemma_child_within(*node, len, i as int);
            }
            let is_declarator = match &declarator.field {
                Some(field) => str_eq(field.as_str(), "declarator"),
                None => false,
            };
            if is_declarator {
                match self.process_declarator(declarator) {
                    Some(statement) => {
                        let ghost before = declarations@;
                        declarations.push(statement);
                        proof {
                            assert(statements_model(declarations@) =~= statements_model(
                                before,
                            ).push(statement_model(statement)));
                        }
                    },
                    None => {
                        proof {
                            lemma_declarations_stay_none(
                                self.bytes(),
                                *node,
                                i + 1,
                                node.children@.len() as int,
                            );
                        }
                        return None;
                    },
                }
            }
            i = i + 1;
        }
        Some(declarations)
    }

    fn process_declarator(&self, declarator: &SyntaxNode) -> (declaration: Option<Statement>)
        requires
            within(*declarator, self.bytes().len()),
        ensures
            match declaration {
                Some(s) => declared(self.bytes(), *declarator) == Some(statement_model(s)),
                None => declared(self.bytes(), *declarator) is None,
            },
    {
        let ghost len = self.bytes().len();
        if declarator.kind_is("identifier") || declarator.kind_is("pointer_declarator") {
            let identifier = self.unwrap_declarator(declarator)?;
            Some(Statement::Declaration { name: identifier, value: None })
        } else if declarator.kind_is("init_declarator") {
            let x = declarator.child_index_by_field_name("declarator")?;
            let v = declarator.child_index_by_field_name("value")?;
            proof {
                lemma_field_index(*declarator, "declarator"@);
                lemma_field_index(*declarator, "value"@);
                lemma_child_within(*declarator, len, x as int);
                lemma_child_within(*declarator, len, v as int);
            }
            let identifier = self.unwrap_declarator(&declarator.children[x])?;
            let value = self.build_expression(&declarator.children[v])?;
            Some(Statement::Declaration { name: identifier, value: Some(value) })
        } else {
            None
        }
    }

    fn process_expression_statement(&self, node: &SyntaxNode) -> (statement: Option<Statement>)
        requires
            within(*node, self.bytes().len()),
        ensures
            match statement {
                Some(s) => expression_statement(self.bytes(), *node) == Some(statement_model(s)),
                None => expression_statement(self.bytes(), *node) is None,
            },
    {
        let ghost len = self.bytes().len();
        let i = node.named_child_index()?;
        proof {
            lemma_named_index(*node);
            lemma_child_within(*node, len, i as int);
        }
        let expression_child = &node.children[i];
        if expression_child.kind_is("assignment_expression") {
            let l = expression_child.child_index_by_field_name("left")?;
            let r = expression_child.child_index_by_field_name("right")?;
            proof {
                lemma_field_index(*expression_child, "left"@);
                lemma_field_index(*expression_child, "right"@);
                lemma_child_within(*expression_child, len, l as int);
                lemma_child_within(*expression_child, len, r as int);
            }
            let lhs = self.build_expression(&expression_child.children[l])?;
            let rhs = self.build_expression(&expression_child.children[r])?;
            Some(Statement::Assign { lhs, rhs })
        } else {
            let e = self.build_expression(expression_child)?;
            Some(Statement::ExprStmt(e))
        }
    }

    fn build_expression(&self, node: &SyntaxNode) -> (expression: Option<Expression>)
        requires
            within(*node, self.bytes().len()),
        ensures
            match expression {
                Some(e) => expr_of(self.bytes(), *node) == Some(e@),
                None => expr_of(self.bytes(), *node) is None,
            },
        decreases node, 1int,
    {
        let ghost len = self.bytes().len();
        if node.kind_is("identifier") {
            let name = self.extract_text(node);
            Some(Expression::Variable(Identifier(name)))
        } else if node.kind_is("number_literal") {
            Some(Expression::Int(self.extract_number(node)))
        } else if node.kind_is("binary_expression") {
            let l = node.child_index_by_field_name("left")?;
            let r = node.child_index_by_field_name("right")?;
            proof {
                lemma_field_index(*node, "left"@);
                lemma_field_index(*node, "right"@);
                lemma_child_within(*node, len, l as int);
                lemma_child_within(*node, len, r as int);
            }
            let op = self.get_operation(node)?;
            let lhs = self.build_expression(&node.children[l])?;
            let rhs = self.build_expression(&node.children[r])?;
            Some(Expression::BinaryOp { op, lhs: Box::new(lhs), rhs: Box::new(rhs) })
        } else if node.kind_is("call_expression") {
            let f = node.child_index_by_field_name("function")?;
            proof {
                lemma_field_index(*node, "function"@);
                lemma_child_within(*node, len, f as int);
            }
            let args = match node.child_index_by_field_name("arguments") {
                Some(a) => {
                    proof {
                        lemma_field_index(*node, "arguments"@);
                        lemma_child_within(*node, len, a as int);
                    }
                    self.build_arguments(&node.children[a])?
                },
                None => {
                    let none: Vec<Expression> = Vec::new();
                    assert(exprs_model(none@) =~= Seq::<ExprModel>::empty());
                    none
                },
            };
            let callee = self.extract_identifier(&node.children[f])?;
            Some(Expression::Call { callee, args })
        } else {
            None
        }
    }

    fn build_arguments(&self, list: &SyntaxNode) -> (args: Option<Vec<Expression>>)
        requires
            within(*list, self.bytes().len()),
        ensures
            match args {
                Some(a) => args_upto(self.bytes(), *list, list.children@.len() as int) == Some(
                    exprs_model(a@),
                ),
                None => args_upto(self.bytes(), *list, list.children@.len() as int) is None,
            },
        decreases list, 0int,
    {
        let ghost len = self.bytes().len();
        let mut args: Vec<Expression> = Vec::new();
        let mut i: usize = 0;
        while i < list.children.len()
            invariant
                i <= list.children@.len(),
                len == self.bytes().len(),
                within(*list, len),
                args_upto(self.bytes(), *list, i as int) == Some(exprs_model(args@)),
            decreases list.children@.len() - i,
        {
            proof {
                lemma_child_within(*list, len, i as int);
            }
            if list.children[i].is_named {
                match self.build_expression(&list.children[i]) {
                    Some(e) => {
                        proof {
                            lemma_exprs_model_push(args@, e);
                        }
                        args.push(e);
                    },
                    None => {
                        proof {
                            lemma_args_stay_none(
                                self.bytes(),
                                *list,
                                i + 1,
                                list.children@.len() as int,
                            );
                        }
                        return None;
                    },
                }
            }
            i = i + 1;
        }
        Some(args)
    }
}

} // verus!
