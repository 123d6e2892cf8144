//! CAst → C source.
//!
//! Used for golden tests that read as C, for the round-trip property
//! `lower(parse(print(ast))) ≡ ast`, and for normalized C that can be shown
//! as a figure.
//!
//! The CAst does not model types, so every declaration prints as `int`.
use vstd::prelude::*;

use super::{
    collect_unsupported, functions_of, lemma_every_unsupported_node_is_reported, unit_has_unsupported,
    unsupported_in_unit, unsupported_list_model, BinOp,
    Compound, ExprKind, Expression, Function, Identifier, SpecCompound, SpecExprKind,
    SpecExpression, SpecFunction, SpecStatement, SpecStmtKind, SpecTranslationUnit,
    SpecUnsupported, Statement, StmtKind, TranslationUnit, Unsupported, exprs_model,
    lemma_exprs_model, stmts_model, idents_model, function_model, expr_model,
};
use crate::text::{decimal, push_decimal_i64};

verus! {

const INDENT: &'static str = "    ";

/// Precedence of a printed expression, used to decide where parentheses are
/// needed. Higher binds tighter; `PRIMARY` never needs them.
const PREC_ADDITIVE: u8 = 1;

const PREC_MULTIPLICATIVE: u8 = 2;

const PRIMARY: u8 = 3;

const PREC_NEGATIVE_LITERAL: u8 = 0;

// ===========================================================================
// The printed text
// ===========================================================================

pub open spec fn indentation(depth: nat) -> Seq<char>
    decreases depth,
{
    if depth == 0 {
        Seq::empty()
    } else {
        indentation((depth - 1) as nat) + "    "@
    }
}

pub open spec fn op_precedence_of(op: BinOp) -> u8 {
    match op {
        BinOp::Add | BinOp::Sub => 1,
        BinOp::Mul | BinOp::Div => 2,
    }
}

pub open spec fn op_symbol_of(op: BinOp) -> Seq<char> {
    match op {
        BinOp::Add => "+"@,
        BinOp::Sub => "-"@,
        BinOp::Mul => "*"@,
        BinOp::Div => "/"@,
    }
}

/// How tightly a printed expression binds: its operator's precedence, 0 for
/// a negative literal, 3 for everything that never needs parentheses.
pub open spec fn precedence_of(e: SpecExpression) -> u8 {
    match e.kind {
        SpecExprKind::BinaryOp { op, .. } => op_precedence_of(op),
        SpecExprKind::Int(v) => if v < 0 {
            0
        } else {
            3
        },
        _ => 3,
    }
}

/// How C writes one character inside a string literal.
pub open spec fn escaped_char(c: char) -> Seq<char> {
    if c == '"' {
        "\\\""@
    } else if c == '\\' {
        "\\\\"@
    } else if c == '\n' {
        "\\n"@
    } else if c == '\r' {
        "\\r"@
    } else if c == '\t' {
        "\\t"@
    } else {
        seq![c]
    }
}

pub open spec fn escaped(s: Seq<char>) -> Seq<char>
    decreases s.len(),
{
    if s.len() == 0 {
        Seq::empty()
    } else {
        escaped(s.subrange(0, s.len() - 1)) + escaped_char(s[s.len() - 1])
    }
}

/// `s` as a C string literal.
pub open spec fn quoted(s: Seq<char>) -> Seq<char> {
    "\""@ + escaped(s) + "\""@
}

/// Whether `c` is written raw nowhere in printed text: a line break, a
/// carriage return or a tab.
pub open spec fn is_raw_control(c: char) -> bool {
    c == '\n' || c == '\r' || c == '\t'
}

/// An escaped string holds no raw line break, carriage return or tab, so a
/// quoted string stays on one line of printed C and of a dump.
pub proof fn lemma_escaped_has_no_raw_control(s: Seq<char>)
    ensures
        forall|k: int| 0 <= k < escaped(s).len() ==> !is_raw_control(#[trigger] escaped(s)[k]),
    decreases s.len(),
{
    reveal_strlit("\\\"");
    reveal_strlit("\\\\");
    reveal_strlit("\\n");
    reveal_strlit("\\r");
    reveal_strlit("\\t");
    if s.len() > 0 {
        let init = s.subrange(0, s.len() - 1);
        lemma_escaped_has_no_raw_control(init);
        let tail = escaped_char(s[s.len() - 1]);
        assert forall|k: int| 0 <= k < tail.len() implies !is_raw_control(#[trigger] tail[k]) by {}
        let whole = escaped(init) + tail;
        assert forall|k: int| 0 <= k < whole.len() implies !is_raw_control(#[trigger] whole[k]) by {
            if k < escaped(init).len() {
                assert(escaped(init)[k] == whole[k]);
            } else {
                assert(tail[k - escaped(init).len()] == whole[k]);
            }
        }
    }
}

/// A quoted string holds no raw line break, carriage return or tab.
pub proof fn lemma_quoted_is_one_line(s: Seq<char>)
    ensures
        forall|k: int| 0 <= k < quoted(s).len() ==> !is_raw_control(#[trigger] quoted(s)[k]),
        !quoted(s).contains('\n'),
        !quoted(s).contains('\r'),
        !quoted(s).contains('\t'),
{
    lemma_escaped_has_no_raw_control(s);
    reveal_strlit("\"");
    let q = quoted(s);
    assert forall|k: int| 0 <= k < q.len() implies !is_raw_control(#[trigger] q[k]) by {
        if 1 <= k < 1 + escaped(s).len() {
            assert(escaped(s)[k - 1] == q[k]);
        }
    }
}

/// How C reads the inside of a string literal: `\n`, `\r` and `\t` stand for
/// a line break, a carriage return and a tab, a backslash before any other
/// character stands for that character, and everything else for itself.
pub open spec fn unescaped(t: Seq<char>) -> Seq<char>
    decreases t.len(),
{
    if t.len() == 0 {
        Seq::empty()
    } else if t[0] == '\\' && t.len() >= 2 {
        let c = if t[1] == 'n' {
            '\n'
        } else if t[1] == 'r' {
            '\r'
        } else if t[1] == 't' {
            '\t'
        } else {
            t[1]
        };
        seq![c] + unescaped(t.subrange(2, t.len() as int))
    } else {
        seq![t[0]] + unescaped(t.subrange(1, t.len() as int))
    }
}

proof fn lemma_escaped_concat(a: Seq<char>, b: Seq<char>)
    ensures
        escaped(a + b) == escaped(a) + escaped(b),
    decreases b.len(),
{
    if b.len() == 0 {
        assert(a + b =~= a);
        assert(escaped(a) + escaped(b) =~= escaped(a));
    } else {
        let b0 = b.subrange(0, b.len() - 1);
        lemma_escaped_concat(a, b0);
        assert((a + b).subrange(0, (a + b).len() - 1) =~= a + b0);
        assert((a + b)[(a + b).len() - 1] == b[b.len() - 1]);
        assert(escaped(a) + escaped(b) =~= escaped(a) + escaped(b0) + escaped_char(b[b.len() - 1]));
    }
}

proof fn lemma_unescape_char(c: char, rest: Seq<char>)
    ensures
        unescaped(escaped_char(c) + rest) == seq![c] + unescaped(rest),
{
    reveal_strlit("\\\"");
    reveal_strlit("\\\\");
    reveal_strlit("\\n");
    reveal_strlit("\\r");
    reveal_strlit("\\t");
    let t = escaped_char(c) + rest;
    if c == '"' || c == '\\' || c == '\n' || c == '\r' || c == '\t' {
        assert(t.subrange(2, t.len() as int) =~= rest);
    } else {
        assert(t.subrange(1, t.len() as int) =~= rest);
    }
}

/// Reading the inside of a quoted string as C does gives the string back:
/// escaping loses nothing.
pub proof fn lemma_unescaping_undoes_escaping(s: Seq<char>)
    ensures
        unescaped(escaped(s)) == s,
    decreases s.len(),
{
    if s.len() > 0 {
        let rest = s.subrange(1, s.len() as int);
        lemma_escaped_concat(seq![s[0]], rest);
        assert(seq![s[0]] + rest =~= s);
        let one = seq![s[0]];
        assert(one.subrange(0, 0) =~= Seq::<char>::empty());
        assert(escaped(one) == escaped(one.subrange(0, 0)) + escaped_char(one[0]));
        assert(escaped(Seq::<char>::empty()) == Seq::<char>::empty());
        assert(Seq::<char>::empty() + escaped_char(s[0]) =~= escaped_char(s[0]));
        lemma_unescape_char(s[0], escaped(rest));
        lemma_unescaping_undoes_escaping(rest);
    }
}

pub open spec fn unsupported_comment(kind: Seq<char>) -> Seq<char> {
    "/* unsupported: "@ + kind + " */"@
}

pub open spec fn expr_text(e: SpecExpression) -> Seq<char>
    decreases e, 1int,
{
    match e.kind {
        SpecExprKind::Variable(name) => name,
        SpecExprKind::Int(v) => decimal(v as int),
        SpecExprKind::String(v) => quoted(v),
        SpecExprKind::BinaryOp { op, lhs, rhs } => operand_text(
            *lhs,
            op_precedence_of(op),
            false,
        ) + " "@ + op_symbol_of(op) + " "@ + operand_text(*rhs, op_precedence_of(op), true),
        SpecExprKind::Call { callee, args } => callee + "("@ + args_text(args) + ")"@,
        SpecExprKind::Unsupported { kind } => unsupported_comment(kind),
    }
}

/// An operand of a binary operator whose precedence is `parent`: in
/// parentheses when it binds more loosely, or equally loosely on the right
/// (the operators are all left-associative).
pub open spec fn operand_text(inner: SpecExpression, parent: u8, right: bool) -> Seq<char>
    decreases inner, 2int,
{
    let child = precedence_of(inner);
    if child < parent || (right && child == parent) {
        "("@ + expr_text(inner) + ")"@
    } else {
        expr_text(inner)
    }
}

/// Where the printer puts parentheses: around an operand exactly when it is
/// a binary operation that binds more loosely than its parent, or as loosely
/// on the right (every operator is left-associative), or a negative literal;
/// nowhere else.
pub proof fn lemma_operand_parentheses(inner: SpecExpression, op: BinOp, right: bool)
    ensures
        ({
            let needed = match inner.kind {
                SpecExprKind::BinaryOp { op: inner_op, .. } => op_precedence_of(inner_op)
                    < op_precedence_of(op) || (right && op_precedence_of(inner_op)
                    == op_precedence_of(op)),
                SpecExprKind::Int(v) => v < 0,
                _ => false,
            };
            operand_text(inner, op_precedence_of(op), right) == if needed {
                "("@ + expr_text(inner) + ")"@
            } else {
                expr_text(inner)
            }
        }),
{
}

/// A binary operation prints as its left operand, the operator between single
/// spaces, and its right operand, each parenthesized as
/// [`lemma_operand_parentheses`] says.
pub proof fn lemma_binary_operation_text(e: SpecExpression)
    requires
        e.kind is BinaryOp,
    ensures
        expr_text(e) == operand_text(*e.kind->lhs, op_precedence_of(e.kind->op), false) + " "@
            + op_symbol_of(e.kind->op) + " "@ + operand_text(
            *e.kind->rhs,
            op_precedence_of(e.kind->op),
            true,
        ),
{
}

/// The arguments of a call, separated by `, `.
pub open spec fn args_text(args: Seq<SpecExpression>) -> Seq<char>
    decreases args, 0int,
{
    if args.len() == 0 {
        Seq::empty()
    } else if args.len() == 1 {
        expr_text(args[0])
    } else {
        args_text(args.subrange(0, args.len() - 1)) + ", "@ + expr_text(args[args.len() - 1])
    }
}

pub open spec fn statement_body_text(s: SpecStatement) -> Seq<char> {
    match s.kind {
        SpecStmtKind::Declaration { name, value } => match value {
            Some(v) => "int "@ + name + " = "@ + expr_text(v) + ";\n"@,
            None => "int "@ + name + ";\n"@,
        },
        SpecStmtKind::Assign { lhs, rhs } => expr_text(lhs) + " = "@ + expr_text(rhs) + ";\n"@,
        SpecStmtKind::ExprStmt(v) => expr_text(v) + ";\n"@,
        SpecStmtKind::Return(value) => match value {
            Some(v) => "return "@ + expr_text(v) + ";\n"@,
            None => "return;\n"@,
        },
        SpecStmtKind::Unsupported { kind } => "/* unsupported: "@ + kind + " */\n"@,
    }
}

/// One statement on its own line, indented `depth` levels.
pub open spec fn statement_text(s: SpecStatement, depth: nat) -> Seq<char> {
    indentation(depth) + statement_body_text(s)
}

pub open spec fn statements_text(s: Seq<SpecStatement>, depth: nat) -> Seq<char>
    decreases s.len(),
{
    if s.len() == 0 {
        Seq::empty()
    } else {
        statements_text(s.subrange(0, s.len() - 1), depth) + statement_text(s[s.len() - 1], depth)
    }
}

/// `int a, int b`; `void` when there are no parameters.
pub open spec fn params_text(params: Seq<Seq<char>>) -> Seq<char> {
    if params.len() == 0 {
        "void"@
    } else {
        param_list_text(params)
    }
}

pub open spec fn param_list_text(params: Seq<Seq<char>>) -> Seq<char>
    decreases params.len(),
{
    if params.len() == 0 {
        Seq::empty()
    } else if params.len() == 1 {
        "int "@ + params[0]
    } else {
        param_list_text(params.subrange(0, params.len() - 1)) + ", "@ + "int "@
            + params[params.len() - 1]
    }
}

pub open spec fn function_text(f: SpecFunction) -> Seq<char> {
    "int "@ + f.name + "("@ + params_text(f.params) + ") {\n"@ + statements_text(
        f.body.statements,
        1,
    ) + "}\n"@
}

/// The functions, one after another, separated by a blank line.
pub open spec fn functions_text(fs: Seq<SpecFunction>) -> Seq<char>
    decreases fs.len(),
{
    if fs.len() == 0 {
        Seq::empty()
    } else {
        functions_text(fs.subrange(0, fs.len() - 1)) + (if fs.len() > 1 {
            "\n"@
        } else {
            Seq::empty()
        }) + function_text(fs[fs.len() - 1])
    }
}

/// What [`print`] gives: the C text of the functions when nothing in the unit
/// is unsupported, and otherwise every unsupported construct.
pub open spec fn printed(unit: SpecTranslationUnit) -> Result<Seq<char>, Seq<SpecUnsupported>> {
    if unsupported_in_unit(unit).len() > 0 {
        Err(unsupported_in_unit(unit))
    } else {
        Ok(functions_text(functions_of(unit.items)))
    }
}

/// Printing succeeds exactly for a unit with no unmodelled construct
/// anywhere, inside call arguments and operands included; every other unit is
/// refused with a non-empty report.
pub proof fn lemma_print_refuses_every_unmodelled_unit(u: SpecTranslationUnit)
    ensures
        printed(u) is Ok <==> !unit_has_unsupported(u),
        printed(u) matches Err(found) ==> found.len() > 0,
{
    lemma_every_unsupported_node_is_reported(u);
}

// ===========================================================================
// Printing
// ===========================================================================

/// Prints `unit` as compilable C.
///
/// Fails if the tree still contains `Unsupported` nodes: there is no C text
/// that means "a construct lowering could not model", and inventing one would
/// produce confidently wrong output. The error lists every such node.
pub fn print(unit: &TranslationUnit) -> (result: Result<String, Vec<Unsupported>>)
    ensures
        match result {
            Ok(text) => printed(unit@) == Ok::<Seq<char>, Seq<SpecUnsupported>>(text@),
            Err(found) => printed(unit@) == Err::<Seq<char>, Seq<SpecUnsupported>>(
                unsupported_list_model(found@),
            ),
        },
{
    let unsupported = collect_unsupported(unit);
    if !unsupported.is_empty() {
        return Err(unsupported);
    }
    let functions = unit.functions();
    let ghost fs = functions_of(unit@.items);
    let mut out = String::new();
    let mut index: usize = 0;
    while index < functions.len()
        invariant
            index <= functions@.len(),
            functions@.len() == fs.len(),
            forall|i: int|
                0 <= i < functions@.len() ==> function_model(*#[trigger] functions@[i]) == fs[i],
            out@ == functions_text(fs.subrange(0, index as int)),
        decreases functions@.len() - index,
    {
        proof {
            let next = fs.subrange(0, index + 1);
            assert(next.subrange(0, next.len() - 1) =~= fs.subrange(0, index as int));
        }
        if index > 0 {
            out.append("\n");
        }
        write_function(&mut out, functions[index]);
        index = index + 1;
    }
    assert(fs.subrange(0, fs.len() as int) =~= fs);
    Ok(out)
}

fn write_function(out: &mut String, function: &Function)
    ensures
        final(out)@ == old(out)@ + function_text(function@),
{
    let params = if function.params.is_empty() {
        "void".to_string()
    } else {
        let mut joined = String::new();
        let mut i: usize = 0;
        while i < function.params.len()
            invariant
                0 < function.params@.len(),
                i <= function.params@.len(),
                joined@ == param_list_text(idents_model(function.params@.subrange(0, i as int))),
            decreases function.params@.len() - i,
        {
            proof {
                let next = idents_model(function.params@.subrange(0, i + 1));
                assert(next.subrange(0, next.len() - 1) =~= idents_model(
                    function.params@.subrange(0, i as int),
                ));
            }
            if i > 0 {
                joined.append(", ");
            }
            joined.append("int ");
            joined.append(function.params[i].0.as_str());
            i = i + 1;
        }
        assert(function.params@.subrange(0, function.params@.len() as int) =~= function.params@);
        joined
    };
    proof {
        reveal_strlit("void");
    }
    out.append("int ");
    out.append(function.name.0.as_str());
    out.append("(");
    out.append(params.as_str());
    out.append(") {\n");
    write_compound(out, &function.body, 1);
    out.append("}\n");
}

fn write_compound(out: &mut String, compound: &Compound, depth: usize)
    ensures
        final(out)@ == old(out)@ + statements_text(compound@.statements, depth as nat),
{
    let mut i: usize = 0;
    while i < compound.statements.len()
        invariant
            i <= compound.statements@.len(),
            out@ == old(out)@ + statements_text(
                stmts_model(compound.statements@.subrange(0, i as int)),
                depth as nat,
            ),
        decreases compound.statements@.len() - i,
    {
        proof {
            let next = stmts_model(compound.statements@.subrange(0, i + 1));
            assert(next.subrange(0, next.len() - 1) =~= stmts_model(
                compound.statements@.subrange(0, i as int),
            ));
        }
        write_statement(out, &compound.statements[i], depth);
        i = i + 1;
    }
    assert(compound.statements@.subrange(0, compound.statements@.len() as int)
        =~= compound.statements@);
}

fn write_statement(out: &mut String, statement: &Statement, depth: usize)
    ensures
        final(out)@ == old(out)@ + statement_text(statement@, depth as nat),
{
    let mut level: usize = 0;
    while level < depth
        invariant
            level <= depth,
            out@ == old(out)@ + indentation(level as nat),
        decreases depth - level,
    {
        out.append(INDENT);
        level = level + 1;
    }
    match &statement.kind {
        StmtKind::Declaration { name, value } => match value {
            Some(value) => {
                out.append("int ");
                out.append(name.0.as_str());
                out.append(" = ");
                out.append(print_expression(value).as_str());
                out.append(";\n");
            },
            None => {
                out.append("int ");
                out.append(name.0.as_str());
                out.append(";\n");
            },
        },
        StmtKind::Assign { lhs, rhs } => {
            out.append(print_expression(lhs).as_str());
            out.append(" = ");
            out.append(print_expression(rhs).as_str());
            out.append(";\n");
        },
        StmtKind::ExprStmt(value) => {
            out.append(print_expression(value).as_str());
            out.append(";\n");
        },
        StmtKind::Return(Some(value)) => {
            out.append("return ");
            out.append(print_expression(value).as_str());
            out.append(";\n");
        },
        StmtKind::Return(None) => {
            out.append("return;\n");
        },
        StmtKind::Unsupported { kind } => {
            out.append("/* unsupported: ");
            out.append(kind.as_str());
            out.append(" */\n");
        },
    }
    assert(out@ =~= old(out)@ + statement_text(statement@, depth as nat));
}

fn print_expression(expression: &Expression) -> (text: String)
    ensures
        text@ == expr_text(expression@),
    decreases expression, 1int,
{
    match &expression.kind {
        ExprKind::Variable(Identifier(name)) => name.clone(),
        ExprKind::Int(value) => {
            let mut text = String::new();
            push_decimal_i64(&mut text, *value);
            text
        },
        ExprKind::String(value) => quote(value.as_str()),
        ExprKind::BinaryOp { op, lhs, rhs } => {
            let precedence = op_precedence(op);
            let mut text = operand(lhs, precedence, Side::Left);
            text.append(" ");
            text.append(op_symbol(op));
            text.append(" ");
            text.append(operand(rhs, precedence, Side::Right).as_str());
            text
        },
        ExprKind::Call { callee, args } => {
            let mut text = callee.0.clone();
            text.append("(");
            let ghost models = exprs_model(args@);
            proof {
                lemma_exprs_model(args@);
            }
            let mut i: usize = 0;
            while i < args.len()
                invariant
                    i <= args@.len(),
                    expression.kind is Call,
                    expression.kind->args == *args,
                    models == exprs_model(args@),
                    models.len() == args@.len(),
                    forall|j: int| 0 <= j < args@.len() ==> #[trigger] models[j] == expr_model(args@[j]),
                    text@ == callee.0@ + "("@ + args_text(models.subrange(0, i as int)),
                decreases args@.len() - i,
            {
                proof {
                    let next = models.subrange(0, i + 1);
                    assert(next.subrange(0, next.len() - 1) =~= models.subrange(0, i as int));
                }
                if i > 0 {
                    text.append(", ");
                }
                text.append(print_expression(&args[i]).as_str());
                i = i + 1;
            }
            assert(models.subrange(0, models.len() as int) =~= models);
            text.append(")");
            text
        },
        ExprKind::Unsupported { kind } => {
            let mut text = "/* unsupported: ".to_string();
            text.append(kind.as_str());
            text.append(" */");
            text
        },
    }
}

enum Side {
    Left,
    Right,
}

fn operand(inner: &Expression, parent: u8, side: Side) -> (text: String)
    ensures
        text@ == operand_text(inner@, parent, side is Right),
    decreases inner, 2int,
{
    let text = print_expression(inner);
    let child = precedence(inner);
    let needs_parens = child < parent || (matches!(side, Side::Right) && child == parent);
    if needs_parens {
        let mut wrapped = "(".to_string();
        wrapped.append(text.as_str());
        wrapped.append(")");
        wrapped
    } else {
        text
    }
}

fn precedence(expression: &Expression) -> (precedence: u8)
    ensures
        precedence == precedence_of(expression@),
{
    match &expression.kind {
        ExprKind::BinaryOp { op, .. } => op_precedence(op),
        ExprKind::Int(value) if *value < 0 => PREC_NEGATIVE_LITERAL,
        _ => PRIMARY,
    }
}

fn op_precedence(op: &BinOp) -> (precedence: u8)
    ensures
        precedence == op_precedence_of(*op),
{
    match op {
        BinOp::Add | BinOp::Sub => PREC_ADDITIVE,
        BinOp::Mul | BinOp::Div => PREC_MULTIPLICATIVE,
    }
}

fn op_symbol(op: &BinOp) -> (symbol: &'static str)
    ensures
        symbol@ == op_symbol_of(*op),
{
    match op {
        BinOp::Add => "+",
        BinOp::Sub => "-",
        BinOp::Mul => "*",
        BinOp::Div => "/",
    }
}

/// `value` as a C string literal.
pub(crate) fn quote(value: &str) -> (text: String)
    ensures
        text@ == quoted(value@),
{
    let mut out = "\"".to_string();
    let n = value.unicode_len();
    let mut i: usize = 0;
    while i < n
        invariant
            n == value@.len(),
            i <= n,
            out@ == "\""@ + escaped(value@.subrange(0, i as int)),
        decreases n - i,
    {
        proof {
            let next = value@.subrange(0, i + 1);
            assert(next.subrange(0, next.len() - 1) =~= value@.subrange(0, i as int));
        }
        let character = value.get_char(i);
        if character == '"' {
            out.append("\\\"");
        } else if character == '\\' {
            out.append("\\\\");
        } else if character == '\n' {
            out.append("\\n");
        } else if character == '\r' {
            out.append("\\r");
        } else if character == '\t' {
            out.append("\\t");
        } else {
            out.append(value.substring_char(i, i + 1));
            assert(value@.subrange(i as int, i + 1) =~= seq![character]);
        }
        i = i + 1;
    }
    assert(value@.subrange(0, n as int) =~= value@);
    out.append("\"");
    out
}

} // verus!
