//! The types of the language and the rules that give expressions a type.
use crate::analysis::AnalysisCtx;
use crate::diagnostics::{owned, Diagnostic, Severity};
use crate::lex::token::TokenKind;
use crate::parse::ast::{BinOpKind, Expr, ExprKind, ForInit, LitKind, Program, Stmt, StmtKind, UnaryOpKind};
use crate::span::Span;
use std::collections::HashMap;
use vstd::prelude::*;

verus! {

broadcast use vstd::std_specs::hash::group_hash_axioms;

/// A type of the language.
#[derive(Debug, Clone, Copy, PartialEq, Eq, Structural)]
pub enum Type {
    Int,
    Bool,
    Double,
    Void,
    /// The type that lets analysis go on after an error.
    Error,
}

impl Type {
    /// The type a type keyword names; `Error` for any other token.
    pub fn from_token_kind(value: TokenKind) -> (t: Self)
        ensures
            t == match value {
                TokenKind::Int => Type::Int,
                TokenKind::Double => Type::Double,
                TokenKind::Bool => Type::Bool,
                TokenKind::Void => Type::Void,
                _ => Type::Error,
            },
    {
        match value {
            TokenKind::Int => Type::Int,
            TokenKind::Double => Type::Double,
            TokenKind::Bool => Type::Bool,
            TokenKind::Void => Type::Void,
            _ => Type::Error,
        }
    }
}

/// An implicit conversion that analysis inserts.
#[derive(Debug, Clone, Copy, PartialEq, Eq, Structural)]
pub enum Conversion {
    IntToDouble,
}


/// Operands of arithmetic or comparison that mix an `Int` and a `Double`:
/// which side, if any, is converted to `Double` (`true` for the left).
pub open spec fn numeric_conversion(lhs: Type, rhs: Type) -> Option<bool> {
    if lhs == Type::Int && rhs == Type::Double {
        Some(true)
    } else if lhs == Type::Double && rhs == Type::Int {
        Some(false)
    } else {
        None
    }
}

/// Both operands are numbers: `Int` or `Double`.
pub open spec fn numeric_pair(lhs: Type, rhs: Type) -> bool {
    (lhs == Type::Int || lhs == Type::Double) && (rhs == Type::Int || rhs == Type::Double)
}

/// The operator adds, subtracts, multiplies or divides.
pub open spec fn is_arith(op: BinOpKind) -> bool {
    op is Add || op is Sub || op is Mul || op is Div
}

/// The operator orders its operands.
pub open spec fn is_ordering(op: BinOpKind) -> bool {
    op is GreaterEq || op is GreaterThan || op is LessEq || op is LessThan
}

/// The type of binary operation `op` on operands of types `lhs` and `rhs`:
/// `Error` when an operand is in error, the left one is `void`, or the
/// operator does not apply to them.
pub open spec fn binary_result(op: BinOpKind, lhs: Type, rhs: Type) -> Type {
    if lhs == Type::Error || rhs == Type::Error || lhs == Type::Void {
        Type::Error
    } else if is_arith(op) {
        if !numeric_pair(lhs, rhs) {
            Type::Error
        } else if lhs == Type::Int && rhs == Type::Int {
            Type::Int
        } else {
            Type::Double
        }
    } else if op is EqEq || op is BangEq {
        if numeric_pair(lhs, rhs) || (lhs == Type::Bool && rhs == Type::Bool) { Type::Bool } else { Type::Error }
    } else if is_ordering(op) {
        if numeric_pair(lhs, rhs) { Type::Bool } else { Type::Error }
    } else {
        if lhs == Type::Bool && rhs == Type::Bool { Type::Bool } else { Type::Error }
    }
}

/// How the operators type their operands, whatever the operator and types:
/// the result does not depend on the order of the operands; an operand in
/// error makes the result an error; `==` and `!=` compare any two values of
/// one type (numbers, booleans) and, like the orderings, give a `bool` or an
/// error; the orderings do not apply to booleans; `&&` and `||` apply to
/// two booleans exactly; arithmetic gives an `Int` exactly on two `Int`s
/// and a `Double` on a `Double` and a number.
pub proof fn lemma_operator_types(op: BinOpKind, a: Type, b: Type)
    ensures
        binary_result(op, a, b) == binary_result(op, b, a),
        a == Type::Error || b == Type::Error ==> binary_result(op, a, b) == Type::Error,
        (op is EqEq || op is BangEq) && a == b && a != Type::Void && a != Type::Error
            ==> binary_result(op, a, b) == Type::Bool,
        (op is EqEq || op is BangEq) && a == Type::Bool && b == Type::Bool ==> binary_result(op, a, b) == Type::Bool,
        (op is EqEq || op is BangEq || is_ordering(op))
            ==> binary_result(op, a, b) == Type::Bool || binary_result(op, a, b) == Type::Error,
        is_ordering(op) && (a == Type::Bool || b == Type::Bool) ==> binary_result(op, a, b) == Type::Error,
        is_ordering(op) && (a == Type::Int || a == Type::Double) && (b == Type::Int || b == Type::Double)
            ==> binary_result(op, a, b) == Type::Bool,
        (op is And || op is Or) ==> (binary_result(op, a, b) == Type::Bool <==> a == Type::Bool && b == Type::Bool),
        is_arith(op) ==> (binary_result(op, a, b) == Type::Int <==> a == Type::Int && b == Type::Int),
        is_arith(op) && a == Type::Double && (b == Type::Int || b == Type::Double)
            ==> binary_result(op, a, b) == Type::Double,
        is_arith(op) && (a == Type::Bool || b == Type::Bool) ==> binary_result(op, a, b) == Type::Error,
{
}

/// Which operand a binary operation converts: only an `Int` met by a
/// `Double`, on either side, is converted, for every operator but `&&` and
/// `||`, and never where an operand is in error. Negation keeps the type of
/// a number and does not apply to booleans.
pub proof fn lemma_conversions(op: BinOpKind, a: Type, b: Type, u: UnaryOpKind)
    ensures
        binary_conversion(op, a, b) == Some(true) ==> a == Type::Int && b == Type::Double,
        binary_conversion(op, a, b) == Some(false) ==> a == Type::Double && b == Type::Int,
        !(op is And || op is Or) && a == Type::Int && b == Type::Double ==> binary_conversion(op, a, b) == Some(true),
        !(op is And || op is Or) && a == Type::Double && b == Type::Int ==> binary_conversion(op, a, b) == Some(false),
        (op is And || op is Or) ==> binary_conversion(op, a, b) is None,
        unary_result(u, Type::Int) == Type::Int,
        unary_result(u, Type::Double) == Type::Double,
        unary_result(u, Type::Bool) == Type::Error,
{
}

/// Whether checking binary operation `op` on `lhs` and `rhs` converts an
/// operand: `Some(true)` for the left, `Some(false)` for the right.
pub open spec fn binary_conversion(op: BinOpKind, lhs: Type, rhs: Type) -> Option<bool> {
    if lhs == Type::Error || rhs == Type::Error || lhs == Type::Void || op is And || op is Or {
        None
    } else {
        numeric_conversion(lhs, rhs)
    }
}

/// The type of unary operation `op` on an operand of type `rhs`, which is
/// neither in error nor `void`.
pub open spec fn unary_result(op: UnaryOpKind, rhs: Type) -> Type {
    if rhs == Type::Int || rhs == Type::Double { rhs } else { Type::Error }
}

/// A value of type `value` can be assigned to a place of type `target`.
pub open spec fn assignable(value: Type, target: Type) -> bool {
    value == target || value == Type::Error || target == Type::Error || (target == Type::Double && value == Type::Int)
}

/// The node is a variable, the one kind of expression that can be assigned.
pub open spec fn lvalue(e: Expr) -> bool {
    e.kind is Variable
}

/// The operator reads and writes its operand.
pub open spec fn is_step(op: UnaryOpKind) -> bool {
    !(op is Negate)
}

/// The type that checking gives `e`, where node `id` refers to variable
/// `vars[id]` and variable `v` has type `vt[v]`.
pub open spec fn expr_type(e: Expr, vars: Map<usize, usize>, vt: Map<usize, Type>) -> Type
    decreases e,
{
    match e.kind {
        ExprKind::BinaryOp(o, l, r) => binary_result(o.node, expr_type(*l, vars, vt), expr_type(*r, vars, vt)),
        ExprKind::Literal(LitKind::Int(_)) => Type::Int,
        ExprKind::Literal(LitKind::Bool(_)) => Type::Bool,
        ExprKind::UnaryOp(o, r) => {
            let t = expr_type(*r, vars, vt);
            if is_step(o.node) && !lvalue(*r) {
                Type::Error
            } else if t == Type::Error || t == Type::Void {
                Type::Error
            } else {
                unary_result(o.node, t)
            }
        },
        ExprKind::VarAssign(target, rhs) => {
            let rt = expr_type(*rhs, vars, vt);
            let tt = expr_type(*target, vars, vt);
            if assignable(rt, tt) && lvalue(*target) { rt } else { Type::Error }
        },
        ExprKind::Variable(_) => vt[vars[e.id.0]],
        _ => Type::Error,
    }
}

/// The reports that checking `e` gives, in order.
pub open spec fn expr_diags(e: Expr, vars: Map<usize, usize>, vt: Map<usize, Type>) -> Seq<Report>
    decreases e,
{
    match e.kind {
        ExprKind::BinaryOp(o, l, r) => {
            let lt = expr_type(*l, vars, vt);
            let rt = expr_type(*r, vars, vt);
            let void_left = if lt != Type::Error && rt != Type::Error && lt == Type::Void {
                err("invalid use of 'void' expression"@, l.span)
            } else {
                seq![]
            };
            let invalid = if binary_result(o.node, lt, rt) == Type::Error {
                err(invalid_operands_text(o.node), e.span)
            } else {
                seq![]
            };
            expr_diags(*l, vars, vt) + expr_diags(*r, vars, vt) + void_left + invalid
        },
        ExprKind::UnaryOp(o, r) => {
            let t = expr_type(*r, vars, vt);
            let own = if is_step(o.node) && !lvalue(*r) {
                err(non_lvalue_text(o.node), e.span)
            } else if t == Type::Void {
                err("invalid use of void expression"@, e.span)
            } else {
                seq![]
            };
            expr_diags(*r, vars, vt) + own
        },
        ExprKind::VarAssign(target, rhs) => {
            let rt = expr_type(*rhs, vars, vt);
            let tt = expr_type(*target, vars, vt);
            let own = if !assignable(rt, tt) {
                err("mismatched types"@, e.span)
            } else if !lvalue(*target) {
                err("cannot assign to non-lvalue"@, e.span)
            } else {
                seq![]
            };
            expr_diags(*rhs, vars, vt) + expr_diags(*target, vars, vt) + own
        },
        _ => seq![],
    }
}

/// Checking `e` cannot fail: its variables are resolved and typed, its
/// integer literals fit an `int`, and it holds no error node or call.
pub open spec fn expr_checkable(e: Expr, vars: Map<usize, usize>, vt: Map<usize, Type>) -> bool
    decreases e,
{
    match e.kind {
        ExprKind::BinaryOp(_, l, r) => expr_checkable(*l, vars, vt) && expr_checkable(*r, vars, vt),
        ExprKind::Literal(LitKind::Int(i)) => i <= i32::MAX,
        ExprKind::Literal(LitKind::Bool(_)) => true,
        ExprKind::UnaryOp(_, r) => expr_checkable(*r, vars, vt),
        ExprKind::VarAssign(target, rhs) => expr_checkable(*rhs, vars, vt) && expr_checkable(*target, vars, vt),
        ExprKind::Variable(_) => vars.contains_key(e.id.0) && vt.contains_key(vars[e.id.0]),
        _ => false,
    }
}

/// Binary operation `op` on types `lhs` and `rhs`, as `binary_result`
/// gives it. Reports `void` on the left, and records which operand is
/// converted to a double.
pub fn binary_result_type(op: BinOpKind, lhs: Type, rhs: Type, left_id: usize, right_id: usize,
    left_span: Span, right_span: Span, ctx: &mut AnalysisCtx) -> (t: Type)
    ensures
        t == binary_result(op, lhs, rhs),
        diags_grew(old(ctx).diagnostics@, final(ctx).diagnostics@,
            if lhs != Type::Error && rhs != Type::Error && lhs == Type::Void {
                err("invalid use of 'void' expression"@, left_span)
            } else {
                seq![]
            }),
        final(ctx).conversions@ == match binary_conversion(op, lhs, rhs) {
            Some(true) => old(ctx).conversions@.insert(left_id, Conversion::IntToDouble),
            Some(false) => old(ctx).conversions@.insert(right_id, Conversion::IntToDouble),
            None => old(ctx).conversions@,
        },
        final(ctx).types@ == old(ctx).types@,
        final(ctx).variables@ == old(ctx).variables@,
        final(ctx).var_types@ == old(ctx).var_types@,
{
    proof {
        lemma_diags_same(ctx.diagnostics@);
    }
    if lhs == Type::Error || rhs == Type::Error {
        return Type::Error;
    }
    if lhs == Type::Void {
        report(ctx, "invalid use of 'void' expression", left_span);
        return Type::Error;
    }
    let numeric_l = lhs == Type::Int || lhs == Type::Double;
    let numeric_r = rhs == Type::Int || rhs == Type::Double;
    let both_numeric = numeric_l && numeric_r;
    let logical = op == BinOpKind::And || op == BinOpKind::Or;
    if both_numeric && !logical {
        if lhs == Type::Int && rhs == Type::Double {
            ctx.conversions.insert(left_id, Conversion::IntToDouble);
        } else if lhs == Type::Double && rhs == Type::Int {
            ctx.conversions.insert(right_id, Conversion::IntToDouble);
        }
    }
    match op {
        BinOpKind::Add | BinOpKind::Sub | BinOpKind::Mul | BinOpKind::Div => {
            if !both_numeric {
                Type::Error
            } else if lhs == Type::Int && rhs == Type::Int {
                Type::Int
            } else {
                Type::Double
            }
        },
        BinOpKind::BangEq | BinOpKind::EqEq => {
            if both_numeric || (lhs == Type::Bool && rhs == Type::Bool) { Type::Bool } else { Type::Error }
        },
        BinOpKind::GreaterEq | BinOpKind::GreaterThan | BinOpKind::LessEq | BinOpKind::LessThan => {
            if both_numeric { Type::Bool } else { Type::Error }
        },
        BinOpKind::Or | BinOpKind::And => {
            if lhs == Type::Bool && rhs == Type::Bool { Type::Bool } else { Type::Error }
        },
    }
}

/// Unary operation `op` on a value of type `rhs`, as `unary_result` gives
/// it; `void` is reported.
pub fn unary_result_type(op: UnaryOpKind, rhs: Type, span: Span, ctx: &mut AnalysisCtx) -> (t: Type)
    ensures
        t == if rhs == Type::Error || rhs == Type::Void { Type::Error } else { unary_result(op, rhs) },
        diags_grew(old(ctx).diagnostics@, final(ctx).diagnostics@,
            if rhs == Type::Void { err("invalid use of void expression"@, span) } else { seq![] }),
        final(ctx).types@ == old(ctx).types@,
        final(ctx).variables@ == old(ctx).variables@,
        final(ctx).var_types@ == old(ctx).var_types@,
        final(ctx).conversions@ == old(ctx).conversions@,
{
    proof {
        lemma_diags_same(ctx.diagnostics@);
    }
    if rhs == Type::Error {
        return Type::Error;
    }
    if rhs == Type::Void {
        report(ctx, "invalid use of void expression", span);
        return Type::Error;
    }
    match rhs {
        Type::Int => Type::Int,
        Type::Double => Type::Double,
        _ => Type::Error,
    }
}

/// Whether a value of type `value` can be assigned to a place of type
/// `target`; assigning an `Int` to a `Double` records that `expr` is
/// converted.
pub fn can_assign(value: Type, target: Type, expr_id: usize, ctx: &mut AnalysisCtx) -> (b: bool)
    ensures
        b == assignable(value, target),
        final(ctx).conversions@ == if value != target && value != Type::Error && target != Type::Error
            && target == Type::Double && value == Type::Int {
            old(ctx).conversions@.insert(expr_id, Conversion::IntToDouble)
        } else {
            old(ctx).conversions@
        },
        final(ctx).diagnostics@ == old(ctx).diagnostics@,
        final(ctx).types@ == old(ctx).types@,
        final(ctx).variables@ == old(ctx).variables@,
        final(ctx).var_types@ == old(ctx).var_types@,
{
    if target == value {
        return true;
    }
    if target == Type::Error || value == Type::Error {
        return true;
    }
    if target == Type::Double && value == Type::Int {
        ctx.conversions.insert(expr_id, Conversion::IntToDouble);
        return true;
    }
    false
}

/// Whether `node` can be assigned to: a variable.
pub fn is_lvalue(node: &Expr) -> (b: bool)
    ensures
        b == lvalue(*node),
{
    match node.kind {
        ExprKind::Variable(..) => true,
        _ => false,
    }
}


/// The report for binary operator `op` that does not apply to its operands.
pub open spec fn invalid_operands_text(op: BinOpKind) -> Seq<char> {
    match op {
        BinOpKind::Add => "invalid operands for binary operation: '+'"@,
        BinOpKind::Sub => "invalid operands for binary operation: '-'"@,
        BinOpKind::Mul => "invalid operands for binary operation: '*'"@,
        BinOpKind::Div => "invalid operands for binary operation: '/'"@,
        BinOpKind::EqEq => "invalid operands for binary operation: '=='"@,
        BinOpKind::BangEq => "invalid operands for binary operation: '!='"@,
        BinOpKind::LessThan => "invalid operands for binary operation: '<'"@,
        BinOpKind::GreaterThan => "invalid operands for binary operation: '>'"@,
        BinOpKind::LessEq => "invalid operands for binary operation: '<='"@,
        BinOpKind::GreaterEq => "invalid operands for binary operation: '>='"@,
        BinOpKind::And => "invalid operands for binary operation: '&&'"@,
        BinOpKind::Or => "invalid operands for binary operation: '||'"@,
    }
}

/// The report for increment, decrement or negation `op` of something that
/// is not a variable.
pub open spec fn non_lvalue_text(op: UnaryOpKind) -> Seq<char> {
    match op {
        UnaryOpKind::PostIncrement | UnaryOpKind::PreIncrement => "cannot apply operator '++' on non l-value"@,
        UnaryOpKind::PostDecrement | UnaryOpKind::PreDecrement => "cannot apply operator '--' on non l-value"@,
        UnaryOpKind::Negate => "cannot apply operator '!' on non l-value"@,
    }
}

/// The report for a binary operator that does not apply to its operands.
fn invalid_operands_message(op: BinOpKind) -> (m: &'static str)
    ensures
        m@ == invalid_operands_text(op),
{
    match op {
        BinOpKind::Add => "invalid operands for binary operation: '+'",
        BinOpKind::Sub => "invalid operands for binary operation: '-'",
        BinOpKind::Mul => "invalid operands for binary operation: '*'",
        BinOpKind::Div => "invalid operands for binary operation: '/'",
        BinOpKind::EqEq => "invalid operands for binary operation: '=='",
        BinOpKind::BangEq => "invalid operands for binary operation: '!='",
        BinOpKind::LessThan => "invalid operands for binary operation: '<'",
        BinOpKind::GreaterThan => "invalid operands for binary operation: '>'",
        BinOpKind::LessEq => "invalid operands for binary operation: '<='",
        BinOpKind::GreaterEq => "invalid operands for binary operation: '>='",
        BinOpKind::And => "invalid operands for binary operation: '&&'",
        BinOpKind::Or => "invalid operands for binary operation: '||'",
    }
}

/// The report for an increment or decrement of something that is not a
/// variable.
fn non_lvalue_message(op: UnaryOpKind) -> (m: &'static str)
    ensures
        m@ == non_lvalue_text(op),
{
    match op {
        UnaryOpKind::PostIncrement | UnaryOpKind::PreIncrement => "cannot apply operator '++' on non l-value",
        UnaryOpKind::PostDecrement | UnaryOpKind::PreDecrement => "cannot apply operator '--' on non l-value",
        UnaryOpKind::Negate => "cannot apply operator '!' on non l-value",
    }
}

/// A report as a reader sees it: its message, span and severity.
pub type Report = (Seq<char>, Span, Severity);

/// What `d` reports.
pub open spec fn report_of(d: Diagnostic) -> Report {
    (d.message@, d.span, d.severity)
}

/// What each diagnostic of `ds` reports, in order.
pub open spec fn reports_of(ds: Seq<Diagnostic>) -> Seq<Report> {
    ds.map_values(|d: Diagnostic| report_of(d))
}

/// What two runs of diagnostics report, one after the other.
pub proof fn lemma_reports_append(a: Seq<Diagnostic>, b: Seq<Diagnostic>)
    ensures
        diags_grew(a, a + b, reports_of(b)),
{
    assert((a + b).subrange(0, a.len() as int) =~= a);
    assert(reports_of(a + b) =~= reports_of(a) + reports_of(b));
}

/// The one error `message` about `span`.
pub open spec fn err(message: Seq<char>, span: Span) -> Seq<Report> {
    seq![(message, span, Severity::Error)]
}

/// Reports `message` about `span`.
fn report(ctx: &mut AnalysisCtx, message: &str, span: Span)
    ensures
        diags_grew(old(ctx).diagnostics@, final(ctx).diagnostics@, err(message@, span)),
        final(ctx).types@ == old(ctx).types@,
        final(ctx).variables@ == old(ctx).variables@,
        final(ctx).var_types@ == old(ctx).var_types@,
        final(ctx).conversions@ == old(ctx).conversions@,
{
    let d = Diagnostic::new(owned(message), span, Severity::Error);
    let ghost before = ctx.diagnostics@;
    ctx.diagnostics.push(d);
    proof {
        lemma_diags_push(before, d);
    }
}

/// The diagnostics `after` keep those of `before` and add the reports `r`
/// after them, in order.
pub open spec fn diags_grew(before: Seq<Diagnostic>, after: Seq<Diagnostic>, r: Seq<Report>) -> bool {
    &&& after.len() == before.len() + r.len()
    &&& after.subrange(0, before.len() as int) == before
    &&& reports_of(after) == reports_of(before) + r
}

/// Adding nothing keeps the diagnostics.
pub proof fn lemma_diags_same(a: Seq<Diagnostic>)
    ensures
        diags_grew(a, a, seq![]),
{
    assert(a.subrange(0, a.len() as int) =~= a);
    assert(reports_of(a) + seq![] =~= reports_of(a));
}

/// Pushing `d` adds what `d` reports.
pub proof fn lemma_diags_push(a: Seq<Diagnostic>, d: Diagnostic)
    ensures
        diags_grew(a, a.push(d), seq![report_of(d)]),
{
    assert(a.push(d).subrange(0, a.len() as int) =~= a);
    assert(reports_of(a.push(d)) =~= reports_of(a) + seq![report_of(d)]);
}

/// `diags_grew` composes.
pub proof fn lemma_diags_grew_trans(a: Seq<Diagnostic>, b: Seq<Diagnostic>, c: Seq<Diagnostic>,
    x: Seq<Report>, y: Seq<Report>)
    requires
        diags_grew(a, b, x),
        diags_grew(b, c, y),
    ensures
        diags_grew(a, c, x + y),
{
    assert(c.subrange(0, a.len() as int) =~= c.subrange(0, b.len() as int).subrange(0, a.len() as int));
    assert(reports_of(a) + x + y =~= reports_of(a) + (x + y));
}

/// Gives expressions and statements their types.
pub struct TypeChecker;

impl TypeChecker {
    /// A type checker.
    pub fn new() -> (t: Self) {
        TypeChecker
    }

    /// The type of `expr`, as `expr_type` gives it; adds the reports that
    /// `expr_diags` gives, in order, and records the type of each node it
    /// types.
    pub fn check_expr(&mut self, expr: &Expr, ctx: &mut AnalysisCtx) -> (t: Type)
        requires
            expr_checkable(*expr, old(ctx).variables@, old(ctx).var_types@),
        ensures
            t == expr_type(*expr, old(ctx).variables@, old(ctx).var_types@),
            diags_grew(old(ctx).diagnostics@, final(ctx).diagnostics@,
                expr_diags(*expr, old(ctx).variables@, old(ctx).var_types@)),
            final(ctx).variables@ == old(ctx).variables@,
            final(ctx).var_types@ == old(ctx).var_types@,
            !(expr.kind matches ExprKind::UnaryOp(o, r) && is_step(o.node) && !lvalue(*r))
                ==> final(ctx).types@.contains_key(expr.id.0) && final(ctx).types@[expr.id.0] == t,
            final(ctx).types@ == expr_tm(*expr, old(ctx).variables@, old(ctx).var_types@, old(ctx).types@),
            final(ctx).conversions@ == expr_cv(*expr, old(ctx).variables@, old(ctx).var_types@, old(ctx).conversions@),
        decreases *expr,
    {
        let ghost vars = ctx.variables@;
        let ghost vt = ctx.var_types@;
        let ghost d0 = ctx.diagnostics@;
        let ty = match &expr.kind {
            ExprKind::BinaryOp(op, left, right) => {
                let left_type = self.check_expr(left, ctx);
                let ghost d1 = ctx.diagnostics@;
                let right_type = self.check_expr(right, ctx);
                let ghost d2 = ctx.diagnostics@;
                let res = binary_result_type(op.node, left_type, right_type, left.id.0, right.id.0, left.span,
                    right.span, ctx);
                let ghost d3 = ctx.diagnostics@;
                let ghost void_left = if left_type != Type::Error && right_type != Type::Error
                    && left_type == Type::Void {
                    err("invalid use of 'void' expression"@, left.span)
                } else {
                    seq![]
                };
                let ghost so_far = expr_diags(**left, vars, vt) + expr_diags(**right, vars, vt) + void_left;
                proof {
                    lemma_diags_grew_trans(d0, d1, d2, expr_diags(**left, vars, vt), expr_diags(**right, vars, vt));
                    lemma_diags_grew_trans(d0, d2, d3, expr_diags(**left, vars, vt) + expr_diags(**right, vars, vt),
                        void_left);
                }
                if res == Type::Error {
                    report(ctx, invalid_operands_message(op.node), expr.span);
                    proof {
                        lemma_diags_grew_trans(d0, d3, ctx.diagnostics@, so_far,
                            err(invalid_operands_text(op.node), expr.span));
                    }
                } else {
                    proof {
                        lemma_diags_same(d3);
                        lemma_diags_grew_trans(d0, d3, d3, so_far, seq![]);
                    }
                }
                res
            },
            ExprKind::Literal(lit) => match lit {
                LitKind::Int(_) => Type::Int,
                LitKind::Bool(_) => Type::Bool,
            },
            ExprKind::UnaryOp(op, right) => {
                let expr_type = self.check_expr(right, ctx);
                let ghost d1 = ctx.diagnostics@;
                if op.node != UnaryOpKind::Negate && !is_lvalue(right) {
                    report(ctx, non_lvalue_message(op.node), expr.span);
                    proof {
                        lemma_diags_grew_trans(d0, d1, ctx.diagnostics@, expr_diags(**right, vars, vt),
                            err(non_lvalue_text(op.node), expr.span));
                    }
                    return Type::Error;
                }
                let r = unary_result_type(op.node, expr_type, expr.span, ctx);
                proof {
                    lemma_diags_grew_trans(d0, d1, ctx.diagnostics@, expr_diags(**right, vars, vt),
                        if expr_type == Type::Void { err("invalid use of void expression"@, expr.span) } else { seq![] });
                }
                r
            },
            ExprKind::VarAssign(target, rhs) => {
                let rhs_type = self.check_expr(rhs, ctx);
                let ghost d1 = ctx.diagnostics@;
                let target_type = self.check_expr(target, ctx);
                let ghost d2 = ctx.diagnostics@;
                let ghost both = expr_diags(**rhs, vars, vt) + expr_diags(**target, vars, vt);
                proof {
                    lemma_diags_grew_trans(d0, d1, d2, expr_diags(**rhs, vars, vt), expr_diags(**target, vars, vt));
                }
                if !can_assign(rhs_type, target_type, rhs.id.0, ctx) {
                    report(ctx, "mismatched types", expr.span);
                    proof {
                        lemma_diags_grew_trans(d0, d2, ctx.diagnostics@, both, err("mismatched types"@, expr.span));
                    }
                    Type::Error
                } else if !is_lvalue(target) {
                    report(ctx, "cannot assign to non-lvalue", expr.span);
                    proof {
                        lemma_diags_grew_trans(d0, d2, ctx.diagnostics@, both,
                            err("cannot assign to non-lvalue"@, expr.span));
                    }
                    Type::Error
                } else {
                    proof {
                        lemma_diags_same(d2);
                        lemma_diags_grew_trans(d0, d2, d2, both, seq![]);
                    }
                    rhs_type
                }
            },
            ExprKind::Variable(..) => {
                let varid = match ctx.variables.get(&expr.id.0) {
                    Some(v) => *v,
                    None => {
                        proof { assert(false); }
                        0
                    },
                };
                match ctx.var_types.get(&varid) {
                    Some(t) => *t,
                    None => {
                        proof { assert(false); }
                        Type::Error
                    },
                }
            },
            _ => {
                proof { assert(false); }
                Type::Error
            },
        };
        proof {
            if expr.kind is Literal || expr.kind is Variable {
                lemma_diags_same(d0);
            }
        }
        ctx.types.insert(expr.id.0, ty);
        ty
    }
}


/// The reports that checking an optional expression gives.
pub open spec fn opt_expr_diags(e: Option<Expr>, vars: Map<usize, usize>, vt: Map<usize, Type>) -> Seq<Report> {
    match e {
        Some(x) => expr_diags(x, vars, vt),
        None => seq![],
    }
}

/// A condition of this type is reported: it is neither `bool` nor in error.
pub open spec fn bad_cond(t: Type) -> bool {
    t != Type::Bool && t != Type::Error
}

/// The types of variables after checking `s` from types `vt`.
pub open spec fn stmt_vt(s: Stmt, vars: Map<usize, usize>, vt: Map<usize, Type>) -> Map<usize, Type>
    decreases s,
{
    match s.kind {
        StmtKind::Block(body) => stmts_vt(body@, vars, vt),
        StmtKind::VarDecl(_, ann, init) => match ann {
            Some(a) => match init {
                Some(x) => if assignable(expr_type(x, vars, vt), a) { vt.insert(vars[s.id.0], a) } else { vt },
                None => vt.insert(vars[s.id.0], a),
            },
            None => match init {
                Some(x) => vt.insert(vars[s.id.0], expr_type(x, vars, vt)),
                None => vt,
            },
        },
        StmtKind::If(c, b, e) => if bad_cond(expr_type(*c, vars, vt)) {
            vt
        } else {
            let v1 = stmt_vt(*b, vars, vt);
            match e {
                Some(x) => stmt_vt(*x, vars, v1),
                None => v1,
            }
        },
        StmtKind::While(c, b) => if bad_cond(expr_type(*c, vars, vt)) { vt } else { stmt_vt(*b, vars, vt) },
        StmtKind::For(init, c, _, b) => {
            let v1 = for_init_vt(init, vars, vt);
            if (c matches Some(x) && bad_cond(expr_type(x, vars, v1))) { v1 } else { stmt_vt(*b, vars, v1) }
        },
        _ => vt,
    }
}

/// The types of variables after checking a `for` loop's initializer.
pub open spec fn for_init_vt(init: Option<Box<ForInit>>, vars: Map<usize, usize>, vt: Map<usize, Type>) -> Map<usize, Type>
    decreases init,
{
    match init {
        Some(i) => match *i {
            ForInit::Statement(d) => stmt_vt(d, vars, vt),
            ForInit::Expr(_) => vt,
        },
        None => vt,
    }
}

pub open spec fn stmts_vt(ss: Seq<Stmt>, vars: Map<usize, usize>, vt: Map<usize, Type>) -> Map<usize, Type>
    decreases ss,
{
    if ss.len() == 0 { vt } else { stmt_vt(ss.last(), vars, stmts_vt(ss.drop_last(), vars, vt)) }
}

/// The type recorded for each node after checking `e` from the record `tm`:
/// each node gets its type after its operands, but for `++` or `--` on what
/// is not a variable.
pub open spec fn expr_tm(e: Expr, vars: Map<usize, usize>, vt: Map<usize, Type>, tm: Map<usize, Type>) -> Map<usize, Type>
    decreases e,
{
    match e.kind {
        ExprKind::BinaryOp(_, l, r) => expr_tm(*r, vars, vt, expr_tm(*l, vars, vt, tm)).insert(e.id.0, expr_type(e, vars, vt)),
        ExprKind::UnaryOp(o, r) => {
            let t1 = expr_tm(*r, vars, vt, tm);
            if is_step(o.node) && !lvalue(*r) { t1 } else { t1.insert(e.id.0, expr_type(e, vars, vt)) }
        },
        ExprKind::VarAssign(t, v) => expr_tm(*t, vars, vt, expr_tm(*v, vars, vt, tm)).insert(e.id.0, expr_type(e, vars, vt)),
        _ => tm.insert(e.id.0, expr_type(e, vars, vt)),
    }
}

/// The record of node types after checking `s` from types `vt` and the
/// record `tm`.
pub open spec fn stmt_tm(s: Stmt, vars: Map<usize, usize>, vt: Map<usize, Type>, tm: Map<usize, Type>) -> Map<usize, Type>
    decreases s,
{
    match s.kind {
        StmtKind::Block(body) => stmts_tm(body@, vars, vt, tm),
        StmtKind::ExprStmt(e) => expr_tm(*e, vars, vt, tm),
        StmtKind::Print(e) => expr_tm(*e, vars, vt, tm),
        StmtKind::VarDecl(_, _, init) => match init {
            Some(x) => expr_tm(x, vars, vt, tm),
            None => tm,
        },
        StmtKind::If(c, b, e) => {
            let t1 = expr_tm(*c, vars, vt, tm);
            if bad_cond(expr_type(*c, vars, vt)) {
                t1
            } else {
                let t2 = stmt_tm(*b, vars, vt, t1);
                match e {
                    Some(x) => stmt_tm(*x, vars, stmt_vt(*b, vars, vt), t2),
                    None => t2,
                }
            }
        },
        StmtKind::While(c, b) => {
            let t1 = expr_tm(*c, vars, vt, tm);
            if bad_cond(expr_type(*c, vars, vt)) { t1 } else { stmt_tm(*b, vars, vt, t1) }
        },
        StmtKind::For(init, c, inc, b) => {
            let t1 = for_init_tm(init, vars, vt, tm);
            let v1 = for_init_vt(init, vars, vt);
            let (t2, stop) = match c {
                Some(x) => (expr_tm(x, vars, v1, t1), bad_cond(expr_type(x, vars, v1))),
                None => (t1, false),
            };
            if stop {
                t2
            } else {
                let t3 = match inc {
                    Some(x) => expr_tm(x, vars, v1, t2),
                    None => t2,
                };
                stmt_tm(*b, vars, v1, t3)
            }
        },
        _ => tm,
    }
}

/// The record of node types after checking a `for` loop's initializer.
pub open spec fn for_init_tm(init: Option<Box<ForInit>>, vars: Map<usize, usize>, vt: Map<usize, Type>, tm: Map<usize, Type>) -> Map<usize, Type>
    decreases init,
{
    match init {
        Some(i) => match *i {
            ForInit::Statement(d) => stmt_tm(d, vars, vt, tm),
            ForInit::Expr(x) => expr_tm(x, vars, vt, tm),
        },
        None => tm,
    }
}

pub open spec fn stmts_tm(ss: Seq<Stmt>, vars: Map<usize, usize>, vt: Map<usize, Type>, tm: Map<usize, Type>) -> Map<usize, Type>
    decreases ss,
{
    if ss.len() == 0 {
        tm
    } else {
        stmt_tm(ss.last(), vars, stmts_vt(ss.drop_last(), vars, vt), stmts_tm(ss.drop_last(), vars, vt, tm))
    }
}

/// The conversion an assignment of a `value` to a `target` adds at node
/// `id` to the conversions `cv`.
pub open spec fn assign_cv(value: Type, target: Type, id: usize, cv: Map<usize, Conversion>) -> Map<usize, Conversion> {
    if value != target && value != Type::Error && target != Type::Error && target == Type::Double && value == Type::Int {
        cv.insert(id, Conversion::IntToDouble)
    } else {
        cv
    }
}

/// The conversions recorded after checking `e` from the record `cv`.
pub open spec fn expr_cv(e: Expr, vars: Map<usize, usize>, vt: Map<usize, Type>, cv: Map<usize, Conversion>) -> Map<usize, Conversion>
    decreases e,
{
    match e.kind {
        ExprKind::BinaryOp(op, l, r) => {
            let c2 = expr_cv(*r, vars, vt, expr_cv(*l, vars, vt, cv));
            match binary_conversion(op.node, expr_type(*l, vars, vt), expr_type(*r, vars, vt)) {
                Some(true) => c2.insert(l.id.0, Conversion::IntToDouble),
                Some(false) => c2.insert(r.id.0, Conversion::IntToDouble),
                None => c2,
            }
        },
        ExprKind::UnaryOp(_, r) => expr_cv(*r, vars, vt, cv),
        ExprKind::VarAssign(t, v) => {
            let c2 = expr_cv(*t, vars, vt, expr_cv(*v, vars, vt, cv));
            assign_cv(expr_type(*v, vars, vt), expr_type(*t, vars, vt), v.id.0, c2)
        },
        _ => cv,
    }
}

/// The conversions recorded after checking `s` from types `vt` and the
/// record `cv`.
pub open spec fn stmt_cv(s: Stmt, vars: Map<usize, usize>, vt: Map<usize, Type>, cv: Map<usize, Conversion>) -> Map<usize, Conversion>
    decreases s,
{
    match s.kind {
        StmtKind::Block(body) => stmts_cv(body@, vars, vt, cv),
        StmtKind::ExprStmt(e) => expr_cv(*e, vars, vt, cv),
        StmtKind::Print(e) => expr_cv(*e, vars, vt, cv),
        StmtKind::VarDecl(_, ann, init) => match init {
            Some(x) => match ann {
                Some(a) => assign_cv(expr_type(x, vars, vt), a, x.id.0, expr_cv(x, vars, vt, cv)),
                None => expr_cv(x, vars, vt, cv),
            },
            None => cv,
        },
        StmtKind::If(c, b, e) => {
            let c1 = expr_cv(*c, vars, vt, cv);
            if bad_cond(expr_type(*c, vars, vt)) {
                c1
            } else {
                let c2 = stmt_cv(*b, vars, vt, c1);
                match e {
                    Some(x) => stmt_cv(*x, vars, stmt_vt(*b, vars, vt), c2),
                    None => c2,
                }
            }
        },
        StmtKind::While(c, b) => {
            let c1 = expr_cv(*c, vars, vt, cv);
            if bad_cond(expr_type(*c, vars, vt)) { c1 } else { stmt_cv(*b, vars, vt, c1) }
        },
        StmtKind::For(init, c, inc, b) => {
            let c1 = for_init_cv(init, vars, vt, cv);
            let v1 = for_init_vt(init, vars, vt);
            let (c2, stop) = match c {
                Some(x) => (expr_cv(x, vars, v1, c1), bad_cond(expr_type(x, vars, v1))),
                None => (c1, false),
            };
            if stop {
                c2
            } else {
                let c3 = match inc {
                    Some(x) => expr_cv(x, vars, v1, c2),
                    None => c2,
                };
                stmt_cv(*b, vars, v1, c3)
            }
        },
        _ => cv,
    }
}

/// The conversions recorded after checking a `for` loop's initializer.
pub open spec fn for_init_cv(init: Option<Box<ForInit>>, vars: Map<usize, usize>, vt: Map<usize, Type>, cv: Map<usize, Conversion>) -> Map<usize, Conversion>
    decreases init,
{
    match init {
        Some(i) => match *i {
            ForInit::Statement(d) => stmt_cv(d, vars, vt, cv),
            ForInit::Expr(x) => expr_cv(x, vars, vt, cv),
        },
        None => cv,
    }
}

pub open spec fn stmts_cv(ss: Seq<Stmt>, vars: Map<usize, usize>, vt: Map<usize, Type>, cv: Map<usize, Conversion>) -> Map<usize, Conversion>
    decreases ss,
{
    if ss.len() == 0 {
        cv
    } else {
        stmt_cv(ss.last(), vars, stmts_vt(ss.drop_last(), vars, vt), stmts_cv(ss.drop_last(), vars, vt, cv))
    }
}

/// The reports that checking `s` from types `vt` gives, in order.
pub open spec fn stmt_diags(s: Stmt, vars: Map<usize, usize>, vt: Map<usize, Type>) -> Seq<Report>
    decreases s,
{
    match s.kind {
        StmtKind::Block(body) => stmts_diags(body@, vars, vt),
        StmtKind::ExprStmt(e) => expr_diags(*e, vars, vt),
        StmtKind::Print(e) => expr_diags(*e, vars, vt) + if expr_type(*e, vars, vt) == Type::Void {
            err("invalid use of 'void' expression"@, e.span)
        } else {
            seq![]
        },
        StmtKind::VarDecl(_, ann, init) => match init {
            Some(x) => expr_diags(x, vars, vt) + match ann {
                Some(a) => if assignable(expr_type(x, vars, vt), a) {
                    seq![]
                } else {
                    err("mismatched types"@, s.span)
                },
                None => seq![],
            },
            None => if ann is None { err("type annotation required"@, s.span) } else { seq![] },
        },
        StmtKind::If(c, b, e) => {
            let cd = expr_diags(*c, vars, vt);
            if bad_cond(expr_type(*c, vars, vt)) {
                cd + err("if statement condition must have type 'bool'"@, c.span)
            } else {
                match e {
                    Some(x) => cd + stmt_diags(*b, vars, vt) + stmt_diags(*x, vars, stmt_vt(*b, vars, vt)),
                    None => cd + stmt_diags(*b, vars, vt),
                }
            }
        },
        StmtKind::While(c, b) => {
            let cd = expr_diags(*c, vars, vt);
            if bad_cond(expr_type(*c, vars, vt)) {
                cd + err("while statement condition must have type 'bool'"@, c.span)
            } else {
                cd + stmt_diags(*b, vars, vt)
            }
        },
        StmtKind::For(init, c, inc, b) => {
            let v1 = for_init_vt(init, vars, vt);
            let head = for_init_diags(init, vars, vt) + opt_expr_diags(c, vars, v1);
            if c is Some && bad_cond(expr_type(c->0, vars, v1)) {
                head + err("for loop condition must have type 'bool'"@, c->0.span)
            } else {
                head + opt_expr_diags(inc, vars, v1) + stmt_diags(*b, vars, v1)
            }
        },
        _ => seq![],
    }
}

/// The reports that checking a `for` loop's initializer gives.
pub open spec fn for_init_diags(init: Option<Box<ForInit>>, vars: Map<usize, usize>, vt: Map<usize, Type>) -> Seq<Report>
    decreases init,
{
    match init {
        Some(i) => match *i {
            ForInit::Statement(d) => stmt_diags(d, vars, vt),
            ForInit::Expr(x) => expr_diags(x, vars, vt),
        },
        None => seq![],
    }
}

/// The reports that checking `ss` in turn gives, in order.
pub open spec fn stmts_diags(ss: Seq<Stmt>, vars: Map<usize, usize>, vt: Map<usize, Type>) -> Seq<Report>
    decreases ss,
{
    if ss.len() == 0 {
        seq![]
    } else {
        stmts_diags(ss.drop_last(), vars, vt) + stmt_diags(ss.last(), vars, stmts_vt(ss.drop_last(), vars, vt))
    }
}

/// Checking `s` from types `vt` cannot fail: each expression it checks is
/// checkable when it is reached, and each declaration it types is resolved.
pub open spec fn stmt_checkable(s: Stmt, vars: Map<usize, usize>, vt: Map<usize, Type>) -> bool
    decreases s,
{
    match s.kind {
        StmtKind::Block(body) => stmts_checkable(body@, vars, vt),
        StmtKind::ExprStmt(e) => expr_checkable(*e, vars, vt),
        StmtKind::Print(e) => expr_checkable(*e, vars, vt),
        StmtKind::VarDecl(_, ann, init) => {
            &&& (ann is Some || init is Some) ==> vars.contains_key(s.id.0)
            &&& init matches Some(x) ==> expr_checkable(x, vars, vt)
        },
        StmtKind::If(c, b, e) => expr_checkable(*c, vars, vt) && (!bad_cond(expr_type(*c, vars, vt)) ==> {
            &&& stmt_checkable(*b, vars, vt)
            &&& e matches Some(x) ==> stmt_checkable(*x, vars, stmt_vt(*b, vars, vt))
        }),
        StmtKind::While(c, b) => expr_checkable(*c, vars, vt) && (!bad_cond(expr_type(*c, vars, vt))
            ==> stmt_checkable(*b, vars, vt)),
        StmtKind::For(init, c, inc, b) => {
            let v1 = for_init_vt(init, vars, vt);
            &&& for_init_checkable(init, vars, vt)
            &&& c matches Some(x) ==> expr_checkable(x, vars, v1)
            &&& !(c matches Some(x) && bad_cond(expr_type(x, vars, v1))) ==> {
                &&& inc matches Some(x) ==> expr_checkable(x, vars, v1)
                &&& stmt_checkable(*b, vars, v1)
            }
        },
        StmtKind::Break => true,
        StmtKind::Continue => true,
        StmtKind::Error => false,
    }
}

pub open spec fn for_init_checkable(init: Option<Box<ForInit>>, vars: Map<usize, usize>, vt: Map<usize, Type>) -> bool
    decreases init,
{
    match init {
        Some(i) => match *i {
            ForInit::Statement(d) => stmt_checkable(d, vars, vt),
            ForInit::Expr(x) => expr_checkable(x, vars, vt),
        },
        None => true,
    }
}

pub open spec fn stmts_checkable(ss: Seq<Stmt>, vars: Map<usize, usize>, vt: Map<usize, Type>) -> bool
    decreases ss,
{
    if ss.len() == 0 {
        true
    } else {
        stmts_checkable(ss.drop_last(), vars, vt) && stmt_checkable(ss.last(), vars, stmts_vt(ss.drop_last(), vars, vt))
    }
}


impl TypeChecker {
    /// The variable that node `id` refers to; analysis resolved it.
    fn variable(ctx: &AnalysisCtx, id: usize) -> (v: usize)
        requires
            ctx.variables@.contains_key(id),
        ensures
            v == ctx.variables@[id],
    {
        match ctx.variables.get(&id) {
            Some(v) => *v,
            None => {
                proof { assert(false); }
                0
            },
        }
    }

    /// Checks `stmt`: adds the reports that `stmt_diags` gives, in order, and
    /// types variables as `stmt_vt` says.
    pub fn check_stmt(&mut self, stmt: &Stmt, ctx: &mut AnalysisCtx)
        requires
            stmt_checkable(*stmt, old(ctx).variables@, old(ctx).var_types@),
        ensures
            final(ctx).var_types@ == stmt_vt(*stmt, old(ctx).variables@, old(ctx).var_types@),
            diags_grew(old(ctx).diagnostics@, final(ctx).diagnostics@,
                stmt_diags(*stmt, old(ctx).variables@, old(ctx).var_types@)),
            final(ctx).variables@ == old(ctx).variables@,
            final(ctx).types@ == stmt_tm(*stmt, old(ctx).variables@, old(ctx).var_types@, old(ctx).types@),
            final(ctx).conversions@ == stmt_cv(*stmt, old(ctx).variables@, old(ctx).var_types@, old(ctx).conversions@),
        decreases *stmt, 1nat,
    {
        let ghost d0 = ctx.diagnostics@;
        match &stmt.kind {
            StmtKind::Block(_) => self.check_block(stmt, ctx),
            StmtKind::ExprStmt(expr) => {
                self.check_expr(expr, ctx);
            },
            StmtKind::Print(expr) => {
                let ghost vars = ctx.variables@;
                let ghost vt = ctx.var_types@;
                let expr_type = self.check_expr(expr, ctx);
                let ghost d1 = ctx.diagnostics@;
                if expr_type == Type::Void {
                    report(ctx, "invalid use of 'void' expression", expr.span);
                    proof {
                        lemma_diags_grew_trans(d0, d1, ctx.diagnostics@, expr_diags(**expr, vars, vt),
                            err("invalid use of 'void' expression"@, expr.span));
                    }
                } else {
                    proof {
                        lemma_diags_same(d1);
                        lemma_diags_grew_trans(d0, d1, ctx.diagnostics@, expr_diags(**expr, vars, vt), seq![]);
                    }
                }
            },
            StmtKind::VarDecl(..) => self.check_var_decl(stmt, ctx),
            StmtKind::If(..) => self.check_if(stmt, ctx),
            StmtKind::While(..) => self.check_while(stmt, ctx),
            StmtKind::For(..) => self.check_for(stmt, ctx),
            StmtKind::Break | StmtKind::Continue => {
                proof { lemma_diags_same(d0); }
            },
            StmtKind::Error => {
                proof { assert(false); }
            },
        }
    }

    fn check_var_decl(&mut self, stmt: &Stmt, ctx: &mut AnalysisCtx)
        requires
            stmt.kind is VarDecl,
            stmt_checkable(*stmt, old(ctx).variables@, old(ctx).var_types@),
        ensures
            final(ctx).var_types@ == stmt_vt(*stmt, old(ctx).variables@, old(ctx).var_types@),
            diags_grew(old(ctx).diagnostics@, final(ctx).diagnostics@,
                stmt_diags(*stmt, old(ctx).variables@, old(ctx).var_types@)),
            final(ctx).variables@ == old(ctx).variables@,
            final(ctx).types@ == stmt_tm(*stmt, old(ctx).variables@, old(ctx).var_types@, old(ctx).types@),
            final(ctx).conversions@ == stmt_cv(*stmt, old(ctx).variables@, old(ctx).var_types@, old(ctx).conversions@),
    {
        let ghost d0 = ctx.diagnostics@;
        let ghost vars = ctx.variables@;
        let ghost vt = ctx.var_types@;
        proof { lemma_diags_same(d0); }
        if let StmtKind::VarDecl(_, type_annotation, initializer) = &stmt.kind {
            match type_annotation {
                Some(annotation) => {
                    let varid = Self::variable(ctx, stmt.id.0);
                    match initializer {
                        Some(init) => {
                            let initializer_type = self.check_expr(init, ctx);
                            let ghost d1 = ctx.diagnostics@;
                            if !can_assign(initializer_type, *annotation, init.id.0, ctx) {
                                report(ctx, "mismatched types", stmt.span);
                                proof {
                                    lemma_diags_grew_trans(d0, d1, ctx.diagnostics@, expr_diags(*init, vars, vt),
                                        err("mismatched types"@, stmt.span));
                                }
                                return;
                            }
                            ctx.var_types.insert(varid, *annotation);
                            proof {
                                lemma_diags_same(d1);
                                lemma_diags_grew_trans(d0, d1, ctx.diagnostics@, expr_diags(*init, vars, vt), seq![]);
                            }
                        },
                        None => {
                            ctx.var_types.insert(varid, *annotation);
                        },
                    }
                },
                None => match initializer {
                    Some(init) => {
                        let initializer_type = self.check_expr(init, ctx);
                        let ghost d1 = ctx.diagnostics@;
                        let varid = Self::variable(ctx, stmt.id.0);
                        ctx.var_types.insert(varid, initializer_type);
                        proof {
                            lemma_diags_same(d1);
                            lemma_diags_grew_trans(d0, d1, ctx.diagnostics@, expr_diags(*init, vars, vt), seq![]);
                        }
                    },
                    None => {
                        report(ctx, "type annotation required", stmt.span);
                    },
                },
            }
        }
    }

    fn check_if(&mut self, stmt: &Stmt, ctx: &mut AnalysisCtx)
        requires
            stmt.kind is If,
            stmt_checkable(*stmt, old(ctx).variables@, old(ctx).var_types@),
        ensures
            final(ctx).var_types@ == stmt_vt(*stmt, old(ctx).variables@, old(ctx).var_types@),
            diags_grew(old(ctx).diagnostics@, final(ctx).diagnostics@,
                stmt_diags(*stmt, old(ctx).variables@, old(ctx).var_types@)),
            final(ctx).variables@ == old(ctx).variables@,
            final(ctx).types@ == stmt_tm(*stmt, old(ctx).variables@, old(ctx).var_types@, old(ctx).types@),
            final(ctx).conversions@ == stmt_cv(*stmt, old(ctx).variables@, old(ctx).var_types@, old(ctx).conversions@),
        decreases *stmt, 0nat,
    {
        let ghost d0 = ctx.diagnostics@;
        let ghost vars = ctx.variables@;
        let ghost vt = ctx.var_types@;
        if let StmtKind::If(cond, body, else_body) = &stmt.kind {
            let cond_ty = self.check_expr(cond, ctx);
            let ghost d1 = ctx.diagnostics@;
            let ghost cd = expr_diags(**cond, vars, vt);
            if cond_ty != Type::Bool && cond_ty != Type::Error {
                report(ctx, "if statement condition must have type 'bool'", cond.span);
                proof {
                    lemma_diags_grew_trans(d0, d1, ctx.diagnostics@, cd,
                        err("if statement condition must have type 'bool'"@, cond.span));
                }
                return;
            }
            self.check_stmt(body, ctx);
            let ghost d2 = ctx.diagnostics@;
            let ghost bd = stmt_diags(**body, vars, vt);
            proof { lemma_diags_grew_trans(d0, d1, d2, cd, bd); }
            if let Some(e) = else_body {
                self.check_stmt(e, ctx);
                proof {
                    lemma_diags_grew_trans(d0, d2, ctx.diagnostics@, cd + bd,
                        stmt_diags(**e, vars, stmt_vt(**body, vars, vt)));
                }
            }
        }
    }

    fn check_while(&mut self, stmt: &Stmt, ctx: &mut AnalysisCtx)
        requires
            stmt.kind is While,
            stmt_checkable(*stmt, old(ctx).variables@, old(ctx).var_types@),
        ensures
            final(ctx).var_types@ == stmt_vt(*stmt, old(ctx).variables@, old(ctx).var_types@),
            diags_grew(old(ctx).diagnostics@, final(ctx).diagnostics@,
                stmt_diags(*stmt, old(ctx).variables@, old(ctx).var_types@)),
            final(ctx).variables@ == old(ctx).variables@,
            final(ctx).types@ == stmt_tm(*stmt, old(ctx).variables@, old(ctx).var_types@, old(ctx).types@),
            final(ctx).conversions@ == stmt_cv(*stmt, old(ctx).variables@, old(ctx).var_types@, old(ctx).conversions@),
        decreases *stmt, 0nat,
    {
        let ghost d0 = ctx.diagnostics@;
        let ghost vars = ctx.variables@;
        let ghost vt = ctx.var_types@;
        if let StmtKind::While(cond, body) = &stmt.kind {
            let cond_ty = self.check_expr(cond, ctx);
            let ghost d1 = ctx.diagnostics@;
            let ghost cd = expr_diags(**cond, vars, vt);
            if cond_ty != Type::Bool && cond_ty != Type::Error {
                report(ctx, "while statement condition must have type 'bool'", cond.span);
                proof {
                    lemma_diags_grew_trans(d0, d1, ctx.diagnostics@, cd,
                        err("while statement condition must have type 'bool'"@, cond.span));
                }
                return;
            }
            self.check_stmt(body, ctx);
            proof { lemma_diags_grew_trans(d0, d1, ctx.diagnostics@, cd, stmt_diags(**body, vars, vt)); }
        }
    }

    fn check_for(&mut self, stmt: &Stmt, ctx: &mut AnalysisCtx)
        requires
            stmt.kind is For,
            stmt_checkable(*stmt, old(ctx).variables@, old(ctx).var_types@),
        ensures
            final(ctx).var_types@ == stmt_vt(*stmt, old(ctx).variables@, old(ctx).var_types@),
            diags_grew(old(ctx).diagnostics@, final(ctx).diagnostics@,
                stmt_diags(*stmt, old(ctx).variables@, old(ctx).var_types@)),
            final(ctx).variables@ == old(ctx).variables@,
            final(ctx).types@ == stmt_tm(*stmt, old(ctx).variables@, old(ctx).var_types@, old(ctx).types@),
            final(ctx).conversions@ == stmt_cv(*stmt, old(ctx).variables@, old(ctx).var_types@, old(ctx).conversions@),
        decreases *stmt, 0nat,
    {
        let ghost d0 = ctx.diagnostics@;
        let ghost vars = ctx.variables@;
        let ghost vt = ctx.var_types@;
        let ghost tm0 = ctx.types@;
        let ghost cv0 = ctx.conversions@;
        proof { lemma_diags_same(d0); }
        if let StmtKind::For(init, cond, incre, body) = &stmt.kind {
            if let Some(first) = init {
                match &**first {
                    ForInit::Statement(decl) => {
                        proof {
                            assert(for_init_checkable(*init, vars, vt));
                            assert(stmt_checkable(*decl, vars, vt));
                        }
                        self.check_stmt(decl, ctx);
                    },
                    ForInit::Expr(expr) => {
                        proof {
                            assert(for_init_checkable(*init, vars, vt));
                        }
                        self.check_expr(expr, ctx);
                    },
                }
            }
            let ghost v1 = for_init_vt(*init, vars, vt);
            let ghost t1 = for_init_tm(*init, vars, vt, tm0);
            assert(ctx.types@ == t1);
            let ghost k1 = for_init_cv(*init, vars, vt, cv0);
            assert(ctx.conversions@ == k1);
            let ghost d1 = ctx.diagnostics@;
            let ghost id = for_init_diags(*init, vars, vt);
            assert(ctx.var_types@ == v1);
            if let Some(cond) = cond {
                let ty = self.check_expr(cond, ctx);
                let ghost d2 = ctx.diagnostics@;
                proof { lemma_diags_grew_trans(d0, d1, d2, id, expr_diags(*cond, vars, v1)); }
                if ty != Type::Bool && ty != Type::Error {
                    report(ctx, "for loop condition must have type 'bool'", cond.span);
                    proof {
                        lemma_diags_grew_trans(d0, d2, ctx.diagnostics@, id + expr_diags(*cond, vars, v1),
                            err("for loop condition must have type 'bool'"@, cond.span));
                    }
                    return;
                }
            }
            let ghost d3 = ctx.diagnostics@;
            let ghost t2 = if cond.is_some() { expr_tm(cond->0, vars, v1, t1) } else { t1 };
            assert(ctx.types@ == t2);
            let ghost k2 = if cond.is_some() { expr_cv(cond->0, vars, v1, k1) } else { k1 };
            assert(ctx.conversions@ == k2);
            let ghost cd = opt_expr_diags(*cond, vars, v1);
            proof {
                if cond.is_none() {
                    assert(d3 == d1);
                    lemma_diags_same(d1);
                    lemma_diags_grew_trans(d0, d1, d1, id, seq![]);
                }
            }
            if let Some(incre) = incre {
                self.check_expr(incre, ctx);
            }
            let ghost d4 = ctx.diagnostics@;
            let ghost t3 = if incre.is_some() { expr_tm(incre->0, vars, v1, t2) } else { t2 };
            assert(ctx.types@ == t3);
            let ghost k3 = if incre.is_some() { expr_cv(incre->0, vars, v1, k2) } else { k2 };
            assert(ctx.conversions@ == k3);
            let ghost incd = opt_expr_diags(*incre, vars, v1);
            proof {
                if incre.is_none() {
                    assert(d4 =~= d3);
                    lemma_diags_same(d3);
                }
                lemma_diags_grew_trans(d0, d3, d4, id + cd, incd);
            }
            self.check_stmt(body, ctx);
            proof { lemma_diags_grew_trans(d0, d4, ctx.diagnostics@, id + cd + incd, stmt_diags(**body, vars, v1)); }
        }
    }

    fn check_block(&mut self, stmt: &Stmt, ctx: &mut AnalysisCtx)
        requires
            stmt.kind is Block,
            stmt_checkable(*stmt, old(ctx).variables@, old(ctx).var_types@),
        ensures
            final(ctx).var_types@ == stmt_vt(*stmt, old(ctx).variables@, old(ctx).var_types@),
            diags_grew(old(ctx).diagnostics@, final(ctx).diagnostics@,
                stmt_diags(*stmt, old(ctx).variables@, old(ctx).var_types@)),
            final(ctx).variables@ == old(ctx).variables@,
            final(ctx).types@ == stmt_tm(*stmt, old(ctx).variables@, old(ctx).var_types@, old(ctx).types@),
            final(ctx).conversions@ == stmt_cv(*stmt, old(ctx).variables@, old(ctx).var_types@, old(ctx).conversions@),
        decreases *stmt, 0nat,
    {
        let ghost d0 = ctx.diagnostics@;
        let ghost vars = ctx.variables@;
        let ghost vt = ctx.var_types@;
        let ghost tm0 = ctx.types@;
        let ghost cv0 = ctx.conversions@;
        if let StmtKind::Block(body) = &stmt.kind {
            proof {
                assert(body@.take(0) =~= Seq::<Stmt>::empty());
                lemma_diags_same(d0);
            }
            let mut i: usize = 0;
            while i < body.len()
                invariant
                    0 <= i <= body@.len(),
                    stmt.kind == StmtKind::Block(*body),
                    stmts_checkable(body@, vars, vt),
                    ctx.variables@ == vars,
                    ctx.var_types@ == stmts_vt(body@.take(i as int), vars, vt),
                    ctx.types@ == stmts_tm(body@.take(i as int), vars, vt, tm0),
                    ctx.conversions@ == stmts_cv(body@.take(i as int), vars, vt, cv0),
                    diags_grew(d0, ctx.diagnostics@, stmts_diags(body@.take(i as int), vars, vt)),
                decreases body@.len() - i,
            {
                let ghost pre = body@.take(i as int);
                let ghost next = body@.take(i + 1);
                proof {
                    assert(next.drop_last() =~= pre);
                    lemma_stmts_checkable_prefix(body@, vars, vt, i + 1);
                    assert(decreases_to!(*stmt => stmt.kind));
                    assert(decreases_to!(stmt.kind => stmt.kind->Block_0));
                    assert(decreases_to!(stmt.kind->Block_0 => stmt.kind->Block_0@));
                    assert(decreases_to!(stmt.kind->Block_0@ => stmt.kind->Block_0@[i as int]));
                }
                let ghost d1 = ctx.diagnostics@;
                self.check_stmt(&body[i], ctx);
                proof {
                    lemma_diags_grew_trans(d0, d1, ctx.diagnostics@, stmts_diags(pre, vars, vt),
                        stmt_diags(body@[i as int], vars, stmts_vt(pre, vars, vt)));
                }
                i = i + 1;
            }
            proof {
                assert(body@.take(body@.len() as int) =~= body@);
            }
        }
    }

    /// Checks the statements of `program` in turn.
    pub fn check(&mut self, program: &Program, ctx: &mut AnalysisCtx)
        requires
            stmts_checkable(program.body@, old(ctx).variables@, old(ctx).var_types@),
        ensures
            final(ctx).var_types@ == stmts_vt(program.body@, old(ctx).variables@, old(ctx).var_types@),
            diags_grew(old(ctx).diagnostics@, final(ctx).diagnostics@,
                stmts_diags(program.body@, old(ctx).variables@, old(ctx).var_types@)),
            final(ctx).variables@ == old(ctx).variables@,
            final(ctx).types@ == stmts_tm(program.body@, old(ctx).variables@, old(ctx).var_types@, old(ctx).types@),
            final(ctx).conversions@ == stmts_cv(program.body@, old(ctx).variables@, old(ctx).var_types@, old(ctx).conversions@),
    {
        self.check_stmts(&program.body, ctx)
    }

    /// Checks each statement of `stmts` in turn.
    pub fn check_stmts(&mut self, stmts: &Vec<Stmt>, ctx: &mut AnalysisCtx)
        requires
            stmts_checkable(stmts@, old(ctx).variables@, old(ctx).var_types@),
        ensures
            final(ctx).var_types@ == stmts_vt(stmts@, old(ctx).variables@, old(ctx).var_types@),
            diags_grew(old(ctx).diagnostics@, final(ctx).diagnostics@,
                stmts_diags(stmts@, old(ctx).variables@, old(ctx).var_types@)),
            final(ctx).variables@ == old(ctx).variables@,
            final(ctx).types@ == stmts_tm(stmts@, old(ctx).variables@, old(ctx).var_types@, old(ctx).types@),
            final(ctx).conversions@ == stmts_cv(stmts@, old(ctx).variables@, old(ctx).var_types@, old(ctx).conversions@),
    {
        let ghost d0 = ctx.diagnostics@;
        let ghost vars = ctx.variables@;
        let ghost vt = ctx.var_types@;
        let ghost tm0 = ctx.types@;
        let ghost cv0 = ctx.conversions@;
        proof {
            assert(stmts@.take(0) =~= Seq::<Stmt>::empty());
            lemma_diags_same(d0);
        }
        let mut i: usize = 0;
        while i < stmts.len()
            invariant
                0 <= i <= stmts@.len(),
                stmts_checkable(stmts@, vars, vt),
                ctx.variables@ == vars,
                ctx.var_types@ == stmts_vt(stmts@.take(i as int), vars, vt),
                ctx.types@ == stmts_tm(stmts@.take(i as int), vars, vt, tm0),
                ctx.conversions@ == stmts_cv(stmts@.take(i as int), vars, vt, cv0),
                diags_grew(d0, ctx.diagnostics@, stmts_diags(stmts@.take(i as int), vars, vt)),
            decreases stmts@.len() - i,
        {
            let ghost pre = stmts@.take(i as int);
            let ghost next = stmts@.take(i + 1);
            proof {
                assert(next.drop_last() =~= pre);
                lemma_stmts_checkable_prefix(stmts@, vars, vt, i + 1);
            }
            let ghost d1 = ctx.diagnostics@;
            self.check_stmt(&stmts[i], ctx);
            proof {
                lemma_diags_grew_trans(d0, d1, ctx.diagnostics@, stmts_diags(pre, vars, vt),
                    stmt_diags(stmts@[i as int], vars, stmts_vt(pre, vars, vt)));
            }
            i = i + 1;
        }
        proof {
            assert(stmts@.take(stmts@.len() as int) =~= stmts@);
        }
    }
}

/// A prefix of checkable statements is checkable.
pub proof fn lemma_stmts_checkable_prefix(ss: Seq<Stmt>, vars: Map<usize, usize>, vt: Map<usize, Type>, n: int)
    requires
        stmts_checkable(ss, vars, vt),
        0 <= n <= ss.len(),
    ensures
        stmts_checkable(ss.take(n), vars, vt),
    decreases ss.len(),
{
    if n < ss.len() {
        lemma_stmts_checkable_prefix(ss.drop_last(), vars, vt, n);
        assert(ss.drop_last().take(n) =~= ss.take(n));
    } else {
        assert(ss.take(n) =~= ss);
    }
}

/// `binary_result`, computed.
pub fn binary_result_of(op: BinOpKind, lhs: Type, rhs: Type) -> (t: Type)
    ensures
        t == binary_result(op, lhs, rhs),
{
    if lhs == Type::Error || rhs == Type::Error || lhs == Type::Void {
        return Type::Error;
    }
    let both_numeric = (lhs == Type::Int || lhs == Type::Double) && (rhs == Type::Int || rhs == Type::Double);
    match op {
        BinOpKind::Add | BinOpKind::Sub | BinOpKind::Mul | BinOpKind::Div => {
            if !both_numeric {
                Type::Error
            } else if lhs == Type::Int && rhs == Type::Int {
                Type::Int
            } else {
                Type::Double
            }
        },
        BinOpKind::BangEq | BinOpKind::EqEq => {
            if both_numeric || (lhs == Type::Bool && rhs == Type::Bool) { Type::Bool } else { Type::Error }
        },
        BinOpKind::GreaterEq | BinOpKind::GreaterThan | BinOpKind::LessEq | BinOpKind::LessThan => {
            if both_numeric { Type::Bool } else { Type::Error }
        },
        BinOpKind::Or | BinOpKind::And => {
            if lhs == Type::Bool && rhs == Type::Bool { Type::Bool } else { Type::Error }
        },
    }
}

/// `assignable`, computed.
pub fn assignable_of(value: Type, target: Type) -> (b: bool)
    ensures
        b == assignable(value, target),
{
    value == target || value == Type::Error || target == Type::Error || (target == Type::Double && value == Type::Int)
}

/// The type `expr_type` gives `e`, or `None` when `e` is not checkable.
pub fn expr_probe(e: &Expr, vars: &HashMap<usize, usize>, vt: &HashMap<usize, Type>) -> (r: Option<Type>)
    ensures
        r is Some <==> expr_checkable(*e, vars@, vt@),
        r matches Some(t) ==> t == expr_type(*e, vars@, vt@),
    decreases *e,
{
    match &e.kind {
        ExprKind::BinaryOp(op, l, r) => {
            let lt = expr_probe(l, vars, vt)?;
            let rt = expr_probe(r, vars, vt)?;
            Some(binary_result_of(op.node, lt, rt))
        },
        ExprKind::Literal(LitKind::Int(i)) => if *i <= 0x7FFF_FFFF { Some(Type::Int) } else { None },
        ExprKind::Literal(LitKind::Bool(_)) => Some(Type::Bool),
        ExprKind::UnaryOp(op, r) => {
            let t = expr_probe(r, vars, vt)?;
            if op.node != UnaryOpKind::Negate && !is_lvalue(r) {
                Some(Type::Error)
            } else if t == Type::Error || t == Type::Void {
                Some(Type::Error)
            } else if t == Type::Int || t == Type::Double {
                Some(t)
            } else {
                Some(Type::Error)
            }
        },
        ExprKind::VarAssign(target, rhs) => {
            let rt = expr_probe(rhs, vars, vt)?;
            let tt = expr_probe(target, vars, vt)?;
            if assignable_of(rt, tt) && is_lvalue(target) { Some(rt) } else { Some(Type::Error) }
        },
        ExprKind::Variable(_) => {
            let v = match vars.get(&e.id.0) {
                Some(v) => *v,
                None => {
                    return None;
                },
            };
            match vt.get(&v) {
                Some(t) => Some(*t),
                None => None,
            }
        },
        _ => None,
    }
}

/// Whether `stmt` is checkable from the types in `vt`, as `stmt_checkable`
/// says; when it is, `vt` becomes the types after it.
pub fn stmt_probe(s: &Stmt, vars: &HashMap<usize, usize>, vt: &mut HashMap<usize, Type>) -> (r: bool)
    ensures
        r == stmt_checkable(*s, vars@, old(vt)@),
        r ==> final(vt)@ == stmt_vt(*s, vars@, old(vt)@),
    decreases *s,
{
    match &s.kind {
        StmtKind::Block(body) => {
            let ghost vt0 = vt@;
            proof { assert(body@.take(0) =~= Seq::<Stmt>::empty()); }
            let mut i: usize = 0;
            while i < body.len()
                invariant
                    0 <= i <= body@.len(),
                    s.kind == StmtKind::Block(*body),
                    vt0 == old(vt)@,
                    stmts_checkable(body@.take(i as int), vars@, vt0),
                    vt@ == stmts_vt(body@.take(i as int), vars@, vt0),
                decreases body@.len() - i,
            {
                proof {
                    assert(body@.take(i + 1).drop_last() =~= body@.take(i as int));
                    assert(decreases_to!(*s => s.kind));
                    assert(decreases_to!(s.kind => s.kind->Block_0));
                    assert(decreases_to!(s.kind->Block_0 => s.kind->Block_0@));
                    assert(decreases_to!(s.kind->Block_0@ => s.kind->Block_0@[i as int]));
                }
                let ghost vti = vt@;
                if !stmt_probe(&body[i], vars, vt) {
                    proof {
                        if stmts_checkable(body@, vars@, vt0) {
                            lemma_stmts_checkable_prefix(body@, vars@, vt0, i + 1);
                            let t = body@.take(i + 1);
                            assert(t.drop_last() =~= body@.take(i as int));
                            assert(stmts_checkable(t, vars@, vt0));
                            assert(stmt_checkable(t.last(), vars@, stmts_vt(t.drop_last(), vars@, vt0)));
                            assert(t.last() == body@[i as int]);
                            assert(false);
                        }
                    }
                    return false;
                }
                i = i + 1;
            }
            proof { assert(body@.take(body@.len() as int) =~= body@); }
            true
        },
        StmtKind::ExprStmt(e) | StmtKind::Print(e) => expr_probe(e, vars, vt).is_some(),
        StmtKind::VarDecl(_, ann, init) => {
            if (ann.is_some() || init.is_some()) && !vars.contains_key(&s.id.0) {
                return false;
            }
            let it = match init {
                Some(x) => match expr_probe(x, vars, vt) {
                    Some(t) => Some(t),
                    None => {
                        return false;
                    },
                },
                None => None,
            };
            match ann {
                Some(a) => {
                    let v = *vars.get(&s.id.0).unwrap();
                    match it {
                        Some(t) => if assignable_of(t, *a) {
                            vt.insert(v, *a);
                        },
                        None => {
                            vt.insert(v, *a);
                        },
                    }
                },
                None => match it {
                    Some(t) => {
                        let v = *vars.get(&s.id.0).unwrap();
                        vt.insert(v, t);
                    },
                    None => {},
                },
            }
            true
        },
        StmtKind::If(c, b, e) => {
            let ct = match expr_probe(c, vars, vt) {
                Some(t) => t,
                None => {
                    return false;
                },
            };
            if ct != Type::Bool && ct != Type::Error {
                return true;
            }
            if !stmt_probe(b, vars, vt) {
                return false;
            }
            match e {
                Some(x) => stmt_probe(x, vars, vt),
                None => true,
            }
        },
        StmtKind::While(c, b) => {
            let ct = match expr_probe(c, vars, vt) {
                Some(t) => t,
                None => {
                    return false;
                },
            };
            if ct != Type::Bool && ct != Type::Error {
                return true;
            }
            stmt_probe(b, vars, vt)
        },
        StmtKind::For(init, c, inc, b) => {
            let ghost vt0 = vt@;
            match init {
                Some(first) => match &**first {
                    ForInit::Statement(d) => {
                        assert(for_init_checkable(*init, vars@, vt0) == stmt_checkable(*d, vars@, vt0));
                        if !stmt_probe(d, vars, vt) {
                            return false;
                        }
                    },
                    ForInit::Expr(x) => {
                        assert(for_init_checkable(*init, vars@, vt0) == expr_checkable(*x, vars@, vt0));
                        if expr_probe(x, vars, vt).is_none() {
                            return false;
                        }
                    },
                },
                None => {},
            }
            assert(vt@ == for_init_vt(*init, vars@, vt0));
            assert(for_init_checkable(*init, vars@, vt0));
            if let Some(x) = c {
                let ct = match expr_probe(x, vars, vt) {
                    Some(t) => t,
                    None => {
                        return false;
                    },
                };
                if ct != Type::Bool && ct != Type::Error {
                    return true;
                }
            }
            if let Some(x) = inc {
                if expr_probe(x, vars, vt).is_none() {
                    return false;
                }
            }
            stmt_probe(b, vars, vt)
        },
        StmtKind::Break | StmtKind::Continue => true,
        StmtKind::Error => false,
    }
}
} // verus!

