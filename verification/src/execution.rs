//! What running compiled code on the virtual machine does. For programs of
//! prints, expression and assignment statements, declarations with an
//! initializer, blocks, `if` and `while`, over expressions of literals,
//! variables, negation and binary operators, the compiled program does what
//! a direct reading of its statements says: it prints the same values in
//! the same order and halts with exit code 0.
use crate::analysis::types::Type;
use crate::analysis::AnalysisResult;
use crate::compiler::program::{
    expr_size, lemma_expr_code_len, lemma_stmt_code_len, lemma_stmts_code_len, program_code, program_consts, stmt_size,
    stmts_size,
};
use crate::compiler::{
    binop_op, expr_code, expr_consts, int_or_bool, lemma_unfold_if, lemma_unfold_while, op, patched, stmt_breaks,
    stmt_code, stmt_consts, stmts_breaks, stmts_code, stmts_consts,
};
use crate::parse::ast::{BinOpKind, Expr, ExprKind, LitKind, Stmt, StmtKind, UnaryOpKind};
use crate::runtime::chunk::{i32_bytes, i32_value, lemma_i32_roundtrip, lemma_u24_roundtrip, u24_bytes, u24_value};
use crate::runtime::opcodes::{lemma_opcode_roundtrip, opcode_byte, OpCode};
use crate::runtime::value::Value;
use crate::span::Spanned;
use crate::runtime::vm::{int_arith, int_compare, is_int_arith, is_int_compare, step_spec, Event, Fault, State, LOCAL_MAX};
use vstd::prelude::*;

verus! {

/// Runs `n` steps from `st` on `code` and `consts`, each of which goes on
/// or prints: the state reached and what was printed, in order; `None`
/// where some step does neither.
pub open spec fn exec(code: Seq<u8>, consts: Seq<Value>, st: State, n: nat) -> Option<(State, Seq<Event>)>
    decreases n,
{
    if n == 0 {
        Some((st, Seq::empty()))
    } else {
        let (next, e) = step_spec(st, code, consts);
        if e is Continue || e is PrintInt || e is PrintBool {
            match exec(code, consts, next, (n - 1) as nat) {
                Some((last, printed)) => Some((last, if e is Continue { printed } else { seq![e] + printed })),
                None => None,
            }
        } else {
            None
        }
    }
}

/// Running `n1` steps and then `n2` more is running `n1 + n2` steps, and
/// prints what the two runs print.
pub proof fn lemma_exec_trans(code: Seq<u8>, consts: Seq<Value>, a: State, n1: nat, b: State, p1: Seq<Event>, n2: nat, c: State, p2: Seq<Event>)
    requires
        exec(code, consts, a, n1) == Some((b, p1)),
        exec(code, consts, b, n2) == Some((c, p2)),
    ensures
        exec(code, consts, a, n1 + n2) == Some((c, p1 + p2)),
    decreases n1,
{
    if n1 == 0 {
        assert(p1 + p2 =~= p2);
    } else {
        let (next, e) = step_spec(a, code, consts);
        let (mid, q) = exec(code, consts, next, (n1 - 1) as nat).unwrap();
        lemma_exec_trans(code, consts, next, (n1 - 1) as nat, b, q, n2, c, p2);
        assert((n1 + n2 - 1) as nat == (n1 - 1) as nat + n2);
        if !(e is Continue) {
            assert(seq![e] + (q + p2) =~= (seq![e] + q) + p2);
        }
    }
}

/// The slot of the variable that node `id` refers to.
pub open spec fn slot(m: AnalysisResult, id: usize) -> int {
    m.variables@[id] as int
}

/// Node `id` refers to a variable of type `Int` or `Bool` whose slot the
/// machine has.
pub open spec fn typed_var(m: AnalysisResult, id: usize) -> bool {
    &&& m.variables@.contains_key(id)
    &&& m.var_types@.contains_key(m.variables@[id])
    &&& int_or_bool(m.var_types@[m.variables@[id]])
    &&& m.variables@[id] < LOCAL_MAX
}

/// The expression is one whose value `eval` states: literals, binary
/// operators, negation, and variables of type `Int` or `Bool`; the left
/// operand of an equality has a type from analysis.
pub open spec fn val_expr(e: Expr, m: AnalysisResult) -> bool
    decreases e,
{
    match e.kind {
        ExprKind::Literal(_) => true,
        ExprKind::BinaryOp(o, l, r) => val_expr(*l, m) && val_expr(*r, m)
            && ((o.node is EqEq || o.node is BangEq) ==> m.types@.contains_key(l.id.0)),
        ExprKind::UnaryOp(o, r) => o.node is Negate && val_expr(*r, m),
        ExprKind::Variable(_) => typed_var(m, e.id.0),
        _ => false,
    }
}

/// The value that the instruction `op` makes of the operands `a` and `b`,
/// as the machine computes it.
pub open spec fn apply_binop(op: OpCode, a: Value, b: Value) -> Result<Value, Fault> {
    if is_int_arith(op) || is_int_compare(op) {
        match (a, b) {
            (Value::Integer(x), Value::Integer(y)) => if is_int_compare(op) {
                Ok(Value::Boolean(int_compare(op, x, y)))
            } else {
                match int_arith(op, x, y) {
                    Ok(r) => Ok(Value::Integer(r)),
                    Err(f) => Err(f),
                }
            },
            _ => Err(Fault::TypeMismatch),
        }
    } else if op is BEqual || op is BNEqual {
        match (a, b) {
            (Value::Boolean(x), Value::Boolean(y)) => Ok(Value::Boolean(if op is BEqual { x == y } else { x != y })),
            _ => Err(Fault::TypeMismatch),
        }
    } else {
        Err(Fault::Unsupported(op))
    }
}

/// The value of an expression with the locals `l`, as the machine computes
/// it: operands from left to right, `&&` and `||` short-circuit, 32-bit
/// arithmetic, or the first fault.
pub open spec fn eval(e: Expr, m: AnalysisResult, l: Seq<Value>) -> Result<Value, Fault>
    decreases e,
{
    match e.kind {
        ExprKind::Literal(LitKind::Int(i)) => Ok(Value::Integer(i as i32)),
        ExprKind::Literal(LitKind::Bool(b)) => Ok(Value::Boolean(b)),
        ExprKind::BinaryOp(o, left, right) => if o.node is And || o.node is Or {
            match eval(*left, m, l) {
                Err(f) => Err(f),
                Ok(Value::Boolean(a)) => if (o.node is And && !a) || (o.node is Or && a) {
                    Ok(Value::Boolean(a))
                } else {
                    eval(*right, m, l)
                },
                Ok(_) => Err(Fault::TypeMismatch),
            }
        } else {
            match eval(*left, m, l) {
                Err(f) => Err(f),
                Ok(a) => match eval(*right, m, l) {
                    Err(f) => Err(f),
                    Ok(b) => apply_binop(binop_op(o.node, m.types@[left.id.0]), a, b),
                },
            }
        },
        ExprKind::UnaryOp(_, r) => match eval(*r, m, l) {
            Err(f) => Err(f),
            Ok(Value::Integer(a)) => if a == i32::MIN { Err(Fault::IntegerOverflow) } else { Ok(Value::Integer((-a) as i32)) },
            Ok(_) => Err(Fault::TypeMismatch),
        },
        ExprKind::Variable(_) => Ok(l[slot(m, e.id.0)]),
        _ => Err(Fault::TypeMismatch),
    }
}

/// `code` holds `seg` from offset `p`.
pub open spec fn holds_at<T>(code: Seq<T>, p: int, seg: Seq<T>) -> bool {
    0 <= p && p + seg.len() <= code.len() && code.subrange(p, p + seg.len()) == seg
}

/// A segment held at `p` holds each of its parts where they fall.
proof fn lemma_holds_split<T>(code: Seq<T>, p: int, a: Seq<T>, b: Seq<T>)
    requires
        holds_at(code, p, a + b),
    ensures
        holds_at(code, p, a),
        holds_at(code, p + a.len(), b),
{
    assert(code.subrange(p, p + a.len()) =~= a) by {
        assert forall|i: int| 0 <= i < a.len() implies code.subrange(p, p + a.len())[i] == a[i] by {
            assert(code.subrange(p, p + (a + b).len())[i] == (a + b)[i]);
        }
    }
    assert(code.subrange(p + a.len(), p + a.len() + b.len()) =~= b) by {
        assert forall|i: int| 0 <= i < b.len() implies code.subrange(p + a.len(), p + a.len() + b.len())[i] == b[i] by {
            assert(code.subrange(p, p + (a + b).len())[a.len() + i] == (a + b)[a.len() + i]);
        }
    }
}

/// One step of an instruction without operands, `o`, held at `p`.
proof fn lemma_op_at(code: Seq<u8>, p: int, o: OpCode)
    requires
        holds_at(code, p, op(o)),
    ensures
        0 <= p < code.len(),
        code[p] == opcode_byte(o),
{
    assert(code.subrange(p, p + 1)[0] == code[p]);
    lemma_opcode_roundtrip(o);
}

/// What running the code of `e` from `p` with stack `s` and locals `l`
/// leaves when `e`'s value is `v`: `v` pushed, the cursor at the end of
/// the code, the locals as they were, nothing printed.
pub open spec fn ran_expr(code: Seq<u8>, consts: Seq<Value>, e: Expr, p: int, s: Seq<Value>, l: Seq<Value>, v: Value, n: nat) -> bool {
    exec(code, consts, (s, p, l), n) == Some(((s.push(v), p + expr_size(e), l), Seq::<Event>::empty()))
}

/// What `lemma_expr_runs` needs of where the code of `e` lies.
pub open spec fn expr_placed(e: Expr, m: AnalysisResult, code: Seq<u8>, consts: Seq<Value>, p: int, k: int) -> bool {
    &&& holds_at(code, p, expr_code(e, m, k))
    &&& holds_at(consts, k, expr_consts(e))
    &&& consts.len() <= 0xFF_FFFF
    &&& code.len() <= i32::MAX
}

/// One step that goes on, from `a` to `b`, is a run of one step.
proof fn lemma_one_step(code: Seq<u8>, consts: Seq<Value>, a: State, b: State)
    requires
        step_spec(a, code, consts) == (b, Event::Continue),
    ensures
        exec(code, consts, a, 1) == Some((b, Seq::<Event>::empty())),
{
    assert(exec(code, consts, b, 0) == Some((b, Seq::<Event>::empty())));
}

/// Three bytes after `p + 1` hold the encoding of `x`.
proof fn lemma_u24_at(code: Seq<u8>, p: int, x: int)
    requires
        holds_at(code, p + 1, u24_bytes(x)),
        0 <= x < 0x100_0000,
    ensures
        code[p + 1] == u24_bytes(x)[0],
        code[p + 2] == u24_bytes(x)[1],
        code[p + 3] == u24_bytes(x)[2],
        u24_value(code[p + 1], code[p + 2], code[p + 3]) == x,
{
    assert(code.subrange(p + 1, p + 4)[0] == code[p + 1]);
    assert(code.subrange(p + 1, p + 4)[1] == code[p + 2]);
    assert(code.subrange(p + 1, p + 4)[2] == code[p + 3]);
    lemma_u24_roundtrip(x);
}

/// The code of an expression that `eval` gives a value, placed in `code`
/// at `p` with its constants at `k`, runs to its end and leaves that value
/// on the stack, printing nothing.
pub proof fn lemma_expr_runs(e: Expr, m: AnalysisResult, code: Seq<u8>, consts: Seq<Value>, p: int, k: int, s: Seq<Value>, l: Seq<Value>) -> (n: nat)
    requires
        val_expr(e, m),
        eval(e, m, l) is Ok,
        expr_placed(e, m, code, consts, p, k),
    ensures
        ran_expr(code, consts, e, p, s, l, eval(e, m, l)->Ok_0, n),
    decreases e, 1nat,
{
    lemma_expr_code_len(e, m, k);
    match e.kind {
        ExprKind::Literal(lit) => {
            lemma_holds_split(code, p, op(OpCode::LoadConst), u24_bytes(k));
            lemma_op_at(code, p, OpCode::LoadConst);
            lemma_u24_at(code, p, k);
            assert(consts.subrange(k, k + 1)[0] == consts[k]);
            let v = eval(e, m, l)->Ok_0;
            assert(consts[k] == v);
            lemma_one_step(code, consts, (s, p, l), (s.push(v), p + 4, l));
            1
        },
        ExprKind::Variable(_) => {
            let v = slot(m, e.id.0);
            let lo = if m.var_types@[m.variables@[e.id.0]] == Type::Int { OpCode::I32LoadLocal } else { OpCode::BLoadLocal };
            lemma_holds_split(code, p, op(lo), u24_bytes(v));
            lemma_op_at(code, p, lo);
            lemma_u24_at(code, p, v);
            lemma_one_step(code, consts, (s, p, l), (s.push(l[v]), p + 4, l));
            1
        },
        ExprKind::BinaryOp(o, _, _) => {
            if o.node is And || o.node is Or {
                lemma_logic_runs(e, m, code, consts, p, k, s, l)
            } else {
                lemma_binary_runs(e, m, code, consts, p, k, s, l)
            }
        },
        ExprKind::UnaryOp(..) => lemma_negate_runs(e, m, code, consts, p, k, s, l),
        _ => 0,
    }
}

/// `lemma_expr_runs` for a binary operator other than `&&` and `||`.
proof fn lemma_binary_runs(e: Expr, m: AnalysisResult, code: Seq<u8>, consts: Seq<Value>, p: int, k: int, s: Seq<Value>, l: Seq<Value>) -> (n: nat)
    requires
        e.kind is BinaryOp,
        !(e.kind->BinaryOp_0.node is And || e.kind->BinaryOp_0.node is Or),
        val_expr(e, m),
        eval(e, m, l) is Ok,
        expr_placed(e, m, code, consts, p, k),
    ensures
        ran_expr(code, consts, e, p, s, l, eval(e, m, l)->Ok_0, n),
    decreases e, 0nat,
{
    if let ExprKind::BinaryOp(o, left, right) = e.kind {
        let lc = expr_code(*left, m, k);
        let k2 = k + expr_consts(*left).len();
        let rc = expr_code(*right, m, k2);
        let opc = binop_op(o.node, m.types@[left.id.0]);
        lemma_expr_code_len(*left, m, k);
        lemma_expr_code_len(*right, m, k2);
        lemma_holds_split(code, p, lc + rc, op(opc));
        lemma_holds_split(code, p, lc, rc);
        lemma_holds_split(consts, k, expr_consts(*left), expr_consts(*right));
        let a = eval(*left, m, l)->Ok_0;
        let b = eval(*right, m, l)->Ok_0;
        let n1 = lemma_expr_runs(*left, m, code, consts, p, k, s, l);
        let s1 = s.push(a);
        let p1 = p + expr_size(*left);
        let n2 = lemma_expr_runs(*right, m, code, consts, p1, k2, s1, l);
        let s2 = s1.push(b);
        let p2 = p1 + expr_size(*right);
        lemma_op_at(code, p2, opc);
        let v = eval(e, m, l)->Ok_0;
        assert(apply_binop(opc, a, b) == Ok::<Value, Fault>(v));
        assert(s2[s2.len() - 2] == a);
        assert(s2.subrange(0, s2.len() - 2) =~= s);
        lemma_one_step(code, consts, (s2, p2, l), (s.push(v), p2 + 1, l));
        let e0 = Seq::<Event>::empty();
        lemma_exec_trans(code, consts, (s, p, l), n1, (s1, p1, l), e0, n2, (s2, p2, l), e0);
        lemma_exec_trans(code, consts, (s, p, l), n1 + n2, (s2, p2, l), e0 + e0, 1, (s.push(v), p2 + 1, l), e0);
        assert(e0 + e0 + e0 =~= e0);
        n1 + n2 + 1
    } else {
        0
    }
}

/// `lemma_expr_runs` for `&&` and `||`: the left value is kept when it
/// decides, else it is popped and the right operand runs.
proof fn lemma_logic_runs(e: Expr, m: AnalysisResult, code: Seq<u8>, consts: Seq<Value>, p: int, k: int, s: Seq<Value>, l: Seq<Value>) -> (n: nat)
    requires
        e.kind is BinaryOp,
        e.kind->BinaryOp_0.node is And || e.kind->BinaryOp_0.node is Or,
        val_expr(e, m),
        eval(e, m, l) is Ok,
        expr_placed(e, m, code, consts, p, k),
    ensures
        ran_expr(code, consts, e, p, s, l, eval(e, m, l)->Ok_0, n),
    decreases e, 0nat,
{
    if let ExprKind::BinaryOp(o, left, right) = e.kind {
        let lc = expr_code(*left, m, k);
        let k2 = k + expr_consts(*left).len();
        let rc = expr_code(*right, m, k2);
        let jop = binop_op(o.node, Type::Bool);
        let off = 1 + rc.len();
        lemma_expr_code_len(*left, m, k);
        lemma_expr_code_len(*right, m, k2);
        let a1 = lc + op(OpCode::Dup);
        let a2 = a1 + op(jop);
        let a3 = a2 + i32_bytes(off as int);
        let a4 = a3 + op(OpCode::Pop);
        assert(expr_code(e, m, k) == a4 + rc);
        lemma_holds_split(code, p, a4, rc);
        lemma_holds_split(code, p, a3, op(OpCode::Pop));
        lemma_holds_split(code, p, a2, i32_bytes(off as int));
        lemma_holds_split(code, p, a1, op(jop));
        lemma_holds_split(code, p, lc, op(OpCode::Dup));
        lemma_holds_split(consts, k, expr_consts(*left), expr_consts(*right));
        let a = eval(*left, m, l)->Ok_0;
        let n1 = lemma_expr_runs(*left, m, code, consts, p, k, s, l);
        let s1 = s.push(a);
        let p1 = p + expr_size(*left);
        lemma_op_at(code, p1, OpCode::Dup);
        lemma_one_step(code, consts, (s1, p1, l), (s1.push(a), p1 + 1, l));
        let e0 = Seq::<Event>::empty();
        lemma_exec_trans(code, consts, (s, p, l), n1, (s1, p1, l), e0, 1, (s1.push(a), p1 + 1, l), e0);
        assert(e0 + e0 =~= e0);
        let pj = p1 + 1;
        lemma_op_at(code, pj, jop);
        assert(code.subrange(pj + 1, pj + 5)[0] == code[pj + 1]);
        assert(code.subrange(pj + 1, pj + 5)[1] == code[pj + 2]);
        assert(code.subrange(pj + 1, pj + 5)[2] == code[pj + 3]);
        assert(code.subrange(pj + 1, pj + 5)[3] == code[pj + 4]);
        lemma_i32_roundtrip(off as int);
        assert(s1.push(a).drop_last() =~= s1);
        let end = p + expr_size(e);
        let b = match a { Value::Boolean(x) => x, _ => false };
        if (o.node is And && !b) || (o.node is Or && b) {
            lemma_one_step(code, consts, (s1.push(a), pj, l), (s1, end, l));
            lemma_exec_trans(code, consts, (s, p, l), n1 + 1, (s1.push(a), pj, l), e0, 1, (s1, end, l), e0);
            n1 + 2
        } else {
            lemma_one_step(code, consts, (s1.push(a), pj, l), (s1, pj + 5, l));
            lemma_op_at(code, pj + 5, OpCode::Pop);
            assert(s1.drop_last() =~= s);
            lemma_one_step(code, consts, (s1, pj + 5, l), (s, pj + 6, l));
            let v = eval(*right, m, l)->Ok_0;
            let n2 = lemma_expr_runs(*right, m, code, consts, pj + 6, k2, s, l);
            lemma_exec_trans(code, consts, (s, p, l), n1 + 1, (s1.push(a), pj, l), e0, 1, (s1, pj + 5, l), e0);
            lemma_exec_trans(code, consts, (s, p, l), n1 + 2, (s1, pj + 5, l), e0, 1, (s, pj + 6, l), e0);
            lemma_exec_trans(code, consts, (s, p, l), n1 + 3, (s, pj + 6, l), e0, n2, (s.push(v), end, l), e0);
            n1 + 3 + n2
        }
    } else {
        0
    }
}

/// `lemma_expr_runs` for a negation.
proof fn lemma_negate_runs(e: Expr, m: AnalysisResult, code: Seq<u8>, consts: Seq<Value>, p: int, k: int, s: Seq<Value>, l: Seq<Value>) -> (n: nat)
    requires
        e.kind is UnaryOp,
        val_expr(e, m),
        eval(e, m, l) is Ok,
        expr_placed(e, m, code, consts, p, k),
    ensures
        ran_expr(code, consts, e, p, s, l, eval(e, m, l)->Ok_0, n),
    decreases e, 0nat,
{
    if let ExprKind::UnaryOp(o, right) = e.kind {
        let rc = expr_code(*right, m, k);
        lemma_expr_code_len(*right, m, k);
        lemma_holds_split(code, p, rc, op(OpCode::I32Negate));
        assert(expr_consts(e) =~= expr_consts(*right));
        let a = eval(*right, m, l)->Ok_0;
        let n1 = lemma_expr_runs(*right, m, code, consts, p, k, s, l);
        let s1 = s.push(a);
        let p1 = p + expr_size(*right);
        lemma_op_at(code, p1, OpCode::I32Negate);
        let v = eval(e, m, l)->Ok_0;
        assert(s1.drop_last() =~= s);
        lemma_one_step(code, consts, (s1, p1, l), (s.push(v), p1 + 1, l));
        let e0 = Seq::<Event>::empty();
        lemma_exec_trans(code, consts, (s, p, l), n1, (s1, p1, l), e0, 1, (s.push(v), p1 + 1, l), e0);
        assert(e0 + e0 =~= e0);
        n1 + 1
    } else {
        0
    }
}

/// `e` assigns an expression of `val_expr` to a variable of type `Int` or
/// `Bool`: the form of assignment that a statement of its own makes.
pub open spec fn assign_form(e: Expr, m: AnalysisResult) -> bool {
    match e.kind {
        ExprKind::VarAssign(t, v) => t.kind is Variable && typed_var(m, t.id.0) && val_expr(*v, m),
        _ => false,
    }
}

/// The statement is one whose run `run_stmt` states: a print of an
/// expression of type `Int` or `Bool`, an expression statement or an
/// assignment, the declaration of a variable of type `Int` or `Bool` with
/// an initializer, a block of such statements, or an `if` or a `while`
/// over them, with the expressions of `val_expr`.
pub open spec fn simple_stmt(s: Stmt, m: AnalysisResult) -> bool
    decreases s,
{
    match s.kind {
        StmtKind::Print(e) => val_expr(*e, m) && m.types@.contains_key(e.id.0) && int_or_bool(m.types@[e.id.0]),
        StmtKind::ExprStmt(e) => val_expr(*e, m) || assign_form(*e, m),
        StmtKind::VarDecl(_, _, Some(init)) => val_expr(init, m) && typed_var(m, s.id.0),
        StmtKind::Block(body) => simple_stmts(body@, m),
        StmtKind::If(c, b, e) => val_expr(*c, m) && simple_stmt(*b, m) && match e {
            Some(x) => simple_stmt(*x, m),
            None => true,
        },
        StmtKind::While(c, b) => val_expr(*c, m) && simple_stmt(*b, m),
        _ => false,
    }
}

/// Every statement of `ss` is simple.
pub open spec fn simple_stmts(ss: Seq<Stmt>, m: AnalysisResult) -> bool
    decreases ss,
{
    if ss.len() == 0 { true } else { simple_stmts(ss.drop_last(), m) && simple_stmt(ss.last(), m) }
}

/// A direct reading of a simple statement, from the stack `st` and the
/// locals `l`, running each loop at most `f` more times: the stack and
/// locals after it and what it prints, or `None` where an evaluation faults
/// or gives a value of the wrong kind, or a loop would run more. A
/// declaration or an assignment stores its value and leaves it on the
/// stack, as the machine's code for it does.
pub open spec fn run_stmt(s: Stmt, m: AnalysisResult, st: Seq<Value>, l: Seq<Value>, f: nat) -> Option<(Seq<Value>, Seq<Value>, Seq<Event>)>
    decreases f, s,
{
    match s.kind {
        StmtKind::Print(e) => match eval(*e, m, l) {
            Ok(Value::Integer(v)) => if m.types@[e.id.0] == Type::Int { Some((st, l, seq![Event::PrintInt(v)])) } else { None },
            Ok(Value::Boolean(b)) => if m.types@[e.id.0] == Type::Bool { Some((st, l, seq![Event::PrintBool(b)])) } else { None },
            _ => None,
        },
        StmtKind::ExprStmt(e) => match e.kind {
            ExprKind::VarAssign(t, v) => match eval(*v, m, l) {
                Ok(val) => if val is Uninitialized { None } else { Some((st.push(val), l.update(slot(m, t.id.0), val), Seq::empty())) },
                Err(_) => None,
            },
            _ => match eval(*e, m, l) {
                Ok(_) => Some((st, l, Seq::empty())),
                Err(_) => None,
            },
        },
        StmtKind::VarDecl(_, _, Some(init)) => match eval(init, m, l) {
            Ok(v) => if v is Uninitialized { None } else { Some((st.push(v), l.update(slot(m, s.id.0), v), Seq::empty())) },
            Err(_) => None,
        },
        StmtKind::Block(body) => run_stmts(body@, m, st, l, f),
        StmtKind::If(c, b, e) => match eval(*c, m, l) {
            Ok(Value::Boolean(true)) => run_stmt(*b, m, st, l, f),
            Ok(Value::Boolean(false)) => match e {
                Some(x) => run_stmt(*x, m, st, l, f),
                None => Some((st, l, Seq::empty())),
            },
            _ => None,
        },
        StmtKind::While(c, b) => match eval(*c, m, l) {
            Ok(Value::Boolean(false)) => Some((st, l, Seq::empty())),
            Ok(Value::Boolean(true)) => if f == 0 {
                None
            } else {
                match run_stmt(*b, m, st, l, f) {
                    Some((st1, l1, out1)) => match run_stmt(s, m, st1, l1, (f - 1) as nat) {
                        Some((st2, l2, out2)) => Some((st2, l2, out1 + out2)),
                        None => None,
                    },
                    None => None,
                }
            },
            _ => None,
        },
        _ => None,
    }
}

/// A direct reading of simple statements in order, as `run_stmt` reads one.
pub open spec fn run_stmts(ss: Seq<Stmt>, m: AnalysisResult, st: Seq<Value>, l: Seq<Value>, f: nat) -> Option<(Seq<Value>, Seq<Value>, Seq<Event>)>
    decreases f, ss,
{
    if ss.len() == 0 {
        Some((st, l, Seq::empty()))
    } else {
        match run_stmts(ss.drop_last(), m, st, l, f) {
            Some((st1, l1, out1)) => match run_stmt(ss.last(), m, st1, l1, f) {
                Some((st2, l2, out2)) => Some((st2, l2, out1 + out2)),
                None => None,
            },
            None => None,
        }
    }
}

/// What `lemma_stmt_runs` needs of where the code of `x` lies.
pub open spec fn stmt_placed(x: Stmt, m: AnalysisResult, code: Seq<u8>, consts: Seq<Value>, p: int, k: int, ct: int) -> bool {
    &&& holds_at(code, p, stmt_code(x, m, k, p, ct))
    &&& holds_at(consts, k, stmt_consts(x))
    &&& consts.len() <= 0xFF_FFFF
    &&& code.len() <= i32::MAX
}

/// What `lemma_stmts_run` needs of where the code of `ss` lies.
pub open spec fn stmts_placed(ss: Seq<Stmt>, m: AnalysisResult, code: Seq<u8>, consts: Seq<Value>, p: int, k: int, ct: int) -> bool {
    &&& holds_at(code, p, stmts_code(ss, m, k, p, ct))
    &&& holds_at(consts, k, stmts_consts(ss))
    &&& consts.len() <= 0xFF_FFFF
    &&& code.len() <= i32::MAX
}

/// What running `n` steps from `p` with stack `s` and locals `l` gives,
/// when it ends at `end` where the direct reading `r` does.
pub open spec fn ran_to(code: Seq<u8>, consts: Seq<Value>, p: int, s: Seq<Value>, l: Seq<Value>, end: int, r: Option<(Seq<Value>, Seq<Value>, Seq<Event>)>, n: nat) -> bool {
    r is Some && exec(code, consts, (s, p, l), n) == Some(((r->Some_0.0, end, r->Some_0.1), r->Some_0.2))
}

/// A simple statement has no `break` for an enclosing loop to patch.
proof fn lemma_simple_no_breaks(x: Stmt, m: AnalysisResult, k: int, p: int, ct: int)
    requires
        simple_stmt(x, m),
    ensures
        stmt_breaks(x, m, k, p, ct) == Seq::<int>::empty(),
    decreases x, 1nat,
{
    reveal(stmt_breaks);
    reveal(stmts_breaks);
    reveal(stmt_code);
    reveal(stmts_code);
    reveal(stmt_consts);
    reveal(stmts_consts);
    match x.kind {
        StmtKind::Block(body) => lemma_simples_no_breaks(body@, m, k, p, ct),
        StmtKind::If(c, b, e) => {
            let cc = expr_code(*c, m, k);
            let kb = k + expr_consts(*c).len();
            let bp = p + cc.len() + 5;
            let bc = stmt_code(*b, m, kb, bp, ct);
            lemma_simple_no_breaks(*b, m, kb, bp, ct);
            match e {
                Some(z) => {
                    lemma_simple_no_breaks(*z, m, kb + stmt_consts(*b).len(), bp + bc.len() + 5, ct);
                },
                None => {},
            }
            assert(stmt_breaks(x, m, k, p, ct) =~= Seq::<int>::empty());
        },
        _ => {},
    }
}

/// Simple statements have no `break` for an enclosing loop to patch.
proof fn lemma_simples_no_breaks(ss: Seq<Stmt>, m: AnalysisResult, k: int, p: int, ct: int)
    requires
        simple_stmts(ss, m),
    ensures
        stmts_breaks(ss, m, k, p, ct) == Seq::<int>::empty(),
    decreases ss, 2nat,
{
    reveal(stmt_breaks);
    reveal(stmts_breaks);
    reveal(stmt_code);
    reveal(stmts_code);
    reveal(stmt_consts);
    reveal(stmts_consts);
    if ss.len() > 0 {
        let pre = stmts_code(ss.drop_last(), m, k, p, ct);
        lemma_simples_no_breaks(ss.drop_last(), m, k, p, ct);
        lemma_simple_no_breaks(ss.last(), m, k + stmts_consts(ss.drop_last()).len(), p + pre.len(), ct);
        assert(stmts_breaks(ss, m, k, p, ct) =~= Seq::<int>::empty());
    }
}

/// The code of a simple statement, run from `p`, ends where the direct
/// reading of the statement does.
pub proof fn lemma_stmt_runs(x: Stmt, m: AnalysisResult, code: Seq<u8>, consts: Seq<Value>, p: int, k: int, ct: int, s: Seq<Value>, l: Seq<Value>, f: nat) -> (n: nat)
    requires
        simple_stmt(x, m),
        run_stmt(x, m, s, l, f) is Some,
        l.len() == LOCAL_MAX,
        stmt_placed(x, m, code, consts, p, k, ct),
    ensures
        ran_to(code, consts, p, s, l, p + stmt_size(x), run_stmt(x, m, s, l, f), n),
    decreases f, x, 1nat,
{
    match x.kind {
        StmtKind::Block(body) => {
            reveal(stmt_code);
            reveal(stmts_code);
            reveal(stmt_consts);
            reveal(stmts_consts);
            lemma_stmts_run(body@, m, code, consts, p, k, ct, s, l, f)
        },
        StmtKind::If(..) => lemma_if_runs(x, m, code, consts, p, k, ct, s, l, f),
        StmtKind::While(..) => lemma_while_runs(x, m, code, consts, p, k, ct, s, l, f),
        StmtKind::ExprStmt(e) => if e.kind is VarAssign {
            lemma_assign_runs(x, m, code, consts, p, k, ct, s, l, f)
        } else {
            lemma_simple_runs(x, m, code, consts, p, k, ct, s, l, f)
        },
        _ => lemma_simple_runs(x, m, code, consts, p, k, ct, s, l, f),
    }
}

/// `lemma_stmt_runs` for prints, expression statements and declarations.
proof fn lemma_simple_runs(x: Stmt, m: AnalysisResult, code: Seq<u8>, consts: Seq<Value>, p: int, k: int, ct: int, s: Seq<Value>, l: Seq<Value>, f: nat) -> (n: nat)
    requires
        x.kind is Print || (x.kind is ExprStmt && !(x.kind->ExprStmt_0.kind is VarAssign)) || x.kind is VarDecl,
        simple_stmt(x, m),
        run_stmt(x, m, s, l, f) is Some,
        l.len() == LOCAL_MAX,
        stmt_placed(x, m, code, consts, p, k, ct),
    ensures
        ran_to(code, consts, p, s, l, p + stmt_size(x), run_stmt(x, m, s, l, f), n),
{
    reveal(stmt_code);
    reveal(stmts_code);
    reveal(stmt_consts);
    reveal(stmts_consts);
    let e0 = Seq::<Event>::empty();
    match x.kind {
        StmtKind::Print(e) => {
            let ec = expr_code(*e, m, k);
            let po = if m.types@[e.id.0] == Type::Int { OpCode::I32Print } else { OpCode::BPrint };
            lemma_expr_code_len(*e, m, k);
            lemma_holds_split(code, p, ec, op(po));
            let v = eval(*e, m, l)->Ok_0;
            let n1 = lemma_expr_runs(*e, m, code, consts, p, k, s, l);
            let s1 = s.push(v);
            let p1 = p + expr_size(*e);
            lemma_op_at(code, p1, po);
            assert(s1.drop_last() =~= s);
            let out = run_stmt(x, m, s, l, f)->Some_0.2;
            let r = step_spec((s1, p1, l), code, consts);
            assert(r == ((s, p1 + 1, l), out[0]));
            assert(exec(code, consts, (s1, p1, l), 1) == Some(((s, p1 + 1, l), out))) by {
                assert(exec(code, consts, r.0, 0) == Some((r.0, e0)));
                assert(seq![out[0]] + e0 =~= out);
            }
            lemma_exec_trans(code, consts, (s, p, l), n1, (s1, p1, l), e0, 1, (s, p1 + 1, l), out);
            assert(e0 + out =~= out);
            n1 + 1
        },
        StmtKind::ExprStmt(e) => {
            let ec = expr_code(*e, m, k);
            lemma_expr_code_len(*e, m, k);
            lemma_holds_split(code, p, ec, op(OpCode::Pop));
            let v = eval(*e, m, l)->Ok_0;
            let n1 = lemma_expr_runs(*e, m, code, consts, p, k, s, l);
            let s1 = s.push(v);
            let p1 = p + expr_size(*e);
            lemma_op_at(code, p1, OpCode::Pop);
            assert(s1.drop_last() =~= s);
            lemma_one_step(code, consts, (s1, p1, l), (s, p1 + 1, l));
            lemma_exec_trans(code, consts, (s, p, l), n1, (s1, p1, l), e0, 1, (s, p1 + 1, l), e0);
            assert(e0 + e0 =~= e0);
            n1 + 1
        },
        StmtKind::VarDecl(_, _, Some(init)) => {
            let ec = expr_code(init, m, k);
            let v = slot(m, x.id.0);
            let so = if m.var_types@[m.variables@[x.id.0]] == Type::Int { OpCode::I32StoreLocal } else { OpCode::BStoreLocal };
            lemma_expr_code_len(init, m, k);
            lemma_holds_split(code, p, ec, op(so) + u24_bytes(v));
            let p1 = p + expr_size(init);
            lemma_holds_split(code, p1, op(so), u24_bytes(v));
            let val = eval(init, m, l)->Ok_0;
            let n1 = lemma_expr_runs(init, m, code, consts, p, k, s, l);
            let s1 = s.push(val);
            lemma_op_at(code, p1, so);
            lemma_u24_at(code, p1, v);
            let l1 = l.update(v, val);
            lemma_one_step(code, consts, (s1, p1, l), (s1, p1 + 4, l1));
            lemma_exec_trans(code, consts, (s, p, l), n1, (s1, p1, l), e0, 1, (s1, p1 + 4, l1), e0);
            assert(e0 + e0 =~= e0);
            n1 + 1
        },
        _ => 0,
    }
}

/// `lemma_stmt_runs` for an assignment statement: the value is duplicated,
/// stored, and one copy popped.
proof fn lemma_assign_runs(x: Stmt, m: AnalysisResult, code: Seq<u8>, consts: Seq<Value>, p: int, k: int, ct: int, s: Seq<Value>, l: Seq<Value>, f: nat) -> (n: nat)
    requires
        x.kind is ExprStmt,
        x.kind->ExprStmt_0.kind is VarAssign,
        simple_stmt(x, m),
        run_stmt(x, m, s, l, f) is Some,
        l.len() == LOCAL_MAX,
        stmt_placed(x, m, code, consts, p, k, ct),
    ensures
        ran_to(code, consts, p, s, l, p + stmt_size(x), run_stmt(x, m, s, l, f), n),
{
    reveal(stmt_code);
    reveal(stmts_code);
    reveal(stmt_consts);
    reveal(stmts_consts);
    let e0 = Seq::<Event>::empty();
    if let StmtKind::ExprStmt(e) = x.kind {
        if let ExprKind::VarAssign(t, v) = e.kind {
            let vc = expr_code(*v, m, k);
            let sl = slot(m, t.id.0);
            let so = if m.var_types@[m.variables@[t.id.0]] == Type::Int { OpCode::I32StoreLocal } else { OpCode::BStoreLocal };
            lemma_expr_code_len(*v, m, k);
            assert(expr_consts(*e) =~= expr_consts(*v));
            let a1 = vc + op(OpCode::Dup);
            let a2 = a1 + op(so) + u24_bytes(sl);
            assert(stmt_code(x, m, k, p, ct) == a2 + op(OpCode::Pop));
            lemma_holds_split(code, p, a2, op(OpCode::Pop));
            lemma_holds_split(code, p, a1 + op(so), u24_bytes(sl));
            lemma_holds_split(code, p, a1, op(so));
            lemma_holds_split(code, p, vc, op(OpCode::Dup));
            let val = eval(*v, m, l)->Ok_0;
            let n1 = lemma_expr_runs(*v, m, code, consts, p, k, s, l);
            let s1 = s.push(val);
            let p1 = p + expr_size(*v);
            lemma_op_at(code, p1, OpCode::Dup);
            lemma_one_step(code, consts, (s1, p1, l), (s1.push(val), p1 + 1, l));
            lemma_op_at(code, p1 + 1, so);
            lemma_u24_at(code, p1 + 1, sl);
            let l1 = l.update(sl, val);
            lemma_one_step(code, consts, (s1.push(val), p1 + 1, l), (s1.push(val), p1 + 5, l1));
            lemma_op_at(code, p1 + 5, OpCode::Pop);
            assert(s1.push(val).drop_last() =~= s1);
            lemma_one_step(code, consts, (s1.push(val), p1 + 5, l1), (s1, p1 + 6, l1));
            lemma_exec_trans(code, consts, (s, p, l), n1, (s1, p1, l), e0, 1, (s1.push(val), p1 + 1, l), e0);
            lemma_exec_trans(code, consts, (s, p, l), n1 + 1, (s1.push(val), p1 + 1, l), e0 + e0, 1, (s1.push(val), p1 + 5, l1), e0);
            lemma_exec_trans(code, consts, (s, p, l), n1 + 2, (s1.push(val), p1 + 5, l1), e0 + e0 + e0, 1, (s1, p1 + 6, l1), e0);
            assert(e0 + e0 + e0 + e0 =~= e0);
            n1 + 3
        } else {
            0
        }
    } else {
        0
    }
}

/// The four bytes after the opcode at `q` hold the encoding of `x`.
proof fn lemma_i32_at(code: Seq<u8>, q: int, x: int)
    requires
        holds_at(code, q + 1, i32_bytes(x)),
        i32::MIN <= x <= i32::MAX,
    ensures
        i32_value(code[q + 1], code[q + 2], code[q + 3], code[q + 4]) == x,
{
    assert(code.subrange(q + 1, q + 5)[0] == code[q + 1]);
    assert(code.subrange(q + 1, q + 5)[1] == code[q + 2]);
    assert(code.subrange(q + 1, q + 5)[2] == code[q + 3]);
    assert(code.subrange(q + 1, q + 5)[3] == code[q + 4]);
    lemma_i32_roundtrip(x);
}

/// `lemma_stmt_runs` for an `if`: the condition runs, the jump on false
/// skips the branch not taken.
#[verifier::rlimit(50)]
proof fn lemma_if_runs(x: Stmt, m: AnalysisResult, code: Seq<u8>, consts: Seq<Value>, p: int, k: int, ct: int, s: Seq<Value>, l: Seq<Value>, f: nat) -> (n: nat)
    requires
        x.kind is If,
        simple_stmt(x, m),
        run_stmt(x, m, s, l, f) is Some,
        l.len() == LOCAL_MAX,
        stmt_placed(x, m, code, consts, p, k, ct),
    ensures
        ran_to(code, consts, p, s, l, p + stmt_size(x), run_stmt(x, m, s, l, f), n),
    decreases f, x, 0nat,
{
    lemma_unfold_if(x, m, k, p, ct, Set::empty(), false);
    if let StmtKind::If(c, b, e) = x.kind {
        let e0 = Seq::<Event>::empty();
        let cc = expr_code(*c, m, k);
        let kb = k + expr_consts(*c).len();
        let bp = p + cc.len() + 5;
        let bc = stmt_code(*b, m, kb, bp, ct);
        lemma_expr_code_len(*c, m, k);
        lemma_stmt_code_len(*b, m, kb, bp, ct);
        let cv = eval(*c, m, l)->Ok_0;
        let cb = match cv { Value::Boolean(z) => z, _ => false };
        let r = run_stmt(x, m, s, l, f);
        let s1 = s.push(cv);
        let pj = p + cc.len();
        assert(s1.drop_last() =~= s);
        match e {
            None => {
                let off = bc.len() as int;
                assert(stmt_code(x, m, k, p, ct) == cc + op(OpCode::JmpFalse) + i32_bytes(off) + bc);
                lemma_holds_split(code, p, cc + op(OpCode::JmpFalse) + i32_bytes(off), bc);
                lemma_holds_split(code, p, cc + op(OpCode::JmpFalse), i32_bytes(off));
                lemma_holds_split(code, p, cc, op(OpCode::JmpFalse));
                assert(stmt_consts(x) =~= expr_consts(*c) + stmt_consts(*b));
                lemma_holds_split(consts, k, expr_consts(*c), stmt_consts(*b));
                let n1 = lemma_expr_runs(*c, m, code, consts, p, k, s, l);
                lemma_op_at(code, pj, OpCode::JmpFalse);
                lemma_i32_at(code, pj, off);
                if cb {
                    lemma_one_step(code, consts, (s1, pj, l), (s, bp, l));
                    lemma_exec_trans(code, consts, (s, p, l), n1, (s1, pj, l), e0, 1, (s, bp, l), e0);
                    let n2 = lemma_stmt_runs(*b, m, code, consts, bp, kb, ct, s, l, f);
                    lemma_exec_trans(code, consts, (s, p, l), n1 + 1, (s, bp, l), e0 + e0, n2, (r->Some_0.0, bp + bc.len(), r->Some_0.1), r->Some_0.2);
                    assert(e0 + e0 + r->Some_0.2 =~= r->Some_0.2);
                    n1 + 1 + n2
                } else {
                    lemma_one_step(code, consts, (s1, pj, l), (s, bp + off, l));
                    lemma_exec_trans(code, consts, (s, p, l), n1, (s1, pj, l), e0, 1, (s, bp + off, l), e0);
                    assert(e0 + e0 =~= e0);
                    n1 + 1
                }
            },
            Some(z) => {
                let kz = kb + stmt_consts(*b).len();
                let zp = bp + bc.len() + 5;
                let zc = stmt_code(*z, m, kz, zp, ct);
                lemma_stmt_code_len(*z, m, kz, zp, ct);
                let off = bc.len() + 5int;
                let a1 = cc + op(OpCode::JmpFalse) + i32_bytes(off);
                let a2 = a1 + bc;
                let a3 = a2 + op(OpCode::Jmp) + i32_bytes(zc.len() as int);
                assert(stmt_code(x, m, k, p, ct) == a3 + zc);
                lemma_holds_split(code, p, a3, zc);
                lemma_holds_split(code, p, a2 + op(OpCode::Jmp), i32_bytes(zc.len() as int));
                lemma_holds_split(code, p, a2, op(OpCode::Jmp));
                lemma_holds_split(code, p, a1, bc);
                lemma_holds_split(code, p, cc + op(OpCode::JmpFalse), i32_bytes(off));
                lemma_holds_split(code, p, cc, op(OpCode::JmpFalse));
                assert(stmt_consts(x) =~= expr_consts(*c) + stmt_consts(*b) + stmt_consts(*z));
                lemma_holds_split(consts, k, expr_consts(*c) + stmt_consts(*b), stmt_consts(*z));
                lemma_holds_split(consts, k, expr_consts(*c), stmt_consts(*b));
                let n1 = lemma_expr_runs(*c, m, code, consts, p, k, s, l);
                lemma_op_at(code, pj, OpCode::JmpFalse);
                lemma_i32_at(code, pj, off);
                if cb {
                    lemma_one_step(code, consts, (s1, pj, l), (s, bp, l));
                    lemma_exec_trans(code, consts, (s, p, l), n1, (s1, pj, l), e0, 1, (s, bp, l), e0);
                    let n2 = lemma_stmt_runs(*b, m, code, consts, bp, kb, ct, s, l, f);
                    let (sb, lb, ob) = r->Some_0;
                    let jp = bp + bc.len();
                    lemma_exec_trans(code, consts, (s, p, l), n1 + 1, (s, bp, l), e0 + e0, n2, (sb, jp, lb), ob);
                    lemma_op_at(code, jp, OpCode::Jmp);
                    lemma_i32_at(code, jp, zc.len() as int);
                    lemma_one_step(code, consts, (sb, jp, lb), (sb, jp + 5 + zc.len(), lb));
                    lemma_exec_trans(code, consts, (s, p, l), n1 + 1 + n2, (sb, jp, lb), e0 + e0 + ob, 1, (sb, jp + 5 + zc.len(), lb), e0);
                    assert(e0 + e0 + ob + e0 =~= ob);
                    n1 + 1 + n2 + 1
                } else {
                    lemma_one_step(code, consts, (s1, pj, l), (s, zp, l));
                    lemma_exec_trans(code, consts, (s, p, l), n1, (s1, pj, l), e0, 1, (s, zp, l), e0);
                    let n2 = lemma_stmt_runs(*z, m, code, consts, zp, kz, ct, s, l, f);
                    lemma_exec_trans(code, consts, (s, p, l), n1 + 1, (s, zp, l), e0 + e0, n2, (r->Some_0.0, zp + zc.len(), r->Some_0.1), r->Some_0.2);
                    assert(e0 + e0 + r->Some_0.2 =~= r->Some_0.2);
                    n1 + 1 + n2
                }
            },
        }
    } else {
        0
    }
}

/// `lemma_stmt_runs` for a `while`: the condition runs; on false the jump
/// leaves the loop; on true the body runs and the jump back starts the loop
/// over, with one run fewer left.
#[verifier::rlimit(50)]
proof fn lemma_while_runs(x: Stmt, m: AnalysisResult, code: Seq<u8>, consts: Seq<Value>, p: int, k: int, ct: int, s: Seq<Value>, l: Seq<Value>, f: nat) -> (n: nat)
    requires
        x.kind is While,
        simple_stmt(x, m),
        run_stmt(x, m, s, l, f) is Some,
        l.len() == LOCAL_MAX,
        stmt_placed(x, m, code, consts, p, k, ct),
    ensures
        ran_to(code, consts, p, s, l, p + stmt_size(x), run_stmt(x, m, s, l, f), n),
    decreases f, x, 0nat,
{
    lemma_unfold_while(x, m, k, p, ct, Set::empty(), false);
    lemma_stmt_code_len(x, m, k, p, ct);
    if let StmtKind::While(c, b) = x.kind {
        let e0 = Seq::<Event>::empty();
        let cc = expr_code(*c, m, k);
        let kb = k + expr_consts(*c).len();
        let bpos = p + cc.len() + 5;
        let braw = stmt_code(*b, m, kb, bpos, p);
        let jpos = bpos + braw.len();
        lemma_expr_code_len(*c, m, k);
        lemma_stmt_code_len(*b, m, kb, bpos, p);
        lemma_simple_no_breaks(*b, m, kb, bpos, p);
        assert(patched(braw, bpos, stmt_breaks(*b, m, kb, bpos, p), jpos + 5) == braw);
        let off = braw.len() + 5int;
        let back = p - (jpos + 5);
        let a1 = cc + op(OpCode::JmpFalse) + i32_bytes(off);
        let a2 = a1 + braw;
        assert(stmt_code(x, m, k, p, ct) == a2 + op(OpCode::Jmp) + i32_bytes(back));
        lemma_holds_split(code, p, a2 + op(OpCode::Jmp), i32_bytes(back));
        lemma_holds_split(code, p, a2, op(OpCode::Jmp));
        lemma_holds_split(code, p, a1, braw);
        lemma_holds_split(code, p, cc + op(OpCode::JmpFalse), i32_bytes(off));
        lemma_holds_split(code, p, cc, op(OpCode::JmpFalse));
        assert(stmt_consts(x) =~= expr_consts(*c) + stmt_consts(*b));
        lemma_holds_split(consts, k, expr_consts(*c), stmt_consts(*b));
        let cv = eval(*c, m, l)->Ok_0;
        let cb = match cv { Value::Boolean(z) => z, _ => false };
        let r = run_stmt(x, m, s, l, f);
        let s1 = s.push(cv);
        let pj = p + cc.len();
        assert(s1.drop_last() =~= s);
        let n1 = lemma_expr_runs(*c, m, code, consts, p, k, s, l);
        lemma_op_at(code, pj, OpCode::JmpFalse);
        lemma_i32_at(code, pj, off);
        let end = p + stmt_size(x);
        if !cb {
            lemma_one_step(code, consts, (s1, pj, l), (s, end, l));
            lemma_exec_trans(code, consts, (s, p, l), n1, (s1, pj, l), e0, 1, (s, end, l), e0);
            assert(e0 + e0 =~= e0);
            n1 + 1
        } else {
            lemma_one_step(code, consts, (s1, pj, l), (s, bpos, l));
            lemma_exec_trans(code, consts, (s, p, l), n1, (s1, pj, l), e0, 1, (s, bpos, l), e0);
            let n2 = lemma_stmt_runs(*b, m, code, consts, bpos, kb, p, s, l, f);
            let (sb, lb, ob) = run_stmt(*b, m, s, l, f)->Some_0;
            lemma_exec_trans(code, consts, (s, p, l), n1 + 1, (s, bpos, l), e0 + e0, n2, (sb, jpos, lb), ob);
            lemma_op_at(code, jpos, OpCode::Jmp);
            lemma_i32_at(code, jpos, back);
            lemma_one_step(code, consts, (sb, jpos, lb), (sb, p, lb));
            lemma_exec_trans(code, consts, (s, p, l), n1 + 1 + n2, (sb, jpos, lb), e0 + e0 + ob, 1, (sb, p, lb), e0);
            lemma_run_stmt_locals(*b, m, s, l, f);
            let n3 = lemma_while_runs(x, m, code, consts, p, k, ct, sb, lb, (f - 1) as nat);
            let (s2, l2, o2) = run_stmt(x, m, sb, lb, (f - 1) as nat)->Some_0;
            lemma_exec_trans(code, consts, (s, p, l), n1 + 1 + n2 + 1, (sb, p, lb), e0 + e0 + ob + e0, n3, (s2, end, l2), o2);
            assert(e0 + e0 + ob + e0 + o2 =~= ob + o2);
            n1 + 1 + n2 + 1 + n3
        }
    } else {
        0
    }
}

/// A direct reading keeps the locals as many as the machine has.
proof fn lemma_run_stmt_locals(x: Stmt, m: AnalysisResult, st: Seq<Value>, l: Seq<Value>, f: nat)
    requires
        simple_stmt(x, m),
        run_stmt(x, m, st, l, f) is Some,
        l.len() == LOCAL_MAX,
    ensures
        run_stmt(x, m, st, l, f)->Some_0.1.len() == l.len(),
    decreases f, x, 1nat,
{
    match x.kind {
        StmtKind::Block(body) => lemma_run_stmts_locals(body@, m, st, l, f),
        StmtKind::If(c, b, e) => {
            match eval(*c, m, l) {
                Ok(Value::Boolean(true)) => lemma_run_stmt_locals(*b, m, st, l, f),
                Ok(Value::Boolean(false)) => match e {
                    Some(z) => lemma_run_stmt_locals(*z, m, st, l, f),
                    None => {},
                },
                _ => {},
            }
        },
        StmtKind::While(c, b) => {
            match eval(*c, m, l) {
                Ok(Value::Boolean(true)) => {
                    if f > 0 {
                        lemma_run_stmt_locals(*b, m, st, l, f);
                        let (st1, l1, _) = run_stmt(*b, m, st, l, f)->Some_0;
                        lemma_run_stmt_locals(x, m, st1, l1, (f - 1) as nat);
                    }
                },
                _ => {},
            }
        },
        _ => {},
    }
}

/// A direct reading of statements keeps the locals as many as the machine
/// has.
proof fn lemma_run_stmts_locals(ss: Seq<Stmt>, m: AnalysisResult, st: Seq<Value>, l: Seq<Value>, f: nat)
    requires
        simple_stmts(ss, m),
        run_stmts(ss, m, st, l, f) is Some,
        l.len() == LOCAL_MAX,
    ensures
        run_stmts(ss, m, st, l, f)->Some_0.1.len() == l.len(),
    decreases f, ss, 2nat,
{
    if ss.len() > 0 {
        lemma_run_stmts_locals(ss.drop_last(), m, st, l, f);
        let (st1, l1, _) = run_stmts(ss.drop_last(), m, st, l, f)->Some_0;
        lemma_run_stmt_locals(ss.last(), m, st1, l1, f);
    }
}

/// The code of simple statements, run from `p`, ends where their direct
/// reading does.
pub proof fn lemma_stmts_run(ss: Seq<Stmt>, m: AnalysisResult, code: Seq<u8>, consts: Seq<Value>, p: int, k: int, ct: int, s: Seq<Value>, l: Seq<Value>, f: nat) -> (n: nat)
    requires
        simple_stmts(ss, m),
        run_stmts(ss, m, s, l, f) is Some,
        l.len() == LOCAL_MAX,
        stmts_placed(ss, m, code, consts, p, k, ct),
    ensures
        ran_to(code, consts, p, s, l, p + stmts_size(ss), run_stmts(ss, m, s, l, f), n),
    decreases f, ss, 2nat,
{
    reveal(stmt_code);
    reveal(stmts_code);
    reveal(stmt_consts);
    reveal(stmts_consts);
    if ss.len() == 0 {
        0
    } else {
        let pre = ss.drop_last();
        let last = ss.last();
        let pc = stmts_code(pre, m, k, p, ct);
        let k2 = k + stmts_consts(pre).len();
        let lc = stmt_code(last, m, k2, p + pc.len(), ct);
        lemma_stmts_code_len(pre, m, k, p, ct);
        lemma_stmt_code_len(last, m, k2, p + pc.len(), ct);
        lemma_holds_split(code, p, pc, lc);
        lemma_holds_split(consts, k, stmts_consts(pre), stmt_consts(last));
        let (s1, l1, out1) = run_stmts(pre, m, s, l, f)->Some_0;
        lemma_run_stmts_locals(pre, m, s, l, f);
        let n1 = lemma_stmts_run(pre, m, code, consts, p, k, ct, s, l, f);
        let p1 = p + stmts_size(pre);
        let n2 = lemma_stmt_runs(last, m, code, consts, p1, k2, ct, s1, l1, f);
        let (s2, l2, out2) = run_stmt(last, m, s1, l1, f)->Some_0;
        lemma_exec_trans(code, consts, (s, p, l), n1, (s1, p1, l1), out1, n2, (s2, p1 + stmt_size(last), l2), out2);
        n1 + n2
    }
}

/// A compiled program of simple statements, run from the start with every
/// local uninitialized, does what the direct reading of its statements
/// says, when that reading, with each loop running at most `f` times, does
/// not fault: after `n` steps that go on or print, it has printed what the
/// reading prints, and the next step halts with exit code 0.
#[verifier::rlimit(50)]
pub proof fn lemma_program_runs(body: Seq<Stmt>, m: AnalysisResult, f: nat) -> (n: nat)
    requires
        simple_stmts(body, m),
        run_stmts(body, m, Seq::empty(), uninitialized_locals(), f) is Some,
        stmts_consts(body).len() < 0xFF_FFFF,
        stmts_size(body) <= i32::MAX - 5,
    ensures
        ({
            let code = program_code(body, m);
            let consts = program_consts(body);
            let r = exec(code, consts, (Seq::<Value>::empty(), 0, uninitialized_locals()), n);
            &&& r is Some
            &&& r->Some_0.1 == run_stmts(body, m, Seq::empty(), uninitialized_locals(), f)->Some_0.2
            &&& step_spec(r->Some_0.0, code, consts).1 == Event::Halt(0)
        }),
{
    let l = uninitialized_locals();
    let code = program_code(body, m);
    let consts = program_consts(body);
    let sc = stmts_code(body, m, 0, 0, 0);
    let kk = stmts_consts(body).len() as int;
    let s0 = Seq::<Value>::empty();
    lemma_stmts_code_len(body, m, 0, 0, 0);
    assert(code =~= sc + (op(OpCode::LoadConst) + u24_bytes(kk)) + op(OpCode::Halt));
    assert(code.subrange(0, code.len() as int) =~= code);
    lemma_holds_split(code, 0, sc + (op(OpCode::LoadConst) + u24_bytes(kk)), op(OpCode::Halt));
    lemma_holds_split(code, 0, sc, op(OpCode::LoadConst) + u24_bytes(kk));
    lemma_holds_split(code, sc.len() as int, op(OpCode::LoadConst), u24_bytes(kk));
    assert(holds_at(consts, 0, stmts_consts(body))) by {
        assert(consts.subrange(0, kk) =~= stmts_consts(body));
    }
    let (s1, l1, out) = run_stmts(body, m, s0, l, f)->Some_0;
    let n1 = lemma_stmts_run(body, m, code, consts, 0, 0, 0, s0, l, f);
    let p1 = stmts_size(body) as int;
    lemma_op_at(code, p1, OpCode::LoadConst);
    lemma_u24_at(code, p1, kk);
    assert(consts[kk] == Value::Integer(0));
    let s2 = s1.push(Value::Integer(0));
    let e0 = Seq::<Event>::empty();
    lemma_one_step(code, consts, (s1, p1, l1), (s2, p1 + 4, l1));
    lemma_exec_trans(code, consts, (s0, 0, l), n1, (s1, p1, l1), out, 1, (s2, p1 + 4, l1), e0);
    assert(out + e0 =~= out);
    lemma_op_at(code, p1 + 4, OpCode::Halt);
    assert(step_spec((s2, p1 + 4, l1), code, consts).1 == Event::Halt(0));
    n1 + 1
}

/// The locals of a new machine: every slot uninitialized.
pub open spec fn uninitialized_locals() -> Seq<Value> {
    Seq::new(LOCAL_MAX as nat, |i: int| Value::Uninitialized)
}


/// The value of a binary operator on integer operands `x` and `y` (the left
/// operand typed `Int` by analysis): the sum, difference or product where
/// it fits 32 bits, and the truth of each comparison; on boolean operands
/// `a` and `b` (the left one typed `Bool`), `==` and `!=` compare them.
pub proof fn lemma_operator_values(e: Expr, o: Spanned<BinOpKind>, left: Box<Expr>, right: Box<Expr>, m: AnalysisResult,
    l: Seq<Value>, x: i32, y: i32, a: bool, b: bool)
    requires
        e.kind == ExprKind::BinaryOp(o, left, right),
    ensures
        ({
            let ints = eval(*left, m, l) == Ok::<Value, Fault>(Value::Integer(x))
                && eval(*right, m, l) == Ok::<Value, Fault>(Value::Integer(y)) && m.types@[left.id.0] == Type::Int;
            let bools = eval(*left, m, l) == Ok::<Value, Fault>(Value::Boolean(a))
                && eval(*right, m, l) == Ok::<Value, Fault>(Value::Boolean(b)) && m.types@[left.id.0] == Type::Bool;
            let v = eval(e, m, l);
            &&& ints && o.node is Add && i32::MIN <= x + y <= i32::MAX ==> v == Ok::<Value, Fault>(Value::Integer((x + y) as i32))
            &&& ints && o.node is Sub && i32::MIN <= x - y <= i32::MAX ==> v == Ok::<Value, Fault>(Value::Integer((x - y) as i32))
            &&& ints && o.node is Mul && i32::MIN <= x * y <= i32::MAX ==> v == Ok::<Value, Fault>(Value::Integer((x * y) as i32))
            &&& ints && o.node is Div && y == 0 ==> v == Err::<Value, Fault>(Fault::DivisionByZero)
            &&& ints && o.node is LessThan ==> v == Ok::<Value, Fault>(Value::Boolean(x < y))
            &&& ints && o.node is LessEq ==> v == Ok::<Value, Fault>(Value::Boolean(x <= y))
            &&& ints && o.node is GreaterThan ==> v == Ok::<Value, Fault>(Value::Boolean(x > y))
            &&& ints && o.node is GreaterEq ==> v == Ok::<Value, Fault>(Value::Boolean(x >= y))
            &&& ints && o.node is EqEq ==> v == Ok::<Value, Fault>(Value::Boolean(x == y))
            &&& ints && o.node is BangEq ==> v == Ok::<Value, Fault>(Value::Boolean(x != y))
            &&& bools && o.node is EqEq ==> v == Ok::<Value, Fault>(Value::Boolean(a == b))
            &&& bools && o.node is BangEq ==> v == Ok::<Value, Fault>(Value::Boolean(a != b))
        }),
{
}

/// The code compiled for a comparison of integers `x` and `y` runs to the
/// truth of that comparison: it leaves exactly that boolean on the stack,
/// prints nothing, and goes on after the expression's code.
pub proof fn lemma_compiled_comparison_runs(e: Expr, o: Spanned<BinOpKind>, left: Box<Expr>, right: Box<Expr>,
    m: AnalysisResult, code: Seq<u8>, consts: Seq<Value>, p: int, k: int, s: Seq<Value>, l: Seq<Value>, x: i32, y: i32)
    -> (n: nat)
    requires
        e.kind == ExprKind::BinaryOp(o, left, right),
        o.node is LessThan || o.node is LessEq || o.node is GreaterThan || o.node is GreaterEq
            || o.node is EqEq || o.node is BangEq,
        val_expr(e, m),
        expr_placed(e, m, code, consts, p, k),
        eval(*left, m, l) == Ok::<Value, Fault>(Value::Integer(x)),
        eval(*right, m, l) == Ok::<Value, Fault>(Value::Integer(y)),
        m.types@[left.id.0] == Type::Int,
    ensures
        ran_expr(code, consts, e, p, s, l, Value::Boolean(
            if o.node is LessThan { x < y }
            else if o.node is LessEq { x <= y }
            else if o.node is GreaterThan { x > y }
            else if o.node is GreaterEq { x >= y }
            else if o.node is EqEq { x == y }
            else { x != y }), n),
{
    lemma_operator_values(e, o, left, right, m, l, x, y, false, false);
    lemma_expr_runs(e, m, code, consts, p, k, s, l)
}

} // verus!
