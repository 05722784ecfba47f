//! Whole programs: how large their code is, whether code can be made for
//! them, and the code of a program from its source.
use crate::analysis::types::Type;
use crate::analysis::AnalysisResult;
use crate::compiler::{
    expr_code, expr_consts, expr_ok, lemma_block_step, lemma_breaks_within, lemma_loops_after_trans,
    lemma_patched_len, lemma_stmts_ok_prefix, lemma_unfold_while, loops_after, op, stmt_breaks, stmt_code, stmt_consts,
    stmt_decls, stmt_ok, stmts_breaks, stmts_code, stmts_consts, stmts_decls, stmts_ok, typed_var_ok,
    var_ok, Compiler,
};
use crate::analysis::resolution::{decls_count, decls_count_of, loops_nesting, loops_nesting_of};
use crate::analysis::{analysis_reports, resolution_of};
use crate::analysis::types::{reports_of, Report};
use crate::analysis::types::{stmts_checkable, stmts_cv, stmts_diags, stmts_tm, stmts_vt};
use crate::parse::ast::stmts_have_error;
use crate::analysis::SemanticAnalyzer;
use crate::diagnostics::Diagnostic;
use crate::lex::Lexer;
use crate::options::Options;
use crate::parse::ast::{BinOpKind, Expr, ExprKind, Program, Stmt, StmtKind, UnaryOpKind};
use crate::parse::parser::Parser;
use crate::parse::ast::stmts_view;
use crate::parse::grammar::{lemma_continues_intro, lexed, parse_reports, parsed_from, program_rest};
use crate::lex::token::TokenStream;
use crate::text::literals_fit;
use crate::runtime::chunk::{u24_bytes, Chunk};
use crate::runtime::opcodes::OpCode;
use crate::runtime::value::Value;
use vstd::prelude::*;

verus! {

broadcast use vstd::std_specs::hash::group_hash_axioms;

/// The number of bytes of the code of `e`.
pub open spec fn expr_size(e: Expr) -> nat
    decreases e,
{
    match e.kind {
        ExprKind::Literal(_) => 4,
        ExprKind::BinaryOp(o, l, r) => expr_size(*l) + expr_size(*r) + if o.node is And || o.node is Or { 7nat } else { 1nat },
        ExprKind::UnaryOp(o, r) => expr_size(*r) + if o.node is Negate { 1nat } else { 10nat },
        ExprKind::VarAssign(_, v) => expr_size(*v) + 5,
        ExprKind::Variable(_) => 4,
        _ => 0,
    }
}

/// The number of bytes of the code of `s`.
pub open spec fn stmt_size(s: Stmt) -> nat
    decreases s,
{
    match s.kind {
        StmtKind::ExprStmt(e) => expr_size(*e) + 1,
        StmtKind::Print(e) => expr_size(*e) + 1,
        StmtKind::VarDecl(_, _, init) => match init {
            Some(x) => expr_size(x) + 4,
            None => 8,
        },
        StmtKind::Block(body) => stmts_size(body@),
        StmtKind::If(c, b, e) => expr_size(*c) + 5 + stmt_size(*b) + match e {
            Some(x) => 5 + stmt_size(*x),
            None => 0,
        },
        StmtKind::While(c, b) => expr_size(*c) + stmt_size(*b) + 10,
        StmtKind::Break => 5,
        StmtKind::Continue => 5,
        _ => 0,
    }
}

/// The number of bytes of the code of the statements `ss`.
pub open spec fn stmts_size(ss: Seq<Stmt>) -> nat
    decreases ss,
{
    if ss.len() == 0 {
        0
    } else {
        stmts_size(ss.drop_last()) + stmt_size(ss.last())
    }
}

/// The code of `e` has `expr_size(e)` bytes, wherever it is placed.
pub proof fn lemma_expr_code_len(e: Expr, m: AnalysisResult, k: int)
    ensures
        expr_code(e, m, k).len() == expr_size(e),
    decreases e,
{
    match e.kind {
        ExprKind::BinaryOp(_, l, r) => {
            lemma_expr_code_len(*l, m, k);
            lemma_expr_code_len(*r, m, k + expr_consts(*l).len());
        },
        ExprKind::UnaryOp(_, r) => {
            lemma_expr_code_len(*r, m, k);
        },
        ExprKind::VarAssign(_, v) => {
            lemma_expr_code_len(*v, m, k);
        },
        _ => {},
    }
}

/// The code of `s` has `stmt_size(s)` bytes, wherever it is placed.
pub proof fn lemma_stmt_code_len(s: Stmt, m: AnalysisResult, k: int, p: int, ct: int)
    ensures
        stmt_code(s, m, k, p, ct).len() == stmt_size(s),
    decreases s, 1nat,
{
    match s.kind {
        StmtKind::Block(body) => {
            reveal(stmt_code);
            reveal(stmts_code);
            lemma_stmts_code_len(body@, m, k, p, ct);
        },
        StmtKind::If(..) => lemma_if_code_len(s, m, k, p, ct),
        StmtKind::While(..) => lemma_while_code_len(s, m, k, p, ct),
        StmtKind::ExprStmt(e) => {
            reveal(stmt_code);
            reveal(stmts_code);
            lemma_expr_code_len(*e, m, k);
        },
        StmtKind::Print(e) => {
            reveal(stmt_code);
            reveal(stmts_code);
            lemma_expr_code_len(*e, m, k);
        },
        StmtKind::VarDecl(_, _, init) => {
            reveal(stmt_code);
            reveal(stmts_code);
            match init {
                Some(x) => lemma_expr_code_len(x, m, k),
                None => {},
            }
        },
        _ => {
            reveal(stmt_code);
            reveal(stmts_code);
        },
    }
}

proof fn lemma_if_code_len(s: Stmt, m: AnalysisResult, k: int, p: int, ct: int)
    requires
        s.kind is If,
    ensures
        stmt_code(s, m, k, p, ct).len() == stmt_size(s),
    decreases s, 0nat,
{
    reveal(stmt_code);
    reveal(stmts_code);
    if let StmtKind::If(c, b, e) = s.kind {
        lemma_expr_code_len(*c, m, k);
        let cc = expr_code(*c, m, k);
        let kb = k + expr_consts(*c).len();
        let bp = p + cc.len() + 5;
        lemma_stmt_code_len(*b, m, kb, bp, ct);
        if let Some(x) = e {
            let bc = stmt_code(*b, m, kb, bp, ct);
            lemma_stmt_code_len(*x, m, kb + stmt_consts(*b).len(), bp + bc.len() + 5, ct);
        }
    }
}

proof fn lemma_while_code_len(s: Stmt, m: AnalysisResult, k: int, p: int, ct: int)
    requires
        s.kind is While,
    ensures
        stmt_code(s, m, k, p, ct).len() == stmt_size(s),
    decreases s, 0nat,
{
    lemma_unfold_while(s, m, k, p, ct, Set::empty(), false);
    if let StmtKind::While(c, b) = s.kind {
        lemma_expr_code_len(*c, m, k);
        let cc = expr_code(*c, m, k);
        let kb = k + expr_consts(*c).len();
        let bpos = p + cc.len() + 5;
        let braw = stmt_code(*b, m, kb, bpos, p);
        lemma_stmt_code_len(*b, m, kb, bpos, p);
        lemma_breaks_within(*b, m, kb, bpos, p);
        let js = stmt_breaks(*b, m, kb, bpos, p);
        let jpos = bpos + braw.len();
        lemma_patched_len(braw, bpos, js, jpos + 5);
    }
}

/// The code of the statements `ss` has `stmts_size(ss)` bytes.
pub proof fn lemma_stmts_code_len(ss: Seq<Stmt>, m: AnalysisResult, k: int, p: int, ct: int)
    ensures
        stmts_code(ss, m, k, p, ct).len() == stmts_size(ss),
    decreases ss, 2nat,
{
    reveal(stmt_code);
    reveal(stmts_code);
    reveal(stmt_consts);
    reveal(stmts_consts);
    if ss.len() > 0 {
        lemma_stmts_code_len(ss.drop_last(), m, k, p, ct);
        let pre = stmts_code(ss.drop_last(), m, k, p, ct);
        let last = stmt_code(ss.last(), m, k + stmts_consts(ss.drop_last()).len(), p + pre.len(), ct);
        lemma_stmt_code_len(ss.last(), m, k + stmts_consts(ss.drop_last()).len(), p + pre.len(), ct);
        assert(stmts_code(ss, m, k, p, ct) == pre + last);
        assert(stmts_size(ss) == stmts_size(ss.drop_last()) + stmt_size(ss.last()));
    } else {
        assert(stmts_code(ss, m, k, p, ct).len() == 0);
    }
}

/// `d` holds `v`.
fn holds(d: &Vec<usize>, v: usize) -> (b: bool)
    ensures
        b == d@.contains(v),
{
    let mut i: usize = 0;
    while i < d.len()
        invariant
            i <= d@.len(),
            forall|j: int| 0 <= j < i ==> d@[j] != v,
        decreases d@.len() - i,
    {
        if d[i] == v {
            return true;
        }
        i = i + 1;
    }
    false
}

/// `t` is a type that code is made for.
fn int_or_bool_exec(t: Type) -> (b: bool)
    ensures
        b == (t == Type::Int || t == Type::Bool),
{
    t == Type::Int || t == Type::Bool
}

/// Whether node `id` refers to a variable with a slot in `d` that can be
/// encoded: `var_ok`, computed.
fn var_ready(m: &AnalysisResult, d: &Vec<usize>, id: usize) -> (b: bool)
    ensures
        b == var_ok(*m, d@.to_set(), id),
{
    match m.variables.get(&id) {
        Some(v) => *v < 0xFF_FFFF && holds(d, *v),
        None => false,
    }
}

/// `typed_var_ok`, computed.
fn typed_var_ready(m: &AnalysisResult, d: &Vec<usize>, id: usize) -> (b: bool)
    ensures
        b == typed_var_ok(*m, d@.to_set(), id),
{
    if !var_ready(m, d, id) {
        return false;
    }
    match m.variables.get(&id) {
        Some(v) => match m.var_types.get(v) {
            Some(t) => int_or_bool_exec(*t),
            None => false,
        },
        None => false,
    }
}

/// The type analysis gave node `id`, if any.
fn type_at(m: &AnalysisResult, id: usize) -> (t: Option<Type>)
    ensures
        t == if m.types@.contains_key(id) { Some(m.types@[id]) } else { None::<Type> },
{
    match m.types.get(&id) {
        Some(t) => Some(*t),
        None => None,
    }
}

/// `expr_ok`, computed, with the declared variables in `d`.
fn expr_ready(e: &Expr, m: &AnalysisResult, d: &Vec<usize>) -> (b: bool)
    ensures
        b == expr_ok(*e, *m, d@.to_set()),
    decreases e,
{
    match &e.kind {
        ExprKind::Literal(_) => true,
        ExprKind::BinaryOp(o, l, r) => {
            if !expr_ready(l, m, d) || !expr_ready(r, m, d) {
                return false;
            }
            if matches!(o.node, BinOpKind::And) || matches!(o.node, BinOpKind::Or) {
                return true;
            }
            match type_at(m, l.id.0) {
                Some(t) => if matches!(o.node, BinOpKind::EqEq) || matches!(o.node, BinOpKind::BangEq) {
                    int_or_bool_exec(t)
                } else {
                    t == Type::Int
                },
                None => false,
            }
        },
        ExprKind::UnaryOp(o, r) => {
            if !expr_ready(r, m, d) {
                return false;
            }
            match type_at(m, r.id.0) {
                Some(t) => t == Type::Int && (matches!(o.node, UnaryOpKind::Negate) || var_ready(m, d, r.id.0)),
                None => false,
            }
        },
        ExprKind::VarAssign(t, v) => expr_ready(v, m, d) && matches!(t.kind, ExprKind::Variable(_))
            && typed_var_ready(m, d, t.id.0),
        ExprKind::Variable(_) => typed_var_ready(m, d, e.id.0),
        _ => false,
    }
}

/// `stmt_ok`, computed, with the declared variables in `d`; where it holds,
/// the variables that `s` declares are added to `d`.
fn stmt_ready(s: &Stmt, m: &AnalysisResult, d: &mut Vec<usize>, in_loop: bool) -> (b: bool)
    ensures
        b == stmt_ok(*s, *m, old(d)@.to_set(), in_loop),
        b ==> final(d)@.to_set() == old(d)@.to_set() + stmt_decls(*s, *m),
    decreases s,
{
    let ghost d0 = d@.to_set();
    proof {
        reveal(stmt_ok);
        reveal(stmts_ok);
        reveal(stmt_decls);
        reveal(stmts_decls);
    }
    match &s.kind {
        StmtKind::ExprStmt(e) => {
            let b = expr_ready(e, m, d);
            proof {
                assert(d@.to_set() =~= d0 + stmt_decls(*s, *m));
            }
            b
        },
        StmtKind::Print(e) => {
            let b = expr_ready(e, m, d) && match type_at(m, e.id.0) {
                Some(t) => int_or_bool_exec(t),
                None => false,
            };
            proof {
                assert(d@.to_set() =~= d0 + stmt_decls(*s, *m));
            }
            b
        },
        StmtKind::VarDecl(_, _, init) => {
            let v = match m.variables.get(&s.id.0) {
                Some(v) => *v,
                None => {
                    return false;
                },
            };
            if v >= 0xFF_FFFF {
                return false;
            }
            let typed = match m.var_types.get(&v) {
                Some(t) => int_or_bool_exec(*t),
                None => false,
            };
            if !typed {
                return false;
            }
            let init_ok = match init {
                Some(x) => expr_ready(x, m, d),
                None => true,
            };
            if !init_ok {
                return false;
            }
            let ghost before = d@;
            d.push(v);
            proof {
                before.lemma_push_to_set_commute(v);
                assert(d@.to_set() =~= d0 + stmt_decls(*s, *m));
            }
            true
        },
        StmtKind::Block(body) => {
            let ghost bs = body@;
            proof {
                assert(bs.take(0) =~= Seq::<Stmt>::empty());
                assert(d@.to_set() =~= d0 + stmts_decls(bs.take(0), *m));
            }
            let mut i: usize = 0;
            while i < body.len()
                invariant
                    0 <= i <= bs.len(),
                    bs == body@,
                    d0 == old(d)@.to_set(),
                    s.kind == StmtKind::Block(*body),
                    stmts_ok(bs.take(i as int), *m, d0, in_loop),
                    d@.to_set() == d0 + stmts_decls(bs.take(i as int), *m),
                decreases bs.len() - i,
            {
                let ghost pre = bs.take(i as int);
                let ghost next = bs.take(i + 1);
                proof {
                    reveal(stmt_ok);
                    reveal(stmts_ok);
                    reveal(stmt_decls);
                    reveal(stmts_decls);
                    assert(next.drop_last() =~= pre);
                    assert(next.last() == bs[i as int]);
                    assert(decreases_to!(*s => s.kind));
                    assert(decreases_to!(s.kind => s.kind->Block_0));
                    assert(decreases_to!(s.kind->Block_0 => s.kind->Block_0@));
                    assert(decreases_to!(s.kind->Block_0@ => s.kind->Block_0@[i as int]));
                }
                if !stmt_ready(&body[i], m, d, in_loop) {
                    proof {
                        if stmts_ok(bs, *m, d0, in_loop) {
                            crate::compiler::lemma_stmts_ok_prefix(bs, *m, d0, in_loop, i + 1);
                        }
                    }
                    return false;
                }
                proof {
                    assert(d@.to_set() =~= d0 + stmts_decls(next, *m));
                }
                i = i + 1;
            }
            proof {
                assert(bs.take(bs.len() as int) =~= bs);
            }
            true
        },
        StmtKind::If(c, b, e) => {
            if !expr_ready(c, m, d) {
                return false;
            }
            if !stmt_ready(b, m, d, in_loop) {
                return false;
            }
            let ghost d1 = d@.to_set();
            match e {
                Some(x) => {
                    let r = stmt_ready(x, m, d, in_loop);
                    proof {
                        if r {
                            assert(d@.to_set() =~= d0 + stmt_decls(*s, *m));
                        }
                    }
                    r
                },
                None => {
                    proof {
                        assert(d@.to_set() =~= d0 + stmt_decls(*s, *m));
                    }
                    true
                },
            }
        },
        StmtKind::While(c, b) => {
            if !expr_ready(c, m, d) {
                return false;
            }
            stmt_ready(b, m, d, true)
        },
        StmtKind::Break | StmtKind::Continue => {
            proof {
                assert(d@.to_set() =~= d0 + stmt_decls(*s, *m));
            }
            in_loop
        },
        _ => false,
    }
}

/// The size of a prefix of statements is at most that of all of them.
pub proof fn lemma_stmts_size_prefix(ss: Seq<Stmt>, n: int)
    requires
        0 <= n <= ss.len(),
    ensures
        stmts_size(ss.take(n)) <= stmts_size(ss),
        stmts_consts(ss.take(n)).len() <= stmts_consts(ss).len(),
    decreases ss.len(),
{
    reveal(stmt_consts);
    reveal(stmts_consts);
    if n < ss.len() {
        lemma_stmts_size_prefix(ss.drop_last(), n);
        assert(ss.drop_last().take(n) =~= ss.take(n));
    } else {
        assert(ss.take(n) =~= ss);
    }
}

/// The code size and the number of constants of `e`, or `None` where
/// either passes `limit`.
fn expr_sizes(e: &Expr, limit: u64) -> (r: Option<(u64, u64)>)
    requires
        limit <= i32::MAX,
    ensures
        match r {
            Some((c, n)) => c == expr_size(*e) && n == expr_consts(*e).len() && c <= limit && n <= limit,
            None => expr_size(*e) > limit || expr_consts(*e).len() > limit,
        },
    decreases e,
{
    let (c, n): (u64, u64) = match &e.kind {
        ExprKind::Literal(_) => (4, 1),
        ExprKind::BinaryOp(o, l, r) => {
            let (cl, nl) = match expr_sizes(l, limit) {
                Some(x) => x,
                None => {
                    return None;
                },
            };
            let (cr, nr) = match expr_sizes(r, limit) {
                Some(x) => x,
                None => {
                    return None;
                },
            };
            let extra: u64 = if matches!(o.node, BinOpKind::And) || matches!(o.node, BinOpKind::Or) { 7 } else { 1 };
            (cl + cr + extra, nl + nr)
        },
        ExprKind::UnaryOp(o, r) => {
            let (cr, nr) = match expr_sizes(r, limit) {
                Some(x) => x,
                None => {
                    return None;
                },
            };
            if matches!(o.node, UnaryOpKind::Negate) {
                (cr + 1, nr)
            } else {
                (cr + 10, nr + 1)
            }
        },
        ExprKind::VarAssign(_, v) => {
            let (cv, nv) = match expr_sizes(v, limit) {
                Some(x) => x,
                None => {
                    return None;
                },
            };
            (cv + 5, nv)
        },
        ExprKind::Variable(_) => (4, 0),
        _ => (0, 0),
    };
    if c <= limit && n <= limit {
        Some((c, n))
    } else {
        None
    }
}

/// The code size and the number of constants of `s`, or `None` where
/// either passes `limit`.
fn stmt_sizes(s: &Stmt, limit: u64) -> (r: Option<(u64, u64)>)
    requires
        limit <= i32::MAX,
    ensures
        match r {
            Some((c, n)) => c == stmt_size(*s) && n == stmt_consts(*s).len() && c <= limit && n <= limit,
            None => stmt_size(*s) > limit || stmt_consts(*s).len() > limit,
        },
    decreases s,
{
    proof {
        reveal(stmt_consts);
        reveal(stmts_consts);
    }
    let (c, n): (u64, u64) = match &s.kind {
        StmtKind::ExprStmt(e) => match expr_sizes(e, limit) {
            Some((c, n)) => (c + 1, n),
            None => {
                return None;
            },
        },
        StmtKind::Print(e) => match expr_sizes(e, limit) {
            Some((c, n)) => (c + 1, n),
            None => {
                return None;
            },
        },
        StmtKind::VarDecl(_, _, init) => match init {
            Some(x) => match expr_sizes(x, limit) {
                Some((c, n)) => (c + 4, n),
                None => {
                    return None;
                },
            },
            None => (8, 1),
        },
        StmtKind::Block(body) => {
            let ghost bs = body@;
            let mut c: u64 = 0;
            let mut n: u64 = 0;
            let mut i: usize = 0;
            proof {
                assert(bs.take(0) =~= Seq::<Stmt>::empty());
            }
            while i < body.len()
                invariant
                    0 <= i <= bs.len(),
                    bs == body@,
                    limit <= i32::MAX,
                    s.kind == StmtKind::Block(*body),
                    c == stmts_size(bs.take(i as int)),
                    n == stmts_consts(bs.take(i as int)).len(),
                    c <= limit,
                    n <= limit,
                decreases bs.len() - i,
            {
                let ghost pre = bs.take(i as int);
                let ghost next = bs.take(i + 1);
                proof {
                    reveal(stmt_consts);
                    reveal(stmts_consts);
                    assert(next.drop_last() =~= pre);
                    assert(next.last() == bs[i as int]);
                    assert(decreases_to!(*s => s.kind));
                    assert(decreases_to!(s.kind => s.kind->Block_0));
                    assert(decreases_to!(s.kind->Block_0 => s.kind->Block_0@));
                    assert(decreases_to!(s.kind->Block_0@ => s.kind->Block_0@[i as int]));
                }
                match stmt_sizes(&body[i], limit) {
                    Some((ci, ni)) => {
                        if c + ci > limit || n + ni > limit {
                            proof {
                                lemma_stmts_size_prefix(bs, i + 1);
                            }
                            return None;
                        }
                        c = c + ci;
                        n = n + ni;
                    },
                    None => {
                        proof {
                            lemma_stmts_size_prefix(bs, i + 1);
                        }
                        return None;
                    },
                }
                i = i + 1;
            }
            proof {
                assert(bs.take(bs.len() as int) =~= bs);
            }
            (c, n)
        },
        StmtKind::If(cond, b, e) => {
            let (cc, nc) = match expr_sizes(cond, limit) {
                Some(x) => x,
                None => {
                    return None;
                },
            };
            let (cb, nb) = match stmt_sizes(b, limit) {
                Some(x) => x,
                None => {
                    return None;
                },
            };
            match e {
                Some(x) => match stmt_sizes(x, limit) {
                    Some((ce, ne)) => (cc + 5 + cb + 5 + ce, nc + nb + ne),
                    None => {
                        return None;
                    },
                },
                None => (cc + 5 + cb, nc + nb),
            }
        },
        StmtKind::While(cond, b) => {
            let (cc, nc) = match expr_sizes(cond, limit) {
                Some(x) => x,
                None => {
                    return None;
                },
            };
            let (cb, nb) = match stmt_sizes(b, limit) {
                Some(x) => x,
                None => {
                    return None;
                },
            };
            (cc + cb + 10, nc + nb)
        },
        StmtKind::Break | StmtKind::Continue => (5, 0),
        _ => (0, 0),
    };
    if c <= limit && n <= limit {
        Some((c, n))
    } else {
        None
    }
}

/// The code of a whole program: that of its statements, then the load of
/// one more constant, `0`, and `Halt`.
pub open spec fn program_code(body: Seq<Stmt>, m: AnalysisResult) -> Seq<u8> {
    stmts_code(body, m, 0, 0, 0) + op(OpCode::LoadConst) + u24_bytes(stmts_consts(body).len() as int) + op(OpCode::Halt)
}

/// The constants of a whole program: those of its statements, then `0`.
pub open spec fn program_consts(body: Seq<Stmt>) -> Seq<Value> {
    stmts_consts(body).push(Value::Integer(0))
}

/// Code can be made for the statements `body` with metadata `m`: each
/// statement is of a kind code is made for, with what it needs known, and
/// the code and the pool fit their encodings.
pub open spec fn compilable(body: Seq<Stmt>, m: AnalysisResult) -> bool {
    &&& stmts_ok(body, m, Set::empty(), false)
    &&& stmts_consts(body).len() < 0xFF_FFFF
    &&& stmts_size(body) <= i32::MAX
}

/// `compilable`'s first part, computed.
fn body_ready(body: &Vec<Stmt>, m: &AnalysisResult) -> (b: bool)
    ensures
        b == stmts_ok(body@, *m, Set::empty(), false),
{
    let ghost bs = body@;
    let ghost d0 = Set::<usize>::empty();
    let mut d: Vec<usize> = Vec::new();
    proof {
        reveal(stmt_ok);
        reveal(stmts_ok);
        reveal(stmt_decls);
        reveal(stmts_decls);
        assert(bs.take(0) =~= Seq::<Stmt>::empty());
        assert(d@.to_set() =~= d0 + stmts_decls(bs.take(0), *m));
    }
    let mut i: usize = 0;
    while i < body.len()
        invariant
            0 <= i <= bs.len(),
            bs == body@,
            d0 == Set::<usize>::empty(),
            stmts_ok(bs.take(i as int), *m, d0, false),
            d@.to_set() == d0 + stmts_decls(bs.take(i as int), *m),
        decreases bs.len() - i,
    {
        let ghost pre = bs.take(i as int);
        let ghost next = bs.take(i + 1);
        proof {
            reveal(stmt_ok);
            reveal(stmts_ok);
            reveal(stmt_decls);
            reveal(stmts_decls);
            assert(next.drop_last() =~= pre);
            assert(next.last() == bs[i as int]);
        }
        if !stmt_ready(&body[i], m, &mut d, false) {
            proof {
                if stmts_ok(bs, *m, d0, false) {
                    lemma_stmts_ok_prefix(bs, *m, d0, false, i + 1);
                }
            }
            return false;
        }
        proof {
            assert(d@.to_set() =~= d0 + stmts_decls(next, *m));
        }
        i = i + 1;
    }
    proof {
        assert(bs.take(bs.len() as int) =~= bs);
    }
    true
}

/// The code size and the number of constants of `body`, or `None` where
/// either passes `limit`.
fn body_sizes(body: &Vec<Stmt>, limit: u64) -> (r: Option<(u64, u64)>)
    requires
        limit <= i32::MAX,
    ensures
        match r {
            Some((c, n)) => c == stmts_size(body@) && n == stmts_consts(body@).len() && c <= limit && n <= limit,
            None => stmts_size(body@) > limit || stmts_consts(body@).len() > limit,
        },
{
    let ghost bs = body@;
    let mut c: u64 = 0;
    let mut n: u64 = 0;
    let mut i: usize = 0;
    proof {
        reveal(stmt_consts);
        reveal(stmts_consts);
        assert(bs.take(0) =~= Seq::<Stmt>::empty());
    }
    while i < body.len()
        invariant
            0 <= i <= bs.len(),
            bs == body@,
            limit <= i32::MAX,
            c == stmts_size(bs.take(i as int)),
            n == stmts_consts(bs.take(i as int)).len(),
            c <= limit,
            n <= limit,
        decreases bs.len() - i,
    {
        let ghost pre = bs.take(i as int);
        let ghost next = bs.take(i + 1);
        proof {
            reveal(stmt_consts);
            reveal(stmts_consts);
            assert(next.drop_last() =~= pre);
            assert(next.last() == bs[i as int]);
        }
        match stmt_sizes(&body[i], limit) {
            Some((ci, ni)) => {
                if c + ci > limit || n + ni > limit {
                    proof {
                        lemma_stmts_size_prefix(bs, i + 1);
                    }
                    return None;
                }
                c = c + ci;
                n = n + ni;
            },
            None => {
                proof {
                    lemma_stmts_size_prefix(bs, i + 1);
                }
                return None;
            },
        }
        i = i + 1;
    }
    proof {
        assert(bs.take(bs.len() as int) =~= bs);
    }
    Some((c, n))
}

impl Compiler {
    /// The code of the statements of `program`, whose analysis gave
    /// `metadata`, followed by the load of a last constant `0` and `Halt`;
    /// `None` where code cannot be made for them (see `compilable`). The
    /// compiler must not have compiled anything yet.
    pub fn compile_program(&mut self, program: &Program, metadata: &AnalysisResult) -> (r: Option<Chunk>)
        requires
            old(self).inv(),
            old(self).declared() == Set::<usize>::empty(),
            old(self).loops().len() == 0,
        ensures
            r is Some <==> compilable(program.body@, *metadata),
            r matches Some(c) ==> c.bytecode@ == program_code(program.body@, *metadata)
                && c.constants@ == program_consts(program.body@),
            final(self).inv(),
            final(self).loops().len() == 0,
            final(self).declared() == if r is Some { stmts_decls(program.body@, *metadata) } else { Set::<usize>::empty() },
    {
        let body = &program.body;
        let ghost m = *metadata;
        let ghost bs = body@;
        if !body_ready(body, metadata) {
            return None;
        }
        let limit: u64 = 0x7FFF_FFFF;
        let (_size, count) = match body_sizes(body, limit) {
            Some(x) => x,
            None => {
                proof {
                    lemma_stmts_size_prefix(bs, bs.len() as int);
                    assert(bs.take(bs.len() as int) =~= bs);
                }
                return None;
            },
        };
        if count >= 0xFF_FFFF {
            return None;
        }
        proof {
            lemma_stmts_code_len(bs, m, 0, 0, 0);
        }
        let mut chunk = Chunk::new();
        let ghost loops0 = self.loops();
        let ghost d0 = self.declared();
        proof {
            reveal(stmt_decls);
            reveal(stmts_decls);
            reveal(stmt_breaks);
            reveal(stmts_breaks);
            reveal(stmt_code);
            reveal(stmts_code);
            reveal(stmt_consts);
            reveal(stmts_consts);
            assert(bs.take(0) =~= Seq::<Stmt>::empty());
            assert(d0 + Set::<usize>::empty() =~= d0);
            assert(chunk.bytecode@ =~= Seq::<u8>::empty() + stmts_code(bs.take(0), m, 0, 0, 0));
            assert(chunk.constants@ =~= Seq::<Value>::empty() + stmts_consts(bs.take(0)));
        }
        let mut i: usize = 0;
        while i < body.len()
            invariant
                0 <= i <= bs.len(),
                bs == body@,
                m == *metadata,
                self.inv(),
                stmts_ok(bs, m, d0, false),
                d0 == Set::<usize>::empty(),
                loops0.len() == 0,
                self.loops().len() == 0,
                stmts_consts(bs).len() < 0xFF_FFFF,
                stmts_code(bs, m, 0, 0, 0).len() <= i32::MAX,
                self.declared() == d0 + stmts_decls(bs.take(i as int), m),
                loops_after(loops0, self.loops(), stmts_breaks(bs.take(i as int), m, 0, 0, 0)),
                chunk.bytecode@ == Seq::<u8>::empty() + stmts_code(bs.take(i as int), m, 0, 0, 0),
                chunk.constants@ == Seq::<Value>::empty() + stmts_consts(bs.take(i as int)),
            decreases bs.len() - i,
        {
            let ghost pre = bs.take(i as int);
            let ghost next = bs.take(i + 1);
            let ghost ki = stmts_consts(pre).len() as int;
            let ghost pi = stmts_code(pre, m, 0, 0, 0).len() as int;
            proof {
                lemma_block_step(bs, i as int, m, 0, 0, 0, d0, false);
                assert(chunk.constants@.len() == ki);
                assert(chunk.bytecode@.len() == pi);
            }
            let ghost s1 = *self;
            self.compile_stmt(&body[i], &mut chunk, metadata);
            proof {
                lemma_loops_after_trans(loops0, s1.loops(), self.loops(), stmts_breaks(pre, m, 0, 0, 0),
                    stmt_breaks(bs[i as int], m, ki, pi, 0));
                assert(self.declared() =~= d0 + stmts_decls(next, m));
                assert(chunk.bytecode@ =~= Seq::<u8>::empty() + stmts_code(next, m, 0, 0, 0));
                assert(chunk.constants@ =~= Seq::<Value>::empty() + stmts_consts(next));
            }
            i = i + 1;
        }
        proof {
            assert(bs.take(bs.len() as int) =~= bs);
            assert(self.declared() =~= stmts_decls(bs, m));
        }
        let ghost code1 = chunk.bytecode@;
        chunk.write(OpCode::LoadConst.to_byte());
        let idx = chunk.write_constant(Value::new_int(0));
        chunk.write_u24(idx as u32);
        chunk.write(OpCode::Halt.to_byte());
        proof {
            assert(chunk.bytecode@ =~= program_code(bs, m));
            assert(chunk.constants@ =~= program_consts(bs));
        }
        Some(chunk)
    }
}

/// The analysis of `body` that `SemanticAnalyzer::analyze` states: the
/// variable each name refers to, the type of each variable, the type of
/// each expression node and the conversions applied.
pub open spec fn analysed(body: Seq<Stmt>, m: AnalysisResult) -> bool {
    let (vars, _n) = resolution_of(body);
    &&& m.variables@ == vars
    &&& m.var_types@ == stmts_vt(body, vars, Map::empty())
    &&& m.types@ == stmts_tm(body, vars, Map::empty(), Map::empty())
    &&& m.conversions@ == stmts_cv(body, vars, Map::empty(), Map::empty())
}

/// Names resolve and types check in `body` without a report, and checking
/// can run over all of it.
pub open spec fn analysis_ok(body: Seq<Stmt>) -> bool {
    let (vars, n) = resolution_of(body);
    &&& n.len() == 0
    &&& stmts_checkable(body, vars, Map::empty())
    &&& stmts_diags(body, vars, Map::empty()).len() == 0
}

/// The counts of declarations and of nested loops in `body` fit a `usize`.
pub open spec fn counts_fit(body: Seq<Stmt>) -> bool {
    decls_count(body) <= usize::MAX && loops_nesting(body) <= usize::MAX
}

/// What `compile` gives for the parsed program `body`, whose parsing gave
/// the reports `parsed`: code where it parsed without error, analysed
/// without report and is `compilable`; else `Err`. Where parsing reported,
/// the error holds the parser's reports, in order; else it holds the
/// reports of analysis, none where analysis did not run.
pub open spec fn compile_outcome(body: Seq<Stmt>, parsed: Seq<Report>, r: Result<Chunk, Vec<Diagnostic>>) -> bool {
    match r {
        Ok(c) => {
            &&& !stmts_have_error(body)
            &&& counts_fit(body)
            &&& analysis_ok(body)
            &&& exists|m: AnalysisResult| #[trigger] analysed(body, m) && compilable(body, m)
                && c.bytecode@ == program_code(body, m) && c.constants@ == program_consts(body)
        },
        Err(d) => {
            &&& stmts_have_error(body) || !counts_fit(body) || !analysis_ok(body)
                || exists|m: AnalysisResult| #[trigger] analysed(body, m) && !compilable(body, m)
            &&& stmts_have_error(body) ==> parsed.len() > 0 && reports_of(d@) == parsed
            &&& !stmts_have_error(body) ==> reports_of(d@) == if counts_fit(body) { analysis_reports(body) } else { seq![] }
        },
    }
}

impl Compiler {
    /// Compiles `source`: lexes and parses it, and when that reports nothing,
    /// analyses it, and when that succeeds, makes the code of the program
    /// with `compile_program`. The program is the one the grammar reads from
    /// the tokens the lexer makes of `source` (`parsed_from`), and the
    /// outcome is as `compile_outcome` describes. `Err` carries the
    /// diagnostics of the stage that reported; it carries none where code
    /// cannot be made for an analysed program (see `compilable`) or analysis
    /// could not run over it. The listing that `options` may ask for is the
    /// caller's to print.
    pub fn compile(&mut self, source: &[u8], _options: Options) -> (r: Result<Chunk, Vec<Diagnostic>>)
        requires
            old(self).inv(),
            old(self).declared() == Set::<usize>::empty(),
            old(self).loops().len() == 0,
            literals_fit(source@),
        ensures
            exists|p: Program, n: nat| #[trigger] parsed_from(source@, n, stmts_view(p.body@))
                && compile_outcome(p.body@, parse_reports(source@, n), r),
    {
        let mut diagnostics: Vec<Diagnostic> = Vec::new();
        let lexer = Lexer::new(source);
        let ghost lx = lexer;
        let mut parser = Parser::new(lexer, &mut diagnostics, source);
        let program = parser.parse();
        let ghost n = parser.tokens().len();
        proof {
            parser.lemma_tokens_read();
            let ts = lexed(source@, n);
            assert forall|i: int| 0 <= i < n implies ts[i] == parser.tokens()[i] by {
                assert(parser.tokens()[i] == lx.ahead(i as nat));
            }
            lemma_continues_intro(ts, parser.tokens());
            assert(reports_of(Seq::<Diagnostic>::empty()) =~= Seq::<Report>::empty());
            assert(program_rest(ts, source@, 0, 0, seq![], seq![])
                == (stmts_view(program.body@), parser.pos(), parser.next_id(), reports_of(parser.diags())));
            assert(parsed_from(source@, n, stmts_view(program.body@)));
        }
        let ghost pr = parse_reports(source@, n);
        let parsed = parser.take_diagnostics();
        assert(reports_of(parsed@) == pr);
        if parsed.len() != 0 {
            proof {
                assert(compile_outcome(program.body@, pr, Err::<Chunk, Vec<Diagnostic>>(parsed)));
            }
            return Err(parsed);
        }
        let decls_fit = decls_count_of(&program.body).is_some();
        let nesting_fits = loops_nesting_of(&program.body).is_some();
        if !decls_fit || !nesting_fits {
            proof {
                assert(reports_of(parsed@) =~= Seq::<Report>::empty());
                assert(compile_outcome(program.body@, pr, Err::<Chunk, Vec<Diagnostic>>(parsed)));
            }
            return Err(parsed);
        }
        let mut reports: Vec<Diagnostic> = Vec::new();
        let mut analyzer = SemanticAnalyzer::new(&mut reports);
        let metadata = analyzer.analyze(&program);
        let found = analyzer.take_diagnostics();
        proof {
            assert(reports_of(Seq::<Diagnostic>::empty()) =~= Seq::<Report>::empty());
            assert(Seq::<Report>::empty() + analysis_reports(program.body@) =~= analysis_reports(program.body@));
        }
        let metadata = match metadata {
            Ok(m) => m,
            Err(()) => {
                proof {
                    assert(compile_outcome(program.body@, pr, Err::<Chunk, Vec<Diagnostic>>(found)));
                }
                return Err(found);
            },
        };
        match self.compile_program(&program, &metadata) {
            Some(chunk) => {
                proof {
                    assert(compilable(program.body@, metadata));
                    assert(analysed(program.body@, metadata));
                    assert(compile_outcome(program.body@, pr, Ok::<Chunk, Vec<Diagnostic>>(chunk)));
                }
                Ok(chunk)
            },
            None => {
                proof {
                    assert(analysed(program.body@, metadata));
                    assert(compile_outcome(program.body@, pr, Err::<Chunk, Vec<Diagnostic>>(found)));
                }
                Err(found)
            },
        }
    }
}

} // verus!
