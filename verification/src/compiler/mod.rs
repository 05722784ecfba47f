//! The code generator: from a checked syntax tree to a chunk of bytecode.
//!
//! The code of an expression or a statement is stated exactly by spec
//! functions below. Jump offsets are relative, so code does not depend on
//! where it lands, save for `continue`, whose jump counts back to the start
//! of its loop, and `break`, whose offset the loop fills in at its end.
use crate::analysis::types::Type;
use crate::analysis::AnalysisResult;
use crate::parse::ast::{BinOpKind, Expr, ExprKind, LitKind, Stmt, StmtKind, UnaryOpKind};
use crate::runtime::chunk::{i32_bytes, u24_bytes, Chunk};
use crate::runtime::opcodes::{opcode_byte, OpCode};
use crate::runtime::value::Value;
use std::collections::HashMap;
use vstd::prelude::*;

pub mod program;

verus! {

broadcast use vstd::std_specs::hash::group_hash_axioms;

/// The local slot that holds a variable.
#[derive(Debug, Clone, Copy)]
pub struct LocalSlot(pub usize);

impl LocalSlot {
    /// The slot's index as a `u32`; `None` when it does not fit.
    pub fn to_u32(self) -> (r: Option<u32>)
        ensures
            self.0 <= u32::MAX ==> r == Some(self.0 as u32),
            self.0 > u32::MAX ==> r is None,
    {
        if self.0 <= 0xFFFF_FFFF { Some(self.0 as u32) } else { None }
    }
}

/// The loop being compiled: where `continue` goes, and the `break` jumps
/// to patch at its end.
#[derive(Debug, Clone)]
pub struct LoopContext {
    pub continue_target: usize,
    pub break_jumps: Vec<usize>,
}

/// A value of type `Int` or `Bool`, the types that code is made for.
pub open spec fn int_or_bool(t: Type) -> bool {
    t == Type::Int || t == Type::Bool
}

/// The instruction that loads a local of type `t`.
pub open spec fn load_op(t: Type) -> OpCode {
    if t == Type::Int { OpCode::I32LoadLocal } else { OpCode::BLoadLocal }
}

/// The instruction that stores a local of type `t`.
pub open spec fn store_op(t: Type) -> OpCode {
    if t == Type::Int { OpCode::I32StoreLocal } else { OpCode::BStoreLocal }
}

/// The instruction for binary operator `op` on operands of type `t`.
pub open spec fn binop_op(op: BinOpKind, t: Type) -> OpCode {
    match op {
        BinOpKind::Add => OpCode::I32Add,
        BinOpKind::Sub => OpCode::I32Sub,
        BinOpKind::Mul => OpCode::I32Mul,
        BinOpKind::Div => OpCode::I32Div,
        BinOpKind::BangEq => if t == Type::Int { OpCode::I32NEqual } else { OpCode::BNEqual },
        BinOpKind::EqEq => if t == Type::Int { OpCode::I32Equal } else { OpCode::BEqual },
        BinOpKind::GreaterEq => OpCode::I32GreaterEq,
        BinOpKind::GreaterThan => OpCode::I32Greater,
        BinOpKind::LessEq => OpCode::I32LessEq,
        BinOpKind::LessThan => OpCode::I32Less,
        BinOpKind::And => OpCode::JmpFalse,
        BinOpKind::Or => OpCode::JmpTrue,
    }
}

/// One byte: the opcode `op`.
pub open spec fn op(o: OpCode) -> Seq<u8> {
    seq![opcode_byte(o)]
}

/// The variable that node `id` refers to.
pub open spec fn var_of(m: AnalysisResult, id: NodeIdSpec) -> usize {
    m.variables@[id]
}

/// A node id as the analysis maps use it.
pub type NodeIdSpec = usize;

/// Node `id` refers to a variable that analysis typed `Int` or `Bool`,
/// whose slot is declared in `d` and can be encoded.
pub open spec fn var_ok(m: AnalysisResult, d: Set<usize>, id: usize) -> bool {
    &&& m.variables@.contains_key(id)
    &&& d.contains(m.variables@[id])
    &&& m.variables@[id] < 0xFF_FFFF
}

/// A typed variable: `var_ok` and its type is `Int` or `Bool`.
pub open spec fn typed_var_ok(m: AnalysisResult, d: Set<usize>, id: usize) -> bool {
    &&& var_ok(m, d, id)
    &&& m.var_types@.contains_key(m.variables@[id])
    &&& int_or_bool(m.var_types@[m.variables@[id]])
}

/// The type of the variable node `id` refers to.
pub open spec fn var_type(m: AnalysisResult, id: usize) -> Type {
    m.var_types@[m.variables@[id]]
}

/// `e` can be compiled with metadata `m` once the variables in `d` have
/// slots: every type and variable it needs is known and of a kind that code
/// is made for.
pub open spec fn expr_ok(e: Expr, m: AnalysisResult, d: Set<usize>) -> bool
    decreases e,
{
    match e.kind {
        ExprKind::Literal(_) => true,
        ExprKind::BinaryOp(o, l, r) => expr_ok(*l, m, d) && expr_ok(*r, m, d) && (
            o.node is And || o.node is Or || (m.types@.contains_key(l.id.0) && if o.node is EqEq || o.node is BangEq {
                int_or_bool(m.types@[l.id.0])
            } else {
                m.types@[l.id.0] == Type::Int
            })),
        ExprKind::UnaryOp(o, r) => expr_ok(*r, m, d) && m.types@.contains_key(r.id.0)
            && m.types@[r.id.0] == Type::Int && (o.node is Negate || var_ok(m, d, r.id.0)),
        ExprKind::VarAssign(t, v) => expr_ok(*v, m, d) && t.kind is Variable && typed_var_ok(m, d, t.id.0),
        ExprKind::Variable(_) => typed_var_ok(m, d, e.id.0),
        _ => false,
    }
}

/// The constants that the code of `e` adds to the pool, in order.
pub open spec fn expr_consts(e: Expr) -> Seq<Value>
    decreases e,
{
    match e.kind {
        ExprKind::Literal(LitKind::Int(i)) => seq![Value::Integer(i as i32)],
        ExprKind::Literal(LitKind::Bool(b)) => seq![Value::Boolean(b)],
        ExprKind::BinaryOp(_, l, r) => expr_consts(*l) + expr_consts(*r),
        ExprKind::UnaryOp(o, r) => expr_consts(*r) + if o.node is Negate { seq![] } else { seq![Value::Integer(1)] },
        ExprKind::VarAssign(_, v) => expr_consts(*v),
        _ => seq![],
    }
}

/// The code of `e` when the pool already holds `k` constants.
pub open spec fn expr_code(e: Expr, m: AnalysisResult, k: int) -> Seq<u8>
    decreases e,
{
    match e.kind {
        ExprKind::Literal(_) => op(OpCode::LoadConst) + u24_bytes(k),
        ExprKind::BinaryOp(o, l, r) => {
            let lc = expr_code(*l, m, k);
            let rc = expr_code(*r, m, k + expr_consts(*l).len());
            if o.node is And || o.node is Or {
                lc + op(OpCode::Dup) + op(binop_op(o.node, Type::Bool)) + i32_bytes(1 + rc.len() as int) + op(OpCode::Pop) + rc
            } else {
                lc + rc + op(binop_op(o.node, m.types@[l.id.0]))
            }
        },
        ExprKind::UnaryOp(o, r) => {
            let rc = expr_code(*r, m, k);
            let one = u24_bytes(k + expr_consts(*r).len());
            let slot = u24_bytes(m.variables@[r.id.0] as int);
            match o.node {
                UnaryOpKind::Negate => rc + op(OpCode::I32Negate),
                UnaryOpKind::PostDecrement => rc + op(OpCode::Dup) + op(OpCode::LoadConst) + one + op(OpCode::I32Sub)
                    + op(OpCode::I32StoreLocal) + slot,
                UnaryOpKind::PostIncrement => rc + op(OpCode::Dup) + op(OpCode::LoadConst) + one + op(OpCode::I32Add)
                    + op(OpCode::I32StoreLocal) + slot,
                UnaryOpKind::PreDecrement => rc + op(OpCode::LoadConst) + one + op(OpCode::I32Sub) + op(OpCode::Dup)
                    + op(OpCode::I32StoreLocal) + slot,
                UnaryOpKind::PreIncrement => rc + op(OpCode::LoadConst) + one + op(OpCode::I32Add) + op(OpCode::Dup)
                    + op(OpCode::I32StoreLocal) + slot,
            }
        },
        ExprKind::VarAssign(t, v) => expr_code(*v, m, k) + op(OpCode::Dup) + op(store_op(var_type(m, t.id.0)))
            + u24_bytes(m.variables@[t.id.0] as int),
        ExprKind::Variable(_) => op(load_op(var_type(m, e.id.0))) + u24_bytes(m.variables@[e.id.0] as int),
        _ => seq![],
    }
}

/// `s` can be compiled with metadata `m` once the variables in `d` have
/// slots; `in_loop` tells whether a loop encloses it. Declarations add
/// their variable for the statements after them.
#[verifier::opaque]
pub open spec fn stmt_ok(s: Stmt, m: AnalysisResult, d: Set<usize>, in_loop: bool) -> bool
    decreases s,
{
    match s.kind {
        StmtKind::ExprStmt(e) => expr_ok(*e, m, d),
        StmtKind::Print(e) => expr_ok(*e, m, d) && m.types@.contains_key(e.id.0) && int_or_bool(m.types@[e.id.0]),
        StmtKind::VarDecl(_, _, init) => {
            &&& m.variables@.contains_key(s.id.0)
            &&& m.variables@[s.id.0] < 0xFF_FFFF
            &&& m.var_types@.contains_key(m.variables@[s.id.0])
            &&& int_or_bool(m.var_types@[m.variables@[s.id.0]])
            &&& (init matches Some(x) ==> expr_ok(x, m, d))
        },
        StmtKind::Block(body) => stmts_ok(body@, m, d, in_loop),
        StmtKind::If(c, b, e) => expr_ok(*c, m, d) && stmt_ok(*b, m, d, in_loop) && (match e {
            Some(x) => stmt_ok(*x, m, d + stmt_decls(*b, m), in_loop),
            None => true,
        }),
        StmtKind::While(c, b) => expr_ok(*c, m, d) && stmt_ok(*b, m, d, true),
        StmtKind::Break => in_loop,
        StmtKind::Continue => in_loop,
        _ => false,
    }
}

#[verifier::opaque]
pub open spec fn stmts_ok(ss: Seq<Stmt>, m: AnalysisResult, d: Set<usize>, in_loop: bool) -> bool
    decreases ss,
{
    if ss.len() == 0 {
        true
    } else {
        stmts_ok(ss.drop_last(), m, d, in_loop) && stmt_ok(ss.last(), m, d + stmts_decls(ss.drop_last(), m), in_loop)
    }
}

/// The variables that `s` declares, at any depth.
#[verifier::opaque]
pub open spec fn stmt_decls(s: Stmt, m: AnalysisResult) -> Set<usize>
    decreases s,
{
    match s.kind {
        StmtKind::VarDecl(..) => set![m.variables@[s.id.0]],
        StmtKind::Block(body) => stmts_decls(body@, m),
        StmtKind::If(_, b, e) => stmt_decls(*b, m) + match e {
            Some(x) => stmt_decls(*x, m),
            None => Set::empty(),
        },
        StmtKind::While(_, b) => stmt_decls(*b, m),
        _ => Set::empty(),
    }
}

#[verifier::opaque]
pub open spec fn stmts_decls(ss: Seq<Stmt>, m: AnalysisResult) -> Set<usize>
    decreases ss,
{
    if ss.len() == 0 {
        Set::empty()
    } else {
        stmts_decls(ss.drop_last(), m) + stmt_decls(ss.last(), m)
    }
}

/// The constants that the code of `s` adds to the pool, in order.
#[verifier::opaque]
pub open spec fn stmt_consts(s: Stmt) -> Seq<Value>
    decreases s,
{
    match s.kind {
        StmtKind::ExprStmt(e) => expr_consts(*e),
        StmtKind::Print(e) => expr_consts(*e),
        StmtKind::VarDecl(_, _, init) => match init {
            Some(x) => expr_consts(x),
            None => seq![Value::Uninitialized],
        },
        StmtKind::Block(body) => stmts_consts(body@),
        StmtKind::If(c, b, e) => expr_consts(*c) + stmt_consts(*b) + match e {
            Some(x) => stmt_consts(*x),
            None => seq![],
        },
        StmtKind::While(c, b) => expr_consts(*c) + stmt_consts(*b),
        _ => seq![],
    }
}

#[verifier::opaque]
pub open spec fn stmts_consts(ss: Seq<Stmt>) -> Seq<Value>
    decreases ss,
{
    if ss.len() == 0 {
        seq![]
    } else {
        stmts_consts(ss.drop_last()) + stmt_consts(ss.last())
    }
}

/// `seg`, which starts at offset `base` of the code, with the jump at each
/// offset of `js` set to land on `target`.
pub open spec fn patched(seg: Seq<u8>, base: int, js: Seq<int>, target: int) -> Seq<u8>
    decreases js.len(),
{
    if js.len() == 0 {
        seg
    } else {
        let s2 = patched(seg, base, js.drop_last(), target);
        let q = js.last() - base;
        s2.subrange(0, q + 1) + i32_bytes(target - (js.last() + 5)) + s2.subrange(q + 5, s2.len() as int)
    }
}

/// The code of `s` when the pool holds `k` constants, the code starts at
/// offset `p`, and `continue` goes to `ct`. A `break` is a jump whose
/// offset its loop fills in; `stmt_breaks` gives where those jumps are.
#[verifier::opaque]
pub open spec fn stmt_code(s: Stmt, m: AnalysisResult, k: int, p: int, ct: int) -> Seq<u8>
    decreases s,
{
    match s.kind {
        StmtKind::ExprStmt(e) => expr_code(*e, m, k) + op(OpCode::Pop),
        StmtKind::Print(e) => expr_code(*e, m, k) + op(if m.types@[e.id.0] == Type::Int { OpCode::I32Print } else { OpCode::BPrint }),
        StmtKind::VarDecl(_, _, init) => {
            let v = m.variables@[s.id.0];
            let store = op(store_op(m.var_types@[v])) + u24_bytes(v as int);
            match init {
                Some(x) => expr_code(x, m, k) + store,
                None => op(OpCode::LoadConst) + u24_bytes(k) + store,
            }
        },
        StmtKind::Block(body) => stmts_code(body@, m, k, p, ct),
        StmtKind::If(c, b, e) => {
            let cc = expr_code(*c, m, k);
            let kb = k + expr_consts(*c).len();
            let bc = stmt_code(*b, m, kb, p + cc.len() + 5, ct);
            match e {
                None => cc + op(OpCode::JmpFalse) + i32_bytes(bc.len() as int) + bc,
                Some(x) => {
                    let ec = stmt_code(*x, m, kb + stmt_consts(*b).len(), p + cc.len() + 5 + bc.len() + 5, ct);
                    cc + op(OpCode::JmpFalse) + i32_bytes(bc.len() + 5int) + bc + op(OpCode::Jmp) + i32_bytes(ec.len() as int) + ec
                },
            }
        },
        StmtKind::While(c, b) => {
            let cc = expr_code(*c, m, k);
            let kb = k + expr_consts(*c).len();
            let bpos = p + cc.len() + 5;
            let braw = stmt_code(*b, m, kb, bpos, p);
            let jpos = bpos + braw.len();
            let body = patched(braw, bpos, stmt_breaks(*b, m, kb, bpos, p), jpos + 5);
            cc + op(OpCode::JmpFalse) + i32_bytes(braw.len() + 5int) + body + op(OpCode::Jmp) + i32_bytes(p - (jpos + 5))
        },
        StmtKind::Break => op(OpCode::Jmp) + seq![0u8, 0u8, 0u8, 0u8],
        StmtKind::Continue => op(OpCode::Jmp) + i32_bytes(ct - (p + 5)),
        _ => seq![],
    }
}

#[verifier::opaque]
pub open spec fn stmts_code(ss: Seq<Stmt>, m: AnalysisResult, k: int, p: int, ct: int) -> Seq<u8>
    decreases ss,
{
    if ss.len() == 0 {
        seq![]
    } else {
        let pre = stmts_code(ss.drop_last(), m, k, p, ct);
        pre + stmt_code(ss.last(), m, k + stmts_consts(ss.drop_last()).len(), p + pre.len(), ct)
    }
}

/// The offsets of the `break` jumps in the code of `s` that belong to the
/// enclosing loop.
#[verifier::opaque]
pub open spec fn stmt_breaks(s: Stmt, m: AnalysisResult, k: int, p: int, ct: int) -> Seq<int>
    decreases s,
{
    match s.kind {
        StmtKind::Block(body) => stmts_breaks(body@, m, k, p, ct),
        StmtKind::If(c, b, e) => {
            let cc = expr_code(*c, m, k);
            let kb = k + expr_consts(*c).len();
            let bp = p + cc.len() + 5;
            let bc = stmt_code(*b, m, kb, bp, ct);
            stmt_breaks(*b, m, kb, bp, ct) + match e {
                Some(x) => stmt_breaks(*x, m, kb + stmt_consts(*b).len(), bp + bc.len() + 5, ct),
                None => seq![],
            }
        },
        StmtKind::Break => seq![p],
        _ => seq![],
    }
}

#[verifier::opaque]
pub open spec fn stmts_breaks(ss: Seq<Stmt>, m: AnalysisResult, k: int, p: int, ct: int) -> Seq<int>
    decreases ss,
{
    if ss.len() == 0 {
        seq![]
    } else {
        let pre = stmts_code(ss.drop_last(), m, k, p, ct);
        stmts_breaks(ss.drop_last(), m, k, p, ct)
            + stmt_breaks(ss.last(), m, k + stmts_consts(ss.drop_last()).len(), p + pre.len(), ct)
    }
}

/// Every offset in `js` has a whole jump inside the code `[lo, hi)`.
pub open spec fn jumps_within(js: Seq<int>, lo: int, hi: int) -> bool {
    forall|i: int| 0 <= i < js.len() ==> lo <= #[trigger] js[i] && js[i] + 5 <= hi
}

/// Patching jumps inside a segment keeps its length.
pub proof fn lemma_patched_len(seg: Seq<u8>, base: int, js: Seq<int>, target: int)
    requires
        jumps_within(js, base, base + seg.len()),
    ensures
        patched(seg, base, js, target).len() == seg.len(),
    decreases js.len(),
{
    if js.len() > 0 {
        lemma_patched_len(seg, base, js.drop_last(), target);
        assert(js.last() == js[js.len() - 1]);
    }
}

/// The `break` jumps of a statement lie inside its code.
pub proof fn lemma_breaks_within(s: Stmt, m: AnalysisResult, k: int, p: int, ct: int)
    ensures
        jumps_within(stmt_breaks(s, m, k, p, ct), p, p + stmt_code(s, m, k, p, ct).len()),
    decreases s,
{
    reveal(stmt_ok); reveal(stmts_ok); reveal(stmt_decls); reveal(stmts_decls); reveal(stmt_consts); reveal(stmts_consts); reveal(stmt_code); reveal(stmts_code); reveal(stmt_breaks); reveal(stmts_breaks);
    match s.kind {
        StmtKind::Block(body) => {
            lemma_stmts_breaks_within(body@, m, k, p, ct);
        },
        StmtKind::If(c, b, e) => {
            let cc = expr_code(*c, m, k);
            let kb = k + expr_consts(*c).len();
            let bp = p + cc.len() + 5;
            let bc = stmt_code(*b, m, kb, bp, ct);
            lemma_breaks_within(*b, m, kb, bp, ct);
            match e {
                Some(x) => {
                    let ep = bp + bc.len() + 5;
                    lemma_breaks_within(*x, m, kb + stmt_consts(*b).len(), ep, ct);
                    let bb = stmt_breaks(*b, m, kb, bp, ct);
                    let eb = stmt_breaks(*x, m, kb + stmt_consts(*b).len(), ep, ct);
                    assert forall|i: int| 0 <= i < (bb + eb).len() implies p <= #[trigger] (bb + eb)[i]
                        && (bb + eb)[i] + 5 <= p + stmt_code(s, m, k, p, ct).len() by {
                        if i < bb.len() {
                            assert((bb + eb)[i] == bb[i]);
                        } else {
                            assert((bb + eb)[i] == eb[i - bb.len()]);
                        }
                    }
                },
                None => {
                    let bb = stmt_breaks(*b, m, kb, bp, ct);
                    assert(bb + Seq::<int>::empty() =~= bb);
                },
            }
        },
        _ => {},
    }
}

pub proof fn lemma_stmts_breaks_within(ss: Seq<Stmt>, m: AnalysisResult, k: int, p: int, ct: int)
    ensures
        jumps_within(stmts_breaks(ss, m, k, p, ct), p, p + stmts_code(ss, m, k, p, ct).len()),
    decreases ss,
{
    reveal(stmt_ok); reveal(stmts_ok); reveal(stmt_decls); reveal(stmts_decls); reveal(stmt_consts); reveal(stmts_consts); reveal(stmt_code); reveal(stmts_code); reveal(stmt_breaks); reveal(stmts_breaks);
    if ss.len() > 0 {
        let pre = stmts_code(ss.drop_last(), m, k, p, ct);
        let k2 = k + stmts_consts(ss.drop_last()).len();
        lemma_stmts_breaks_within(ss.drop_last(), m, k, p, ct);
        lemma_breaks_within(ss.last(), m, k2, p + pre.len(), ct);
        let a = stmts_breaks(ss.drop_last(), m, k, p, ct);
        let b = stmt_breaks(ss.last(), m, k2, p + pre.len(), ct);
        assert forall|i: int| 0 <= i < (a + b).len() implies p <= #[trigger] (a + b)[i]
            && (a + b)[i] + 5 <= p + stmts_code(ss, m, k, p, ct).len() by {
            if i < a.len() {
                assert((a + b)[i] == a[i]);
            } else {
                assert((a + b)[i] == b[i - a.len()]);
            }
        }
    }
}

/// Patching a jump at `j` of the whole code is patching it in the segment
/// that holds it.
pub proof fn lemma_patch_in_segment(a: Seq<u8>, seg: Seq<u8>, b: Seq<u8>, j: int, bytes: Seq<u8>)
    requires
        a.len() <= j,
        j + 5 <= a.len() + seg.len(),
        bytes.len() == 4,
    ensures
        ({
            let w = a + seg + b;
            let q = j - a.len();
            w.subrange(0, j + 1) + bytes + w.subrange(j + 5, w.len() as int)
                == a + (seg.subrange(0, q + 1) + bytes + seg.subrange(q + 5, seg.len() as int)) + b
        }),
{
    let w = a + seg + b;
    let q = j - a.len();
    assert(w.subrange(0, j + 1) + bytes + w.subrange(j + 5, w.len() as int)
        =~= a + (seg.subrange(0, q + 1) + bytes + seg.subrange(q + 5, seg.len() as int)) + b);
}

/// Compiles a checked syntax tree into bytecode.
pub struct Compiler {
    locals: HashMap<usize, LocalSlot>,
    loop_stack: Vec<LoopContext>,
}

impl Compiler {
    /// The variables that have slots.
    pub closed spec fn declared(&self) -> Set<usize> {
        self.locals@.dom()
    }

    /// The loops being compiled, innermost last.
    pub closed spec fn loops(&self) -> Seq<LoopContext> {
        self.loop_stack@
    }

    /// Each variable's slot is its own id.
    pub closed spec fn inv(&self) -> bool {
        forall|v: usize| #[trigger] self.locals@.contains_key(v) ==> self.locals@[v].0 == v
    }

    /// A compiler with no slots and no loop.
    pub fn new() -> (c: Self)
        ensures
            c.inv(),
            c.declared() == Set::<usize>::empty(),
            c.loops() == Seq::<LoopContext>::empty(),
    {
        let c = Compiler { locals: HashMap::new(), loop_stack: Vec::new() };
        assert(c.declared() =~= Set::<usize>::empty());
        c
    }

    /// The slot of variable `v`, which has one.
    fn slot_of(&self, v: usize) -> (s: u32)
        requires
            self.inv(),
            self.declared().contains(v),
            v < 0xFF_FFFF,
        ensures
            s == v,
    {
        match self.locals.get(&v) {
            Some(slot) => slot.0 as u32,
            None => {
                proof { assert(false); }
                0
            },
        }
    }

    /// The type analysis gave node `id`, which it typed.
    fn type_of(m: &AnalysisResult, id: usize) -> (t: Type)
        requires
            m.types@.contains_key(id),
        ensures
            t == m.types@[id],
    {
        match m.types.get(&id) {
            Some(t) => *t,
            None => {
                proof { assert(false); }
                Type::Error
            },
        }
    }

    /// The variable node `id` refers to, which analysis resolved.
    fn variable_of(m: &AnalysisResult, id: usize) -> (v: usize)
        requires
            m.variables@.contains_key(id),
        ensures
            v == m.variables@[id],
    {
        match m.variables.get(&id) {
            Some(v) => *v,
            None => {
                proof { assert(false); }
                0
            },
        }
    }

    /// The type analysis gave variable `v`, which it typed.
    fn var_type_of(m: &AnalysisResult, v: usize) -> (t: Type)
        requires
            m.var_types@.contains_key(v),
        ensures
            t == m.var_types@[v],
    {
        match m.var_types.get(&v) {
            Some(t) => *t,
            None => {
                proof { assert(false); }
                Type::Error
            },
        }
    }

    /// Appends the code of `expr` and adds its constants.
    pub fn compile_expr(&mut self, expr: &Expr, chunk: &mut Chunk, metadata: &AnalysisResult)
        requires
            old(self).inv(),
            expr_ok(*expr, *metadata, old(self).declared()),
            old(chunk).constants@.len() + expr_consts(*expr).len() <= 0xFF_FFFF,
            old(chunk).bytecode@.len() + expr_code(*expr, *metadata, old(chunk).constants@.len() as int).len() <= i32::MAX,
        ensures
            *final(self) == *old(self),
            final(chunk).bytecode@ == old(chunk).bytecode@ + expr_code(*expr, *metadata, old(chunk).constants@.len() as int),
            final(chunk).constants@ == old(chunk).constants@ + expr_consts(*expr),
        decreases *expr, 1nat,
    {
        match &expr.kind {
            ExprKind::Literal(_) => Self::compile_literal(expr, chunk, metadata),
            ExprKind::BinaryOp(o, _, _) => {
                if o.node == BinOpKind::And || o.node == BinOpKind::Or {
                    self.compile_logical(expr, chunk, metadata)
                } else {
                    self.compile_binary(expr, chunk, metadata)
                }
            },
            ExprKind::UnaryOp(..) => self.compile_unary(expr, chunk, metadata),
            ExprKind::VarAssign(..) => self.compile_assign(expr, chunk, metadata),
            ExprKind::Variable(_) => self.compile_variable(expr, chunk, metadata),
            _ => {
                proof { assert(false); }
            },
        }
    }

    fn compile_literal(expr: &Expr, chunk: &mut Chunk, metadata: &AnalysisResult)
        requires
            expr.kind is Literal,
            old(chunk).constants@.len() + 1 <= 0xFF_FFFF,
        ensures
            final(chunk).bytecode@ == old(chunk).bytecode@ + expr_code(*expr, *metadata, old(chunk).constants@.len() as int),
            final(chunk).constants@ == old(chunk).constants@ + expr_consts(*expr),
    {
        let ghost k = chunk.constants@.len() as int;
        let ghost code0 = chunk.bytecode@;
        let ghost consts0 = chunk.constants@;
        let value = match &expr.kind {
            ExprKind::Literal(LitKind::Int(i)) => Value::new_int(*i as i32),
            ExprKind::Literal(LitKind::Bool(b)) => Value::new_bool(*b),
            _ => Value::new_uninitialized(),
        };
        chunk.write(OpCode::LoadConst.to_byte());
        let idx = chunk.write_constant(value);
        chunk.write_u24(idx as u32);
        assert(chunk.bytecode@ =~= code0 + expr_code(*expr, *metadata, k));
        assert(chunk.constants@ =~= consts0 + expr_consts(*expr));
    }

    fn compile_logical(&mut self, expr: &Expr, chunk: &mut Chunk, metadata: &AnalysisResult)
        requires
            old(self).inv(),
            expr.kind matches ExprKind::BinaryOp(o, _, _) && (o.node is And || o.node is Or),
            expr_ok(*expr, *metadata, old(self).declared()),
            old(chunk).constants@.len() + expr_consts(*expr).len() <= 0xFF_FFFF,
            old(chunk).bytecode@.len() + expr_code(*expr, *metadata, old(chunk).constants@.len() as int).len() <= i32::MAX,
        ensures
            *final(self) == *old(self),
            final(chunk).bytecode@ == old(chunk).bytecode@ + expr_code(*expr, *metadata, old(chunk).constants@.len() as int),
            final(chunk).constants@ == old(chunk).constants@ + expr_consts(*expr),
        decreases *expr, 0nat,
    {
        let ghost k = chunk.constants@.len() as int;
        let ghost code0 = chunk.bytecode@;
        let ghost consts0 = chunk.constants@;
        if let ExprKind::BinaryOp(o, left, right) = &expr.kind {
            self.compile_expr(left, chunk, metadata);
            let ghost code1 = chunk.bytecode@;
            chunk.write(OpCode::Dup.to_byte());
            let jop = if o.node == BinOpKind::And { OpCode::JmpFalse } else { OpCode::JmpTrue };
            let pos = chunk.write_jump(jop);
            chunk.write(OpCode::Pop.to_byte());
            let ghost code2 = chunk.bytecode@;
            self.compile_expr(right, chunk, metadata);
            let ghost rc = expr_code(**right, *metadata, k + expr_consts(**left).len());
            assert(chunk.bytecode@ =~= code2 + rc);
            chunk.patch_jump(pos);
            proof {
                let lc = expr_code(**left, *metadata, k);
                let before = code2 + rc;
                assert(before.subrange(0, pos + 1) =~= code1 + op(OpCode::Dup) + op(jop));
                assert(before.subrange(pos + 5, before.len() as int) =~= op(OpCode::Pop) + rc);
                assert(code1 =~= code0 + lc);
                assert(chunk.bytecode@ =~= code0 + expr_code(*expr, *metadata, k));
                assert(chunk.constants@ =~= consts0 + expr_consts(*expr));
            }
        }
    }

    fn compile_binary(&mut self, expr: &Expr, chunk: &mut Chunk, metadata: &AnalysisResult)
        requires
            old(self).inv(),
            expr.kind matches ExprKind::BinaryOp(o, _, _) && !(o.node is And || o.node is Or),
            expr_ok(*expr, *metadata, old(self).declared()),
            old(chunk).constants@.len() + expr_consts(*expr).len() <= 0xFF_FFFF,
            old(chunk).bytecode@.len() + expr_code(*expr, *metadata, old(chunk).constants@.len() as int).len() <= i32::MAX,
        ensures
            *final(self) == *old(self),
            final(chunk).bytecode@ == old(chunk).bytecode@ + expr_code(*expr, *metadata, old(chunk).constants@.len() as int),
            final(chunk).constants@ == old(chunk).constants@ + expr_consts(*expr),
        decreases *expr, 0nat,
    {
        let ghost k = chunk.constants@.len() as int;
        let ghost code0 = chunk.bytecode@;
        let ghost consts0 = chunk.constants@;
        if let ExprKind::BinaryOp(o, left, right) = &expr.kind {
            self.compile_expr(left, chunk, metadata);
            self.compile_expr(right, chunk, metadata);
            let t = Self::type_of(metadata, left.id.0);
            let opcode = match o.node {
                BinOpKind::Add => OpCode::I32Add,
                BinOpKind::Sub => OpCode::I32Sub,
                BinOpKind::Mul => OpCode::I32Mul,
                BinOpKind::Div => OpCode::I32Div,
                BinOpKind::BangEq => if t == Type::Int { OpCode::I32NEqual } else { OpCode::BNEqual },
                BinOpKind::EqEq => if t == Type::Int { OpCode::I32Equal } else { OpCode::BEqual },
                BinOpKind::GreaterEq => OpCode::I32GreaterEq,
                BinOpKind::GreaterThan => OpCode::I32Greater,
                BinOpKind::LessEq => OpCode::I32LessEq,
                BinOpKind::LessThan => OpCode::I32Less,
                BinOpKind::And => OpCode::JmpFalse,
                BinOpKind::Or => OpCode::JmpTrue,
            };
            chunk.write(opcode.to_byte());
            assert(chunk.bytecode@ =~= code0 + expr_code(*expr, *metadata, k));
            assert(chunk.constants@ =~= consts0 + expr_consts(*expr));
        }
    }

    fn compile_unary(&mut self, expr: &Expr, chunk: &mut Chunk, metadata: &AnalysisResult)
        requires
            old(self).inv(),
            expr.kind is UnaryOp,
            expr_ok(*expr, *metadata, old(self).declared()),
            old(chunk).constants@.len() + expr_consts(*expr).len() <= 0xFF_FFFF,
            old(chunk).bytecode@.len() + expr_code(*expr, *metadata, old(chunk).constants@.len() as int).len() <= i32::MAX,
        ensures
            *final(self) == *old(self),
            final(chunk).bytecode@ == old(chunk).bytecode@ + expr_code(*expr, *metadata, old(chunk).constants@.len() as int),
            final(chunk).constants@ == old(chunk).constants@ + expr_consts(*expr),
        decreases *expr, 0nat,
    {
        let ghost k = chunk.constants@.len() as int;
        let ghost code0 = chunk.bytecode@;
        let ghost consts0 = chunk.constants@;
        if let ExprKind::UnaryOp(o, right) = &expr.kind {
            self.compile_expr(right, chunk, metadata);
            if o.node == UnaryOpKind::Negate {
                chunk.write(OpCode::I32Negate.to_byte());
            } else {
                let v = Self::variable_of(metadata, right.id.0);
                let slot = self.slot_of(v);
                let pre = o.node == UnaryOpKind::PreDecrement || o.node == UnaryOpKind::PreIncrement;
                let arith = if o.node == UnaryOpKind::PostDecrement || o.node == UnaryOpKind::PreDecrement {
                    OpCode::I32Sub
                } else {
                    OpCode::I32Add
                };
                if !pre {
                    chunk.write(OpCode::Dup.to_byte());
                }
                chunk.write(OpCode::LoadConst.to_byte());
                let idx = chunk.write_constant(Value::new_int(1));
                chunk.write_u24(idx as u32);
                chunk.write(arith.to_byte());
                if pre {
                    chunk.write(OpCode::Dup.to_byte());
                }
                chunk.write(OpCode::I32StoreLocal.to_byte());
                chunk.write_u24(slot);
            }
            assert(chunk.bytecode@ =~= code0 + expr_code(*expr, *metadata, k));
            assert(chunk.constants@ =~= consts0 + expr_consts(*expr));
        }
    }

    fn compile_assign(&mut self, expr: &Expr, chunk: &mut Chunk, metadata: &AnalysisResult)
        requires
            old(self).inv(),
            expr.kind is VarAssign,
            expr_ok(*expr, *metadata, old(self).declared()),
            old(chunk).constants@.len() + expr_consts(*expr).len() <= 0xFF_FFFF,
            old(chunk).bytecode@.len() + expr_code(*expr, *metadata, old(chunk).constants@.len() as int).len() <= i32::MAX,
        ensures
            *final(self) == *old(self),
            final(chunk).bytecode@ == old(chunk).bytecode@ + expr_code(*expr, *metadata, old(chunk).constants@.len() as int),
            final(chunk).constants@ == old(chunk).constants@ + expr_consts(*expr),
        decreases *expr, 0nat,
    {
        let ghost k = chunk.constants@.len() as int;
        let ghost code0 = chunk.bytecode@;
        let ghost consts0 = chunk.constants@;
        if let ExprKind::VarAssign(target, value) = &expr.kind {
            self.compile_expr(value, chunk, metadata);
            let v = Self::variable_of(metadata, target.id.0);
            chunk.write(OpCode::Dup.to_byte());
            let t = Self::var_type_of(metadata, v);
            let store = if t == Type::Int { OpCode::I32StoreLocal } else { OpCode::BStoreLocal };
            chunk.write(store.to_byte());
            let slot = self.slot_of(v);
            chunk.write_u24(slot);
            assert(chunk.bytecode@ =~= code0 + expr_code(*expr, *metadata, k));
            assert(chunk.constants@ =~= consts0 + expr_consts(*expr));
        }
    }

    fn compile_variable(&mut self, expr: &Expr, chunk: &mut Chunk, metadata: &AnalysisResult)
        requires
            old(self).inv(),
            expr.kind is Variable,
            expr_ok(*expr, *metadata, old(self).declared()),
        ensures
            *final(self) == *old(self),
            final(chunk).bytecode@ == old(chunk).bytecode@ + expr_code(*expr, *metadata, old(chunk).constants@.len() as int),
            final(chunk).constants@ == old(chunk).constants@ + expr_consts(*expr),
    {
        let ghost k = chunk.constants@.len() as int;
        let ghost code0 = chunk.bytecode@;
        let ghost consts0 = chunk.constants@;
        let v = Self::variable_of(metadata, expr.id.0);
        let t = Self::var_type_of(metadata, v);
        let load = if t == Type::Int { OpCode::I32LoadLocal } else { OpCode::BLoadLocal };
        chunk.write(load.to_byte());
        let slot = self.slot_of(v);
        chunk.write_u24(slot);
        assert(chunk.bytecode@ =~= code0 + expr_code(*expr, *metadata, k));
        assert(chunk.constants@ =~= consts0 + expr_consts(*expr));
    }
}


/// The offsets in `v`, as integers.
pub open spec fn ints(v: Seq<usize>) -> Seq<int> {
    v.map_values(|j: usize| j as int)
}

/// The loop stack `after` is `before` with the jumps `js` added to the
/// innermost loop's breaks; with no loop there is nothing to add to.
pub open spec fn loops_after(before: Seq<LoopContext>, after: Seq<LoopContext>, js: Seq<int>) -> bool {
    if before.len() == 0 {
        after.len() == 0 && js.len() == 0
    } else {
        &&& after.len() == before.len()
        &&& after.drop_last() == before.drop_last()
        &&& after.last().continue_target == before.last().continue_target
        &&& ints(after.last().break_jumps@) == ints(before.last().break_jumps@) + js
    }
}

impl Compiler {
    /// Where `continue` goes in the innermost loop, if any.
    pub open spec fn cont(&self) -> int {
        if self.loops().len() > 0 { self.loops().last().continue_target as int } else { 0 }
    }

    /// What compiling `s` from `before` leaves in `self` and `chunk`.
    pub open spec fn compiled(&self, before: Self, chunk: Chunk, before_chunk: Chunk, s: Stmt, m: AnalysisResult) -> bool {
        let k = before_chunk.constants@.len() as int;
        let p = before_chunk.bytecode@.len() as int;
        &&& self.inv()
        &&& self.declared() == before.declared() + stmt_decls(s, m)
        &&& loops_after(before.loops(), self.loops(), stmt_breaks(s, m, k, p, before.cont()))
        &&& chunk.bytecode@ == before_chunk.bytecode@ + stmt_code(s, m, k, p, before.cont())
        &&& chunk.constants@ == before_chunk.constants@ + stmt_consts(s)
    }

    /// What compiling `s` from `before` needs.
    pub open spec fn can_compile(&self, chunk: Chunk, s: Stmt, m: AnalysisResult) -> bool {
        let k = chunk.constants@.len() as int;
        let p = chunk.bytecode@.len() as int;
        &&& self.inv()
        &&& stmt_ok(s, m, self.declared(), self.loops().len() > 0)
        &&& k + stmt_consts(s).len() <= 0xFF_FFFF
        &&& p + stmt_code(s, m, k, p, self.cont()).len() <= i32::MAX
        &&& self.cont() <= p
    }

    /// Appends the code of `stmt` and adds its constants.
    pub fn compile_stmt(&mut self, stmt: &Stmt, chunk: &mut Chunk, metadata: &AnalysisResult)
        requires
            old(self).can_compile(*old(chunk), *stmt, *metadata),
        ensures
            final(self).compiled(*old(self), *final(chunk), *old(chunk), *stmt, *metadata),
        decreases *stmt, 1nat,
    {
        match &stmt.kind {
            StmtKind::ExprStmt(_) | StmtKind::Print(_) => self.compile_simple(stmt, chunk, metadata),
            StmtKind::VarDecl(..) => self.compile_var_decl(stmt, chunk, metadata),
            StmtKind::Block(_) => self.compile_block(stmt, chunk, metadata),
            StmtKind::If(..) => self.compile_if(stmt, chunk, metadata),
            StmtKind::While(..) => self.compile_while(stmt, chunk, metadata),
            StmtKind::Break | StmtKind::Continue => self.compile_jump(stmt, chunk, metadata),
            _ => {
                proof {
                    reveal(stmt_ok);
                    assert(false);
                }
            },
        }
    }

    proof fn lemma_no_breaks(&self, s: Stmt, m: AnalysisResult, k: int, p: int)
        requires
            s.kind is ExprStmt || s.kind is Print || s.kind is VarDecl || s.kind is Continue,
        ensures
            loops_after(self.loops(), self.loops(), stmt_breaks(s, m, k, p, self.cont())),
    {
        reveal(stmt_breaks);
        assert(stmt_breaks(s, m, k, p, self.cont()) =~= Seq::<int>::empty());
        if self.loops().len() > 0 {
            let b = ints(self.loops().last().break_jumps@);
            assert(b + Seq::<int>::empty() =~= b);
        }
    }

    fn compile_simple(&mut self, stmt: &Stmt, chunk: &mut Chunk, metadata: &AnalysisResult)
        requires
            old(self).can_compile(*old(chunk), *stmt, *metadata),
            stmt.kind is ExprStmt || stmt.kind is Print,
        ensures
            final(self).compiled(*old(self), *final(chunk), *old(chunk), *stmt, *metadata),
        decreases *stmt, 0nat,
    {
        proof { reveal(stmt_ok); reveal(stmts_ok); reveal(stmt_decls); reveal(stmts_decls); reveal(stmt_consts); reveal(stmts_consts); reveal(stmt_code); reveal(stmts_code); reveal(stmt_breaks); reveal(stmts_breaks); }
        let ghost k = chunk.constants@.len() as int;
        let ghost p = chunk.bytecode@.len() as int;
        let ghost code0 = chunk.bytecode@;
        proof {
            self.lemma_no_breaks(*stmt, *metadata, k, p);
            assert(self.declared() + stmt_decls(*stmt, *metadata) =~= self.declared());
        }
        match &stmt.kind {
            StmtKind::ExprStmt(e) => {
                self.compile_expr(e, chunk, metadata);
                chunk.write(OpCode::Pop.to_byte());
            },
            StmtKind::Print(e) => {
                self.compile_expr(e, chunk, metadata);
                let t = Self::type_of(metadata, e.id.0);
                let print = if t == Type::Int { OpCode::I32Print } else { OpCode::BPrint };
                chunk.write(print.to_byte());
            },
            _ => {},
        }
        assert(chunk.bytecode@ =~= code0 + stmt_code(*stmt, *metadata, k, p, old(self).cont()));
    }

    fn compile_var_decl(&mut self, stmt: &Stmt, chunk: &mut Chunk, metadata: &AnalysisResult)
        requires
            old(self).can_compile(*old(chunk), *stmt, *metadata),
            stmt.kind is VarDecl,
        ensures
            final(self).compiled(*old(self), *final(chunk), *old(chunk), *stmt, *metadata),
        decreases *stmt, 0nat,
    {
        proof { reveal(stmt_ok); reveal(stmts_ok); reveal(stmt_decls); reveal(stmts_decls); reveal(stmt_consts); reveal(stmts_consts); reveal(stmt_code); reveal(stmts_code); reveal(stmt_breaks); reveal(stmts_breaks); }
        let ghost k = chunk.constants@.len() as int;
        let ghost p = chunk.bytecode@.len() as int;
        let ghost code0 = chunk.bytecode@;
        let ghost consts0 = chunk.constants@;
        proof { self.lemma_no_breaks(*stmt, *metadata, k, p); }
        if let StmtKind::VarDecl(_, _, initialiser) = &stmt.kind {
            let v = Self::variable_of(metadata, stmt.id.0);
            match initialiser {
                Some(init) => {
                    self.compile_expr(init, chunk, metadata);
                },
                None => {
                    chunk.write(OpCode::LoadConst.to_byte());
                    let idx = chunk.write_constant(Value::new_uninitialized());
                    chunk.write_u24(idx as u32);
                },
            }
            self.locals.insert(v, LocalSlot(v));
            let t = Self::var_type_of(metadata, v);
            let store = if t == Type::Int { OpCode::I32StoreLocal } else { OpCode::BStoreLocal };
            chunk.write(store.to_byte());
            chunk.write_u24(v as u32);
            proof {
                assert(self.declared() =~= old(self).declared() + stmt_decls(*stmt, *metadata));
                assert(chunk.bytecode@ =~= code0 + stmt_code(*stmt, *metadata, k, p, old(self).cont()));
                assert(chunk.constants@ =~= consts0 + stmt_consts(*stmt));
                assert(self.loops() == old(self).loops());
            }
        }
    }

    fn compile_jump(&mut self, stmt: &Stmt, chunk: &mut Chunk, metadata: &AnalysisResult)
        requires
            old(self).can_compile(*old(chunk), *stmt, *metadata),
            stmt.kind is Break || stmt.kind is Continue,
        ensures
            final(self).compiled(*old(self), *final(chunk), *old(chunk), *stmt, *metadata),
    {
        proof { reveal(stmt_ok); reveal(stmts_ok); reveal(stmt_decls); reveal(stmts_decls); reveal(stmt_consts); reveal(stmts_consts); reveal(stmt_code); reveal(stmts_code); reveal(stmt_breaks); reveal(stmts_breaks); }
        let ghost k = chunk.constants@.len() as int;
        let ghost p = chunk.bytecode@.len() as int;
        let ghost code0 = chunk.bytecode@;
        let n = self.loop_stack.len();
        if let StmtKind::Break = stmt.kind {
            let jump = chunk.write_jump(OpCode::Jmp);
            let mut ctx = self.loop_stack.pop().unwrap();
            let ghost b0 = ctx.break_jumps@;
            ctx.break_jumps.push(jump);
            self.loop_stack.push(ctx);
            proof {
                assert(ints(ctx.break_jumps@) =~= ints(b0) + seq![p]);
                assert(self.loops().drop_last() =~= old(self).loops().drop_last());
                assert(i32_bytes(0) =~= seq![0u8, 0u8, 0u8, 0u8]);
            }
        } else {
            let target = self.loop_stack[n - 1].continue_target;
            chunk.write_jump_back(OpCode::Jmp, target);
        }
        proof {
            let m = *metadata;
            assert(self.declared() =~= old(self).declared() + stmt_decls(*stmt, m));
            assert(chunk.bytecode@ =~= code0 + stmt_code(*stmt, m, k, p, old(self).cont()));
            assert(chunk.constants@ =~= old(chunk).constants@ + stmt_consts(*stmt));
            if stmt.kind is Continue {
                old(self).lemma_no_breaks(*stmt, m, k, p);
            }
        }
    }
}


/// A prefix of statements that can be compiled can be compiled.
pub proof fn lemma_stmts_ok_prefix(ss: Seq<Stmt>, m: AnalysisResult, d: Set<usize>, l: bool, n: int)
    requires
        stmts_ok(ss, m, d, l),
        0 <= n <= ss.len(),
    ensures
        stmts_ok(ss.take(n), m, d, l),
    decreases ss.len(),
{
    reveal(stmt_ok); reveal(stmts_ok); reveal(stmt_decls); reveal(stmts_decls); reveal(stmt_consts); reveal(stmts_consts); reveal(stmt_code); reveal(stmts_code); reveal(stmt_breaks); reveal(stmts_breaks);
    if n < ss.len() {
        lemma_stmts_ok_prefix(ss.drop_last(), m, d, l, n);
        assert(ss.drop_last().take(n) =~= ss.take(n));
    } else {
        assert(ss.take(n) =~= ss);
    }
}

/// The code and constants of a prefix of statements are no longer than
/// those of all of them.
pub proof fn lemma_stmts_prefix_sizes(ss: Seq<Stmt>, m: AnalysisResult, k: int, p: int, ct: int, n: int)
    requires
        0 <= n <= ss.len(),
    ensures
        stmts_consts(ss.take(n)).len() <= stmts_consts(ss).len(),
        stmts_code(ss.take(n), m, k, p, ct).len() <= stmts_code(ss, m, k, p, ct).len(),
    decreases ss.len(),
{
    reveal(stmt_ok); reveal(stmts_ok); reveal(stmt_decls); reveal(stmts_decls); reveal(stmt_consts); reveal(stmts_consts); reveal(stmt_code); reveal(stmts_code); reveal(stmt_breaks); reveal(stmts_breaks);
    if n < ss.len() {
        lemma_stmts_prefix_sizes(ss.drop_last(), m, k, p, ct, n);
        assert(ss.drop_last().take(n) =~= ss.take(n));
    } else {
        assert(ss.take(n) =~= ss);
    }
}

/// Adding breaks to the innermost loop composes.
pub proof fn lemma_loops_after_trans(a: Seq<LoopContext>, b: Seq<LoopContext>, c: Seq<LoopContext>, x: Seq<int>, y: Seq<int>)
    requires
        loops_after(a, b, x),
        loops_after(b, c, y),
    ensures
        loops_after(a, c, x + y),
{
    if a.len() > 0 {
        assert(ints(c.last().break_jumps@) =~= ints(a.last().break_jumps@) + (x + y));
    } else {
        assert(x + y =~= Seq::<int>::empty());
    }
}

/// One step through a block: the statement at `i` can be compiled where
/// the ones before it leave off, and the block's code, constants,
/// declarations and breaks so far grow by its own.
pub proof fn lemma_block_step(body: Seq<Stmt>, i: int, m: AnalysisResult, k: int, p: int, ct: int, d0: Set<usize>, l: bool)
    requires
        0 <= i < body.len(),
        stmts_ok(body, m, d0, l),
        k + stmts_consts(body).len() <= 0xFF_FFFF,
        p + stmts_code(body, m, k, p, ct).len() <= i32::MAX,
    ensures
        ({
            let pre = body.take(i);
            let next = body.take(i + 1);
            let ki = k + stmts_consts(pre).len();
            let pi = p + stmts_code(pre, m, k, p, ct).len();
            &&& stmt_ok(body[i], m, d0 + stmts_decls(pre, m), l)
            &&& ki + stmt_consts(body[i]).len() <= 0xFF_FFFF
            &&& pi + stmt_code(body[i], m, ki, pi, ct).len() <= i32::MAX
            &&& stmts_code(next, m, k, p, ct) == stmts_code(pre, m, k, p, ct) + stmt_code(body[i], m, ki, pi, ct)
            &&& stmts_consts(next) == stmts_consts(pre) + stmt_consts(body[i])
            &&& stmts_decls(next, m) == stmts_decls(pre, m) + stmt_decls(body[i], m)
            &&& stmts_breaks(next, m, k, p, ct) == stmts_breaks(pre, m, k, p, ct) + stmt_breaks(body[i], m, ki, pi, ct)
        }),
{
    reveal(stmt_ok); reveal(stmts_ok); reveal(stmt_decls); reveal(stmts_decls); reveal(stmt_consts); reveal(stmts_consts); reveal(stmt_code); reveal(stmts_code); reveal(stmt_breaks); reveal(stmts_breaks);
    let pre = body.take(i);
    let next = body.take(i + 1);
    assert(next.drop_last() =~= pre);
    assert(next.last() == body[i]);
    lemma_stmts_ok_prefix(body, m, d0, l, i + 1);
    lemma_stmts_prefix_sizes(body, m, k, p, ct, i + 1);
}

/// What the spec functions say of a block.
pub proof fn lemma_unfold_block(s: Stmt, m: AnalysisResult, k: int, p: int, ct: int, d: Set<usize>, l: bool)
    requires
        s.kind is Block,
    ensures
        match s.kind {
            StmtKind::Block(body) => {
                &&& stmt_code(s, m, k, p, ct) == stmts_code(body@, m, k, p, ct)
                &&& stmt_consts(s) == stmts_consts(body@)
                &&& stmt_decls(s, m) == stmts_decls(body@, m)
                &&& stmt_breaks(s, m, k, p, ct) == stmts_breaks(body@, m, k, p, ct)
                &&& stmt_ok(s, m, d, l) == stmts_ok(body@, m, d, l)
            },
            _ => true,
        },
{
    reveal(stmt_ok); reveal(stmts_ok); reveal(stmt_decls); reveal(stmts_decls); reveal(stmt_consts); reveal(stmts_consts); reveal(stmt_code); reveal(stmts_code); reveal(stmt_breaks); reveal(stmts_breaks);
}

/// What the spec functions say of an `if`.
pub proof fn lemma_unfold_if(s: Stmt, m: AnalysisResult, k: int, p: int, ct: int, d: Set<usize>, l: bool)
    requires
        s.kind is If,
    ensures
        match s.kind {
            StmtKind::If(c, b, e) => {
                let cc = expr_code(*c, m, k);
                let kb = k + expr_consts(*c).len();
                let bp = p + cc.len() + 5;
                let bc = stmt_code(*b, m, kb, bp, ct);
                &&& stmt_ok(s, m, d, l) == (expr_ok(*c, m, d) && stmt_ok(*b, m, d, l) && match e {
                    Some(x) => stmt_ok(*x, m, d + stmt_decls(*b, m), l),
                    None => true,
                })
                &&& stmt_decls(s, m) == stmt_decls(*b, m) + match e {
                    Some(x) => stmt_decls(*x, m),
                    None => Set::empty(),
                }
                &&& stmt_consts(s) == expr_consts(*c) + stmt_consts(*b) + match e {
                    Some(x) => stmt_consts(*x),
                    None => seq![],
                }
                &&& stmt_code(s, m, k, p, ct) == match e {
                    None => cc + op(OpCode::JmpFalse) + i32_bytes(bc.len() as int) + bc,
                    Some(x) => {
                        let ec = stmt_code(*x, m, kb + stmt_consts(*b).len(), bp + bc.len() + 5, ct);
                        cc + op(OpCode::JmpFalse) + i32_bytes(bc.len() + 5int) + bc + op(OpCode::Jmp) + i32_bytes(ec.len() as int) + ec
                    },
                }
                &&& stmt_breaks(s, m, k, p, ct) == stmt_breaks(*b, m, kb, bp, ct) + match e {
                    Some(x) => stmt_breaks(*x, m, kb + stmt_consts(*b).len(), bp + bc.len() + 5, ct),
                    None => seq![],
                }
            },
            _ => true,
        },
{
    reveal(stmt_ok); reveal(stmts_ok); reveal(stmt_decls); reveal(stmts_decls); reveal(stmt_consts); reveal(stmts_consts); reveal(stmt_code); reveal(stmts_code); reveal(stmt_breaks); reveal(stmts_breaks);
}

/// What the spec functions say of a `while`.
pub proof fn lemma_unfold_while(s: Stmt, m: AnalysisResult, k: int, p: int, ct: int, d: Set<usize>, l: bool)
    requires
        s.kind is While,
    ensures
        match s.kind {
            StmtKind::While(c, b) => {
                let cc = expr_code(*c, m, k);
                let kb = k + expr_consts(*c).len();
                let bpos = p + cc.len() + 5;
                let braw = stmt_code(*b, m, kb, bpos, p);
                let jpos = bpos + braw.len();
                &&& stmt_ok(s, m, d, l) == (expr_ok(*c, m, d) && stmt_ok(*b, m, d, true))
                &&& stmt_decls(s, m) == stmt_decls(*b, m)
                &&& stmt_consts(s) == expr_consts(*c) + stmt_consts(*b)
                &&& stmt_code(s, m, k, p, ct) == cc + op(OpCode::JmpFalse) + i32_bytes(braw.len() + 5int)
                    + patched(braw, bpos, stmt_breaks(*b, m, kb, bpos, p), jpos + 5) + op(OpCode::Jmp)
                    + i32_bytes(p - (jpos + 5))
                &&& stmt_breaks(s, m, k, p, ct) == Seq::<int>::empty()
            },
            _ => true,
        },
{
    reveal(stmt_ok); reveal(stmts_ok); reveal(stmt_decls); reveal(stmts_decls); reveal(stmt_consts); reveal(stmts_consts); reveal(stmt_code); reveal(stmts_code); reveal(stmt_breaks); reveal(stmts_breaks);
}

impl Compiler {
    fn compile_block(&mut self, stmt: &Stmt, chunk: &mut Chunk, metadata: &AnalysisResult)
        requires
            old(self).can_compile(*old(chunk), *stmt, *metadata),
            stmt.kind is Block,
        ensures
            final(self).compiled(*old(self), *final(chunk), *old(chunk), *stmt, *metadata),
        decreases *stmt, 0nat,
    {
        let ghost k = chunk.constants@.len() as int;
        let ghost p = chunk.bytecode@.len() as int;
        let ghost ct = self.cont();
        let ghost code0 = chunk.bytecode@;
        let ghost consts0 = chunk.constants@;
        let ghost d0 = self.declared();
        let ghost loops0 = self.loops();
        let ghost in_loop = loops0.len() > 0;
        let ghost m = *metadata;
        proof {
            lemma_unfold_block(*stmt, m, k, p, ct, d0, in_loop);
            reveal(stmts_decls);
            reveal(stmts_breaks);
            reveal(stmts_code);
            reveal(stmts_consts);
        }
        if let StmtKind::Block(body) = &stmt.kind {
            proof {
                assert(body@.take(0) =~= Seq::<Stmt>::empty());
                assert(d0 + Set::<usize>::empty() =~= d0);
                if in_loop {
                    let b = ints(loops0.last().break_jumps@);
                    assert(b + Seq::<int>::empty() =~= b);
                    assert(loops0.drop_last() =~= loops0.drop_last());
                }
            }
            let mut i: usize = 0;
            while i < body.len()
                invariant
                    0 <= i <= body@.len(),
                    stmt.kind == StmtKind::Block(*body),
                    consts0.len() == k,
                    code0.len() == p,
                    self.inv(),
                    m == *metadata,
                    stmts_ok(body@, m, d0, in_loop),
                    in_loop == (self.loops().len() > 0),
                    k + stmts_consts(body@).len() <= 0xFF_FFFF,
                    p + stmts_code(body@, m, k, p, ct).len() <= i32::MAX,
                    ct <= p,
                    ct == self.cont(),
                    self.declared() == d0 + stmts_decls(body@.take(i as int), m),
                    loops_after(loops0, self.loops(), stmts_breaks(body@.take(i as int), m, k, p, ct)),
                    chunk.bytecode@ == code0 + stmts_code(body@.take(i as int), m, k, p, ct),
                    chunk.constants@ == consts0 + stmts_consts(body@.take(i as int)),
                decreases body@.len() - i,
            {
                let ghost pre = body@.take(i as int);
                let ghost next = body@.take(i + 1);
                let ghost ki = k + stmts_consts(pre).len();
                let ghost pi = p + stmts_code(pre, m, k, p, ct).len();
                proof {
                    lemma_block_step(body@, i as int, m, k, p, ct, d0, in_loop);
                    assert(decreases_to!(*stmt => stmt.kind));
                    assert(decreases_to!(stmt.kind => stmt.kind->Block_0));
                    assert(decreases_to!(stmt.kind->Block_0 => stmt.kind->Block_0@));
                    assert(decreases_to!(stmt.kind->Block_0@ => stmt.kind->Block_0@[i as int]));
                    assert(chunk.constants@.len() == ki);
                    assert(chunk.bytecode@.len() == pi);
                }
                let ghost s1 = *self;
                self.compile_stmt(&body[i], chunk, metadata);
                proof {
                    lemma_loops_after_trans(loops0, s1.loops(), self.loops(), stmts_breaks(pre, m, k, p, ct),
                        stmt_breaks(body@[i as int], m, ki, pi, ct));
                    assert(self.declared() =~= d0 + stmts_decls(next, m));
                    assert(chunk.bytecode@ =~= code0 + stmts_code(next, m, k, p, ct));
                    assert(chunk.constants@ =~= consts0 + stmts_consts(next));
                    if loops0.len() > 0 {
                        assert(self.cont() == ct);
                    }
                }
                i = i + 1;
            }
            proof {
                assert(body@.take(body@.len() as int) =~= body@);
            }
        }
    }
}


impl Compiler {
    #[verifier::rlimit(100)]
    fn compile_if(&mut self, stmt: &Stmt, chunk: &mut Chunk, metadata: &AnalysisResult)
        requires
            old(self).can_compile(*old(chunk), *stmt, *metadata),
            stmt.kind is If,
        ensures
            final(self).compiled(*old(self), *final(chunk), *old(chunk), *stmt, *metadata),
        decreases *stmt, 0nat,
    {
        let ghost k = chunk.constants@.len() as int;
        let ghost p = chunk.bytecode@.len() as int;
        let ghost ct = self.cont();
        let ghost code0 = chunk.bytecode@;
        let ghost consts0 = chunk.constants@;
        let ghost m = *metadata;
        let ghost s0 = *self;
        proof { lemma_unfold_if(*stmt, m, k, p, ct, s0.declared(), s0.loops().len() > 0); }
        if let StmtKind::If(cond, body, else_body) = &stmt.kind {
            let ghost cc = expr_code(**cond, m, k);
            let ghost kb = k + expr_consts(**cond).len();
            let ghost bp = p + cc.len() + 5;
            let ghost bc = stmt_code(**body, m, kb, bp, ct);
            self.compile_expr(cond, chunk, metadata);
            let pos = chunk.write_jump(OpCode::JmpFalse);
            let ghost s1 = *self;
            let ghost c1 = *chunk;
            self.compile_stmt(body, chunk, metadata);
            let ghost c2 = *chunk;
            let ghost s2 = *self;
            match else_body {
                Some(e) => {
                    let ghost ek = kb + stmt_consts(**body).len();
                    let ghost ep = bp + bc.len() + 5;
                    let ghost ec = stmt_code(**e, m, ek, ep, ct);
                    let end_jump = chunk.write_jump(OpCode::Jmp);
                    chunk.patch_jump(pos);
                    proof {
                        let w = c2.bytecode@ + seq![opcode_byte(OpCode::Jmp), 0u8, 0u8, 0u8, 0u8];
                        assert(chunk.bytecode@ =~= code0 + cc + op(OpCode::JmpFalse) + i32_bytes(bc.len() + 5int) + bc
                            + seq![opcode_byte(OpCode::Jmp), 0u8, 0u8, 0u8, 0u8]);
                        assert(self.cont() == ct);
                    }
                    let ghost c3 = *chunk;
                    self.compile_stmt(e, chunk, metadata);
                    chunk.patch_jump(end_jump);
                    proof {
                        assert(chunk.bytecode@ =~= code0 + stmt_code(*stmt, m, k, p, ct));
                        lemma_loops_after_trans(s0.loops(), s2.loops(), self.loops(), stmt_breaks(**body, m, kb, bp, ct),
                            stmt_breaks(**e, m, ek, ep, ct));
                        assert(stmt_breaks(*stmt, m, k, p, ct) == stmt_breaks(**body, m, kb, bp, ct) + stmt_breaks(**e, m, ek, ep, ct));
                    }
                },
                None => {
                    chunk.patch_jump(pos);
                    proof {
                        assert(chunk.bytecode@ =~= code0 + stmt_code(*stmt, m, k, p, ct));
                        assert(stmt_breaks(*stmt, m, k, p, ct) =~= stmt_breaks(**body, m, kb, bp, ct));
                        assert(stmt_decls(**body, m) + Set::<usize>::empty() =~= stmt_decls(**body, m));
                    }
                },
            }
            proof {
                assert(self.declared() =~= s0.declared() + stmt_decls(*stmt, m));
                assert(chunk.constants@ =~= consts0 + stmt_consts(*stmt));
            }
        }
    }

    /// Points each jump of `jumps`, inside the segment `seg` that follows
    /// `a`, at the end of the code.
    fn patch_breaks(chunk: &mut Chunk, jumps: &Vec<usize>, Ghost(a): Ghost<Seq<u8>>, Ghost(seg): Ghost<Seq<u8>>, Ghost(tail): Ghost<Seq<u8>>)
        requires
            jumps_within(ints(jumps@), a.len() as int, a.len() + seg.len() as int),
            old(chunk).bytecode@ == a + seg + tail,
            old(chunk).bytecode@.len() <= i32::MAX,
        ensures
            final(chunk).bytecode@ == a + patched(seg, a.len() as int, ints(jumps@), old(chunk).bytecode@.len() as int) + tail,
            final(chunk).constants@ == old(chunk).constants@,
    {
        let ghost js = ints(jumps@);
        let ghost t = chunk.bytecode@.len() as int;
        proof {
            assert(js.take(0) =~= Seq::<int>::empty());
        }
        let mut i: usize = 0;
        while i < jumps.len()
            invariant
                0 <= i <= jumps@.len(),
                js == ints(jumps@),
                jumps_within(js, a.len() as int, a.len() + seg.len() as int),
                t == a.len() + seg.len() + tail.len(),
                t <= i32::MAX,
                chunk.bytecode@ == a + patched(seg, a.len() as int, js.take(i as int), t) + tail,
                chunk.constants@ == old(chunk).constants@,
            decreases jumps@.len() - i,
        {
            let j = jumps[i];
            let ghost cur = patched(seg, a.len() as int, js.take(i as int), t);
            proof {
                assert(js[i as int] == j as int);
                lemma_patched_len(seg, a.len() as int, js.take(i as int), t);
                assert(js.take(i + 1).drop_last() =~= js.take(i as int));
                lemma_patch_in_segment(a, cur, tail, j as int, i32_bytes(t - (j + 5)));
            }
            chunk.patch_jump(j);
            i = i + 1;
        }
        proof {
            assert(js.take(js.len() as int) =~= js);
        }
    }

    /// The loop of a `while` without its `break` jumps patched: the
    /// condition, the exit jump, the body, the jump back; the body's breaks
    /// come back.
    fn emit_loop(&mut self, cond: &Expr, body: &Stmt, chunk: &mut Chunk, metadata: &AnalysisResult) -> (breaks: Vec<usize>)
        requires
            old(self).inv(),
            expr_ok(*cond, *metadata, old(self).declared()),
            stmt_ok(*body, *metadata, old(self).declared(), true),
            old(chunk).constants@.len() + expr_consts(*cond).len() + stmt_consts(*body).len() <= 0xFF_FFFF,
            ({
                let k = old(chunk).constants@.len() as int;
                let p = old(chunk).bytecode@.len() as int;
                let cc = expr_code(*cond, *metadata, k);
                let braw = stmt_code(*body, *metadata, k + expr_consts(*cond).len(), p + cc.len() + 5, p);
                p + cc.len() + 5 + braw.len() + 5 <= i32::MAX
            }),
        ensures
            ({
                let m = *metadata;
                let k = old(chunk).constants@.len() as int;
                let p = old(chunk).bytecode@.len() as int;
                let cc = expr_code(*cond, m, k);
                let kb = k + expr_consts(*cond).len();
                let bpos = p + cc.len() + 5;
                let braw = stmt_code(*body, m, kb, bpos, p);
                let jpos = bpos + braw.len();
                &&& final(self).inv()
                &&& final(self).loops() == old(self).loops()
                &&& final(self).declared() == old(self).declared() + stmt_decls(*body, m)
                &&& final(chunk).bytecode@ == old(chunk).bytecode@ + cc + op(OpCode::JmpFalse) + i32_bytes(braw.len() + 5int)
                    + braw + op(OpCode::Jmp) + i32_bytes(p - (jpos + 5))
                &&& final(chunk).constants@ == old(chunk).constants@ + expr_consts(*cond) + stmt_consts(*body)
                &&& ints(breaks@) == stmt_breaks(*body, m, kb, bpos, p)
            }),
        decreases *body, 2nat,
    {
        let ghost m = *metadata;
        let ghost k = chunk.constants@.len() as int;
        let ghost p = chunk.bytecode@.len() as int;
        let ghost code0 = chunk.bytecode@;
        let ghost s0 = *self;
        let ghost cc = expr_code(*cond, m, k);
        let ghost kb = k + expr_consts(*cond).len();
        let ghost bpos = p + cc.len() + 5;
        let ghost braw = stmt_code(*body, m, kb, bpos, p);
        let ghost jpos = bpos + braw.len();
        let loop_start = chunk.bytecode.len();
        self.compile_expr(cond, chunk, metadata);
        let exit_jump = chunk.write_jump(OpCode::JmpFalse);
        self.loop_stack.push(LoopContext { continue_target: loop_start, break_jumps: Vec::new() });
        proof {
            assert(self.loops().drop_last() =~= s0.loops());
            assert(self.cont() == p);
        }
        let ghost s1 = *self;
        self.compile_stmt(body, chunk, metadata);
        chunk.write_jump_back(OpCode::Jmp, loop_start);
        chunk.patch_jump(exit_jump);
        proof {
            assert(chunk.bytecode@ =~= code0 + cc + op(OpCode::JmpFalse) + i32_bytes(braw.len() + 5int)
                + braw + op(OpCode::Jmp) + i32_bytes(p - (jpos + 5)));
            assert(ints(self.loops().last().break_jumps@) =~= stmt_breaks(*body, m, kb, bpos, p));
        }
        let ctx = self.loop_stack.pop().unwrap();
        proof {
            assert(self.loops() =~= s0.loops());
        }
        ctx.break_jumps
    }

    #[verifier::rlimit(100)]
    fn compile_while(&mut self, stmt: &Stmt, chunk: &mut Chunk, metadata: &AnalysisResult)
        requires
            old(self).can_compile(*old(chunk), *stmt, *metadata),
            stmt.kind is While,
        ensures
            final(self).compiled(*old(self), *final(chunk), *old(chunk), *stmt, *metadata),
        decreases *stmt, 0nat,
    {
        let ghost k = chunk.constants@.len() as int;
        let ghost p = chunk.bytecode@.len() as int;
        let ghost code0 = chunk.bytecode@;
        let ghost consts0 = chunk.constants@;
        let ghost m = *metadata;
        let ghost s0 = *self;
        proof { lemma_unfold_while(*stmt, m, k, p, s0.cont(), s0.declared(), s0.loops().len() > 0); }
        if let StmtKind::While(cond, body) = &stmt.kind {
            let ghost cc = expr_code(**cond, m, k);
            let ghost kb = k + expr_consts(**cond).len();
            let ghost bpos = p + cc.len() + 5;
            let ghost braw = stmt_code(**body, m, kb, bpos, p);
            let ghost jpos = bpos + braw.len();
            let ghost js = stmt_breaks(**body, m, kb, bpos, p);
            let ghost a = code0 + cc + op(OpCode::JmpFalse) + i32_bytes(braw.len() + 5int);
            let ghost tail = op(OpCode::Jmp) + i32_bytes(p - (jpos + 5));
            proof {
                lemma_breaks_within(**body, m, kb, bpos, p);
                lemma_patched_len(braw, bpos, js, jpos + 5);
            }
            let breaks = self.emit_loop(cond, body, chunk, metadata);
            proof {
                assert(chunk.bytecode@ =~= a + braw + tail);
            }
            Self::patch_breaks(chunk, &breaks, Ghost(a), Ghost(braw), Ghost(tail));
            proof {
                assert(chunk.bytecode@ =~= code0 + stmt_code(*stmt, m, k, p, s0.cont()));
                assert(chunk.constants@ =~= consts0 + stmt_consts(*stmt));
                if s0.loops().len() > 0 {
                    let b = ints(s0.loops().last().break_jumps@);
                    assert(b + Seq::<int>::empty() =~= b);
                }
            }
        }
    }

}

} // verus!
