//! The virtual machine: one instruction at a time, as a function from the
//! machine's state to its next state and what the caller must do.
//!
//! Printing and arithmetic on doubles happen outside this library: a step
//! that needs them hands back an `Event` that names the work, and the
//! caller pushes the result with `push`.
use crate::runtime::chunk::{decode_i32_le, decode_u24_le, i32_value, u24_value, Chunk};
use crate::runtime::opcodes::{opcode_byte, opcode_of, OpCode};
use crate::runtime::stack::Stack;
use crate::runtime::value::Value;
use vstd::prelude::*;

verus! {

/// The number of local variable slots.
pub const LOCAL_MAX: usize = 0xFF_FFFF;

/// Why the machine cannot go on.
#[derive(Debug, Copy, Clone, PartialEq, Eq, Structural)]
pub enum Fault {
    /// An instruction needed more values than the stack held.
    StackUnderflow,
    /// The code ended inside an instruction, or before a `Halt`.
    CodeOverrun,
    /// A byte that is no opcode.
    BadOpcode(u8),
    /// A constant index past the pool.
    BadConstant(u32),
    /// A local index past the last slot.
    BadLocal(u32),
    /// A store of a value that was never given one.
    UninitializedStore,
    /// An operand of the wrong kind.
    TypeMismatch,
    /// Integer arithmetic whose result does not fit 32 bits.
    IntegerOverflow,
    /// Integer division by zero.
    DivisionByZero,
    /// A jump that lands outside the code.
    JumpOutOfRange,
    /// An instruction this machine does not run.
    Unsupported(OpCode),
}

/// A binary operation on doubles.
#[derive(Debug, Copy, Clone, PartialEq, Eq, Structural)]
pub enum FloatOp {
    Add,
    Sub,
    Mul,
    Div,
    Equal,
    NEqual,
    Less,
    LessEq,
    Greater,
    GreaterEq,
}

/// What a step asks of the caller.
#[derive(Debug, Copy, Clone, PartialEq, Eq, Structural)]
pub enum Event {
    /// Nothing: step again.
    Continue,
    /// The program ended with this exit code.
    Halt(i32),
    /// Print this integer, then step again.
    PrintInt(i32),
    /// Print this boolean, then step again.
    PrintBool(bool),
    /// Print the double with these bits, then step again.
    PrintDouble(u64),
    /// Push the result of this operation on the doubles with these bits (a
    /// double for arithmetic, a boolean for a comparison), then step again.
    FloatBinary(FloatOp, u64, u64),
    /// Push the negation of the double with these bits, then step again.
    FloatNegate(u64),
    /// Push this integer as a double, then step again.
    IntToDouble(i32),
    /// The machine stopped.
    Fault(Fault),
}

/// A frame of the call stack.
#[derive(Debug, Copy, Clone)]
pub struct CallFrame {
    pub return_ip: usize,
    pub base: usize,
}

/// The state of a machine, as the semantics below speak of it: the operand
/// stack, the offset of the next instruction, and the locals.
pub type State = (Seq<Value>, int, Seq<Value>);

/// Rust's `/` on 32-bit integers: the quotient rounded toward zero.
pub open spec fn trunc_div(a: int, b: int) -> int {
    let q = (if a >= 0 { a } else { -a }) / (if b >= 0 { b } else { -b });
    if (a >= 0) == (b >= 0) { q } else { -q }
}

/// The result of integer arithmetic `op` on `a` and `b`.
pub open spec fn int_arith(op: OpCode, a: i32, b: i32) -> Result<i32, Fault> {
    let r: int = match op {
        OpCode::I32Add => a + b,
        OpCode::I32Sub => a - b,
        OpCode::I32Mul => a * b,
        _ => if b == 0 { 0 } else { trunc_div(a as int, b as int) },
    };
    if op == OpCode::I32Div && b == 0 {
        Err(Fault::DivisionByZero)
    } else if i32::MIN <= r <= i32::MAX {
        Ok(r as i32)
    } else {
        Err(Fault::IntegerOverflow)
    }
}

/// The result of integer comparison `op` on `a` and `b`.
pub open spec fn int_compare(op: OpCode, a: i32, b: i32) -> bool {
    match op {
        OpCode::I32Equal => a == b,
        OpCode::I32NEqual => a != b,
        OpCode::I32Less => a < b,
        OpCode::I32LessEq => a <= b,
        OpCode::I32Greater => a > b,
        _ => a >= b,
    }
}

/// The double operation that `op` performs.
pub open spec fn float_op_of(op: OpCode) -> FloatOp {
    match op {
        OpCode::F64Add => FloatOp::Add,
        OpCode::F64Sub => FloatOp::Sub,
        OpCode::F64Mul => FloatOp::Mul,
        OpCode::F64Div => FloatOp::Div,
        OpCode::F64Equal => FloatOp::Equal,
        OpCode::F64NEqual => FloatOp::NEqual,
        OpCode::F64Less => FloatOp::Less,
        OpCode::F64LessEq => FloatOp::LessEq,
        OpCode::F64Greater => FloatOp::Greater,
        _ => FloatOp::GreaterEq,
    }
}

pub open spec fn is_int_arith(op: OpCode) -> bool {
    op is I32Add || op is I32Sub || op is I32Mul || op is I32Div
}

pub open spec fn is_int_compare(op: OpCode) -> bool {
    op is I32Equal || op is I32NEqual || op is I32Less || op is I32LessEq || op is I32Greater
        || op is I32GreaterEq
}

pub open spec fn is_float_binary(op: OpCode) -> bool {
    op is F64Add || op is F64Sub || op is F64Mul || op is F64Div || op is F64Equal || op is F64NEqual
        || op is F64Less || op is F64LessEq || op is F64Greater || op is F64GreaterEq
}

pub open spec fn is_load_local(op: OpCode) -> bool {
    op is I32LoadLocal || op is BLoadLocal || op is F64LoadLocal
}

pub open spec fn is_store_local(op: OpCode) -> bool {
    op is I32StoreLocal || op is BStoreLocal || op is F64StoreLocal
}

/// The 3-byte operand after the opcode at `ip`.
pub open spec fn operand_u24(code: Seq<u8>, ip: int) -> int {
    u24_value(code[ip + 1], code[ip + 2], code[ip + 3])
}

/// The 4-byte operand after the opcode at `ip`.
pub open spec fn operand_i32(code: Seq<u8>, ip: int) -> int {
    i32_value(code[ip + 1], code[ip + 2], code[ip + 3], code[ip + 4])
}

/// Where a jump at `ip` with a taken branch goes on.
pub open spec fn jump_spec(s: Seq<Value>, ip: int, l: Seq<Value>, code: Seq<u8>, taken: bool) -> (State, Event) {
    if ip + 5 > code.len() {
        ((s, ip, l), Event::Fault(Fault::CodeOverrun))
    } else if !taken {
        ((s, ip + 5, l), Event::Continue)
    } else {
        let t = ip + 5 + operand_i32(code, ip);
        if 0 <= t <= code.len() {
            ((s, t, l), Event::Continue)
        } else {
            ((s, ip, l), Event::Fault(Fault::JumpOutOfRange))
        }
    }
}

/// One step of the machine in state `(s, ip, l)` on `code` and `consts`: the
/// next state and the event. After a fault the state is of no further use.
pub open spec fn step_spec(st: State, code: Seq<u8>, consts: Seq<Value>) -> (State, Event) {
    let (s, ip, l) = st;
    let n = s.len();
    if !(0 <= ip < code.len()) {
        (st, Event::Fault(Fault::CodeOverrun))
    } else {
        match opcode_of(code[ip]) {
            None => (st, Event::Fault(Fault::BadOpcode(code[ip]))),
            Some(op) => {
                if op is Halt {
                    if n < 1 {
                        (st, Event::Fault(Fault::StackUnderflow))
                    } else {
                        match s.last() {
                            Value::Integer(c) => ((s.drop_last(), ip + 1, l), Event::Halt(c)),
                            _ => (st, Event::Fault(Fault::TypeMismatch)),
                        }
                    }
                } else if is_int_arith(op) || is_int_compare(op) {
                    if n < 2 {
                        (st, Event::Fault(Fault::StackUnderflow))
                    } else {
                        match (s[n - 2], s[n - 1]) {
                            (Value::Integer(a), Value::Integer(b)) => {
                                let rest = s.subrange(0, n - 2);
                                if is_int_compare(op) {
                                    ((rest.push(Value::Boolean(int_compare(op, a, b))), ip + 1, l), Event::Continue)
                                } else {
                                    match int_arith(op, a, b) {
                                        Ok(r) => ((rest.push(Value::Integer(r)), ip + 1, l), Event::Continue),
                                        Err(f) => (st, Event::Fault(f)),
                                    }
                                }
                            },
                            _ => (st, Event::Fault(Fault::TypeMismatch)),
                        }
                    }
                } else if op is BEqual || op is BNEqual {
                    if n < 2 {
                        (st, Event::Fault(Fault::StackUnderflow))
                    } else {
                        match (s[n - 2], s[n - 1]) {
                            (Value::Boolean(a), Value::Boolean(b)) => {
                                let r = if op is BEqual { a == b } else { a != b };
                                ((s.subrange(0, n - 2).push(Value::Boolean(r)), ip + 1, l), Event::Continue)
                            },
                            _ => (st, Event::Fault(Fault::TypeMismatch)),
                        }
                    }
                } else if is_float_binary(op) {
                    if n < 2 {
                        (st, Event::Fault(Fault::StackUnderflow))
                    } else {
                        match (s[n - 2], s[n - 1]) {
                            (Value::Double(a), Value::Double(b)) =>
                                ((s.subrange(0, n - 2), ip + 1, l), Event::FloatBinary(float_op_of(op), a, b)),
                            _ => (st, Event::Fault(Fault::TypeMismatch)),
                        }
                    }
                } else if op is I32Negate || op is I32Print || op is I32ToF64 {
                    if n < 1 {
                        (st, Event::Fault(Fault::StackUnderflow))
                    } else {
                        match s.last() {
                            Value::Integer(a) => if op is I32Print {
                                ((s.drop_last(), ip + 1, l), Event::PrintInt(a))
                            } else if op is I32ToF64 {
                                ((s.drop_last(), ip + 1, l), Event::IntToDouble(a))
                            } else if a == i32::MIN {
                                (st, Event::Fault(Fault::IntegerOverflow))
                            } else {
                                ((s.drop_last().push(Value::Integer((-a) as i32)), ip + 1, l), Event::Continue)
                            },
                            _ => (st, Event::Fault(Fault::TypeMismatch)),
                        }
                    }
                } else if op is BPrint {
                    if n < 1 {
                        (st, Event::Fault(Fault::StackUnderflow))
                    } else {
                        match s.last() {
                            Value::Boolean(b) => ((s.drop_last(), ip + 1, l), Event::PrintBool(b)),
                            _ => (st, Event::Fault(Fault::TypeMismatch)),
                        }
                    }
                } else if op is F64Print || op is F64Negate {
                    if n < 1 {
                        (st, Event::Fault(Fault::StackUnderflow))
                    } else {
                        match s.last() {
                            Value::Double(d) => if op is F64Print {
                                ((s.drop_last(), ip + 1, l), Event::PrintDouble(d))
                            } else {
                                ((s.drop_last(), ip + 1, l), Event::FloatNegate(d))
                            },
                            _ => (st, Event::Fault(Fault::TypeMismatch)),
                        }
                    }
                } else if op is Pop {
                    if n < 1 {
                        (st, Event::Fault(Fault::StackUnderflow))
                    } else {
                        ((s.drop_last(), ip + 1, l), Event::Continue)
                    }
                } else if op is Dup {
                    if n < 1 {
                        (st, Event::Fault(Fault::StackUnderflow))
                    } else {
                        ((s.push(s.last()), ip + 1, l), Event::Continue)
                    }
                } else if op is LoadConst {
                    if ip + 4 > code.len() {
                        (st, Event::Fault(Fault::CodeOverrun))
                    } else {
                        let idx = operand_u24(code, ip);
                        if idx < consts.len() {
                            ((s.push(consts[idx]), ip + 4, l), Event::Continue)
                        } else {
                            (st, Event::Fault(Fault::BadConstant(idx as u32)))
                        }
                    }
                } else if is_load_local(op) {
                    if ip + 4 > code.len() {
                        (st, Event::Fault(Fault::CodeOverrun))
                    } else {
                        let idx = operand_u24(code, ip);
                        if idx < LOCAL_MAX {
                            ((s.push(l[idx]), ip + 4, l), Event::Continue)
                        } else {
                            (st, Event::Fault(Fault::BadLocal(idx as u32)))
                        }
                    }
                } else if is_store_local(op) {
                    if n < 1 {
                        (st, Event::Fault(Fault::StackUnderflow))
                    } else if s.last() is Uninitialized {
                        (st, Event::Fault(Fault::UninitializedStore))
                    } else if ip + 4 > code.len() {
                        (st, Event::Fault(Fault::CodeOverrun))
                    } else {
                        let idx = operand_u24(code, ip);
                        if idx < LOCAL_MAX {
                            ((s, ip + 4, l.update(idx, s.last())), Event::Continue)
                        } else {
                            (st, Event::Fault(Fault::BadLocal(idx as u32)))
                        }
                    }
                } else if op is Jmp {
                    jump_spec(s, ip, l, code, true)
                } else if op is JmpTrue || op is JmpFalse {
                    if n < 1 {
                        (st, Event::Fault(Fault::StackUnderflow))
                    } else {
                        match s.last() {
                            Value::Boolean(c) => jump_spec(s.drop_last(), ip, l, code, c == (op is JmpTrue)),
                            _ => (st, Event::Fault(Fault::TypeMismatch)),
                        }
                    }
                } else {
                    (st, Event::Fault(Fault::Unsupported(op)))
                }
            },
        }
    }
}

/// A virtual machine: its operand stack, the offset of its next
/// instruction, its call frames and its local slots.
pub struct VirtualMachine {
    stack: Stack<Value>,
    ip: usize,
    frames: Stack<CallFrame>,
    locals: Vec<Value>,
}

impl VirtualMachine {
    /// The operand stack, bottom first.
    pub closed spec fn stack_view(&self) -> Seq<Value> {
        self.stack@
    }

    /// The offset of the next instruction.
    pub closed spec fn ip_view(&self) -> int {
        self.ip as int
    }

    /// The `LOCAL_MAX` local slots; those never stored to hold
    /// `Uninitialized`.
    pub closed spec fn locals_view(&self) -> Seq<Value> {
        Seq::new(LOCAL_MAX as nat, |i: int| if i < self.locals@.len() { self.locals@[i] } else { Value::Uninitialized })
    }

    /// The machine's state.
    pub open spec fn state(&self) -> State {
        (self.stack_view(), self.ip_view(), self.locals_view())
    }

    /// The slots held in memory never outnumber `LOCAL_MAX`.
    pub closed spec fn inv(&self) -> bool {
        self.locals@.len() <= LOCAL_MAX
    }

    /// A machine with an empty stack, at offset 0, with every local
    /// uninitialized.
    pub fn new() -> (vm: Self)
        ensures
            vm.inv(),
            vm.stack_view() == Seq::<Value>::empty(),
            vm.ip_view() == 0,
            vm.locals_view() == Seq::new(LOCAL_MAX as nat, |i: int| Value::Uninitialized),
    {
        let vm = VirtualMachine { stack: Stack::new(), ip: 0, frames: Stack::new(), locals: Vec::new() };
        assert(vm.locals_view() =~= Seq::new(LOCAL_MAX as nat, |i: int| Value::Uninitialized));
        vm
    }

    /// Puts `value` on the stack: the result of work that a step asked for.
    pub fn push(&mut self, value: Value)
        requires
            old(self).inv(),
        ensures
            final(self).inv(),
            final(self).state() == (old(self).stack_view().push(value), old(self).ip_view(), old(self).locals_view()),
    {
        self.stack.push(value);
    }
}

/// Integer arithmetic `op` on `a` and `b`, as `int_arith` says.
fn int_arith_exec(op: OpCode, a: i32, b: i32) -> (r: Result<i32, Fault>)
    requires
        is_int_arith(op),
    ensures
        r == int_arith(op, a, b),
{
    match op {
        OpCode::I32Add => {
            let x: i64 = a as i64 + b as i64;
            if x < i32::MIN as i64 || x > i32::MAX as i64 { Err(Fault::IntegerOverflow) } else { Ok(x as i32) }
        },
        OpCode::I32Sub => {
            let x: i64 = a as i64 - b as i64;
            if x < i32::MIN as i64 || x > i32::MAX as i64 { Err(Fault::IntegerOverflow) } else { Ok(x as i32) }
        },
        OpCode::I32Mul => {
            assert(-0x4000_0000_0000_0000 <= (a as i64) * (b as i64) <= 0x4000_0000_0000_0000) by (nonlinear_arith)
                requires
                    i32::MIN <= a <= i32::MAX,
                    i32::MIN <= b <= i32::MAX,
            ;
            let x: i64 = a as i64 * b as i64;
            if x < i32::MIN as i64 || x > i32::MAX as i64 { Err(Fault::IntegerOverflow) } else { Ok(x as i32) }
        },
        _ => {
            if b == 0 {
                Err(Fault::DivisionByZero)
            } else if a == i32::MIN && b == -1 {
                proof {
                    assert(trunc_div(a as int, b as int) == 0x8000_0000) by (nonlinear_arith)
                        requires
                            a == i32::MIN,
                            b == -1,
                    ;
                }
                Err(Fault::IntegerOverflow)
            } else {
                proof { lemma_trunc_div_fits(a, b); }
                Ok(int_div(a, b))
            }
        },
    }
}

/// The quotient of `a` by `b`, rounded toward zero.
fn int_div(a: i32, b: i32) -> (q: i32)
    requires
        b != 0,
        i32::MIN <= trunc_div(a as int, b as int) <= i32::MAX,
    ensures
        q == trunc_div(a as int, b as int),
{
    let ua: u64 = if a >= 0 { a as u64 } else { (-(a as i64)) as u64 };
    let ub: u64 = if b >= 0 { b as u64 } else { (-(b as i64)) as u64 };
    let uq: u64 = ua / ub;
    assert(uq <= ua) by (nonlinear_arith)
        requires
            uq == ua / ub,
            ub >= 1,
    ;
    let q: i64 = uq as i64;
    if (a >= 0) == (b >= 0) {
        q as i32
    } else {
        (-q) as i32
    }
}

impl VirtualMachine {
    /// `self` is `before` after a step on `chunk` that gave `e`, as
    /// `step_spec` says.
    pub open spec fn stepped(&self, before: Self, chunk: &Chunk, e: Event) -> bool {
        let r = step_spec(before.state(), chunk.bytecode@, chunk.constants@);
        &&& self.inv()
        &&& e == r.1
        &&& self.state() == r.0
    }

    /// The opcode under the cursor is `op`.
    pub open spec fn at_op(&self, chunk: &Chunk, op: OpCode) -> bool {
        &&& chunk.bytecode@.len() <= usize::MAX
        &&& 0 <= self.ip_view() < chunk.bytecode@.len()
        &&& opcode_of(chunk.bytecode@[self.ip_view()]) == Some(op)
    }

    /// Runs the instruction under the cursor.
    pub fn step(&mut self, chunk: &Chunk) -> (e: Event)
        requires
            old(self).inv(),
        ensures
            final(self).stepped(*old(self), chunk, e),
    {
        let len = chunk.bytecode.len();
        if self.ip >= len {
            return Event::Fault(Fault::CodeOverrun);
        }
        let b = chunk.bytecode[self.ip];
        let op = match OpCode::try_from_byte(b) {
            Some(op) => op,
            None => {
                return Event::Fault(Fault::BadOpcode(b));
            },
        };
        match op {
            OpCode::Halt => self.step_halt(chunk),
            OpCode::I32Add | OpCode::I32Sub | OpCode::I32Mul | OpCode::I32Div | OpCode::I32Equal
            | OpCode::I32NEqual | OpCode::I32Less | OpCode::I32LessEq | OpCode::I32Greater
            | OpCode::I32GreaterEq => self.step_int_binary(chunk, op),
            OpCode::BEqual | OpCode::BNEqual => self.step_bool_binary(chunk, op),
            OpCode::F64Add | OpCode::F64Sub | OpCode::F64Mul | OpCode::F64Div | OpCode::F64Equal
            | OpCode::F64NEqual | OpCode::F64Less | OpCode::F64LessEq | OpCode::F64Greater
            | OpCode::F64GreaterEq => self.step_float_binary(chunk, op),
            OpCode::I32Negate | OpCode::I32Print | OpCode::I32ToF64 => self.step_int_unary(chunk, op),
            OpCode::BPrint | OpCode::F64Print | OpCode::F64Negate => self.step_other_unary(chunk, op),
            OpCode::Pop | OpCode::Dup => self.step_pop_dup(chunk, op),
            OpCode::LoadConst => self.step_load_const(chunk),
            OpCode::I32LoadLocal | OpCode::BLoadLocal | OpCode::F64LoadLocal => self.step_load_local(chunk),
            OpCode::I32StoreLocal | OpCode::BStoreLocal | OpCode::F64StoreLocal => self.step_store_local(chunk, op),
            OpCode::Jmp | OpCode::JmpTrue | OpCode::JmpFalse => self.step_jump(chunk, op),
            OpCode::Call | OpCode::Return | OpCode::ReturnVal => Event::Fault(Fault::Unsupported(op)),
        }
    }

    fn step_halt(&mut self, chunk: &Chunk) -> (e: Event)
        requires
            old(self).inv(),
            old(self).at_op(chunk, OpCode::Halt),
        ensures
            final(self).stepped(*old(self), chunk, e),
    {
        let n = self.stack.len();
        if n < 1 {
            return Event::Fault(Fault::StackUnderflow);
        }
        match *self.stack.get(n - 1) {
            Value::Integer(c) => {
                self.stack.pop();
                self.ip = self.ip + 1;
                Event::Halt(c)
            },
            _ => Event::Fault(Fault::TypeMismatch),
        }
    }

    #[verifier::rlimit(40)]
    fn step_int_binary(&mut self, chunk: &Chunk, op: OpCode) -> (e: Event)
        requires
            old(self).inv(),
            old(self).at_op(chunk, op),
            is_int_arith(op) || is_int_compare(op),
        ensures
            final(self).stepped(*old(self), chunk, e),
    {
        let n = self.stack.len();
        if n < 2 {
            return Event::Fault(Fault::StackUnderflow);
        }
        let (a, b) = match (*self.stack.get(n - 2), *self.stack.get(n - 1)) {
            (Value::Integer(a), Value::Integer(b)) => (a, b),
            _ => {
                return Event::Fault(Fault::TypeMismatch);
            },
        };
        let r: Value = match op {
            OpCode::I32Add | OpCode::I32Sub | OpCode::I32Mul | OpCode::I32Div => {
                match int_arith_exec(op, a, b) {
                    Ok(x) => Value::Integer(x),
                    Err(f) => {
                        return Event::Fault(f);
                    },
                }
            },
            OpCode::I32Equal => Value::Boolean(a == b),
            OpCode::I32NEqual => Value::Boolean(a != b),
            OpCode::I32Less => Value::Boolean(a < b),
            OpCode::I32LessEq => Value::Boolean(a <= b),
            OpCode::I32Greater => Value::Boolean(a > b),
            _ => Value::Boolean(a >= b),
        };
        self.stack.pop();
        self.stack.pop();
        self.stack.push(r);
        self.ip = self.ip + 1;
        proof {
            let s = old(self).stack_view();
            assert(s.drop_last().drop_last() =~= s.subrange(0, n - 2));
        }
        Event::Continue
    }
}

/// The quotient rounded toward zero fits 32 bits unless it is the one of
/// `i32::MIN` by `-1`.
proof fn lemma_trunc_div_fits(a: i32, b: i32)
    requires
        b != 0,
        !(a == i32::MIN && b == -1),
    ensures
        i32::MIN <= trunc_div(a as int, b as int) <= i32::MAX,
{
    let ua: int = if a >= 0 { a as int } else { -(a as int) };
    let ub: int = if b >= 0 { b as int } else { -(b as int) };
    assert(ua / ub <= ua) by (nonlinear_arith)
        requires
            ua >= 0,
            ub >= 1,
    ;
    assert(ua / ub >= 0) by (nonlinear_arith)
        requires
            ua >= 0,
            ub >= 1,
    ;
    if ub == 1 {
        assert(ua / ub == ua) by (nonlinear_arith)
            requires
                ub == 1,
        ;
    } else {
        assert(ua / ub <= ua / 2) by (nonlinear_arith)
            requires
                ua >= 0,
                ub >= 2,
        ;
    }
}

impl VirtualMachine {
    fn step_bool_binary(&mut self, chunk: &Chunk, op: OpCode) -> (e: Event)
        requires
            old(self).inv(),
            old(self).at_op(chunk, op),
            op is BEqual || op is BNEqual,
        ensures
            final(self).stepped(*old(self), chunk, e),
    {
        let n = self.stack.len();
        if n < 2 {
            return Event::Fault(Fault::StackUnderflow);
        }
        let (a, b) = match (*self.stack.get(n - 2), *self.stack.get(n - 1)) {
            (Value::Boolean(a), Value::Boolean(b)) => (a, b),
            _ => {
                return Event::Fault(Fault::TypeMismatch);
            },
        };
        let r = if op == OpCode::BEqual { a == b } else { a != b };
        self.stack.pop();
        self.stack.pop();
        self.stack.push(Value::Boolean(r));
        self.ip = self.ip + 1;
        proof {
            let s = old(self).stack_view();
            assert(s.drop_last().drop_last() =~= s.subrange(0, n - 2));
        }
        Event::Continue
    }

    fn step_float_binary(&mut self, chunk: &Chunk, op: OpCode) -> (e: Event)
        requires
            old(self).inv(),
            old(self).at_op(chunk, op),
            is_float_binary(op),
        ensures
            final(self).stepped(*old(self), chunk, e),
    {
        let n = self.stack.len();
        if n < 2 {
            return Event::Fault(Fault::StackUnderflow);
        }
        let (a, b) = match (*self.stack.get(n - 2), *self.stack.get(n - 1)) {
            (Value::Double(a), Value::Double(b)) => (a, b),
            _ => {
                return Event::Fault(Fault::TypeMismatch);
            },
        };
        let f = match op {
            OpCode::F64Add => FloatOp::Add,
            OpCode::F64Sub => FloatOp::Sub,
            OpCode::F64Mul => FloatOp::Mul,
            OpCode::F64Div => FloatOp::Div,
            OpCode::F64Equal => FloatOp::Equal,
            OpCode::F64NEqual => FloatOp::NEqual,
            OpCode::F64Less => FloatOp::Less,
            OpCode::F64LessEq => FloatOp::LessEq,
            OpCode::F64Greater => FloatOp::Greater,
            _ => FloatOp::GreaterEq,
        };
        self.stack.pop();
        self.stack.pop();
        self.ip = self.ip + 1;
        proof {
            let s = old(self).stack_view();
            assert(s.drop_last().drop_last() =~= s.subrange(0, n - 2));
        }
        Event::FloatBinary(f, a, b)
    }

    fn step_int_unary(&mut self, chunk: &Chunk, op: OpCode) -> (e: Event)
        requires
            old(self).inv(),
            old(self).at_op(chunk, op),
            op is I32Negate || op is I32Print || op is I32ToF64,
        ensures
            final(self).stepped(*old(self), chunk, e),
    {
        let n = self.stack.len();
        if n < 1 {
            return Event::Fault(Fault::StackUnderflow);
        }
        let a = match *self.stack.get(n - 1) {
            Value::Integer(a) => a,
            _ => {
                return Event::Fault(Fault::TypeMismatch);
            },
        };
        if op == OpCode::I32Print {
            self.stack.pop();
            self.ip = self.ip + 1;
            Event::PrintInt(a)
        } else if op == OpCode::I32ToF64 {
            self.stack.pop();
            self.ip = self.ip + 1;
            Event::IntToDouble(a)
        } else {
            if a == i32::MIN {
                return Event::Fault(Fault::IntegerOverflow);
            }
            self.stack.pop();
            self.stack.push(Value::Integer(-a));
            self.ip = self.ip + 1;
            Event::Continue
        }
    }

    fn step_other_unary(&mut self, chunk: &Chunk, op: OpCode) -> (e: Event)
        requires
            old(self).inv(),
            old(self).at_op(chunk, op),
            op is BPrint || op is F64Print || op is F64Negate,
        ensures
            final(self).stepped(*old(self), chunk, e),
    {
        let n = self.stack.len();
        if n < 1 {
            return Event::Fault(Fault::StackUnderflow);
        }
        let v = *self.stack.get(n - 1);
        let e = match (op, v) {
            (OpCode::BPrint, Value::Boolean(b)) => Event::PrintBool(b),
            (OpCode::F64Print, Value::Double(d)) => Event::PrintDouble(d),
            (OpCode::F64Negate, Value::Double(d)) => Event::FloatNegate(d),
            _ => {
                return Event::Fault(Fault::TypeMismatch);
            },
        };
        self.stack.pop();
        self.ip = self.ip + 1;
        e
    }

    fn step_pop_dup(&mut self, chunk: &Chunk, op: OpCode) -> (e: Event)
        requires
            old(self).inv(),
            old(self).at_op(chunk, op),
            op is Pop || op is Dup,
        ensures
            final(self).stepped(*old(self), chunk, e),
    {
        let n = self.stack.len();
        if n < 1 {
            return Event::Fault(Fault::StackUnderflow);
        }
        if op == OpCode::Pop {
            self.stack.pop();
        } else {
            let v = *self.stack.get(n - 1);
            self.stack.push(v);
        }
        self.ip = self.ip + 1;
        Event::Continue
    }

    /// The 3-byte operand of the instruction under the cursor, or `None`
    /// when the code ends first.
    fn read_u24(&self, chunk: &Chunk) -> (r: Option<u32>)
        requires
            chunk.bytecode@.len() <= usize::MAX,
            0 <= self.ip_view() < chunk.bytecode@.len(),
        ensures
            self.ip_view() + 4 > chunk.bytecode@.len() ==> r is None,
            self.ip_view() + 4 <= chunk.bytecode@.len() ==> r == Some(operand_u24(chunk.bytecode@, self.ip_view()) as u32),
            r matches Some(x) ==> x == operand_u24(chunk.bytecode@, self.ip_view()),
    {
        let code = &chunk.bytecode;
        if code.len() - self.ip < 4 {
            return None;
        }
        let ip = self.ip;
        Some(decode_u24_le([code[ip + 1], code[ip + 2], code[ip + 3]]))
    }

    fn step_load_const(&mut self, chunk: &Chunk) -> (e: Event)
        requires
            old(self).inv(),
            old(self).at_op(chunk, OpCode::LoadConst),
        ensures
            final(self).stepped(*old(self), chunk, e),
    {
        let idx = match self.read_u24(chunk) {
            Some(idx) => idx,
            None => {
                return Event::Fault(Fault::CodeOverrun);
            },
        };
        if idx as usize >= chunk.constants.len() {
            return Event::Fault(Fault::BadConstant(idx));
        }
        let v = chunk.constants[idx as usize];
        self.stack.push(v);
        self.ip = self.ip + 4;
        Event::Continue
    }

    fn step_load_local(&mut self, chunk: &Chunk) -> (e: Event)
        requires
            old(self).inv(),
            old(self).at_op(chunk, OpCode::I32LoadLocal) || old(self).at_op(chunk, OpCode::BLoadLocal)
                || old(self).at_op(chunk, OpCode::F64LoadLocal),
        ensures
            final(self).stepped(*old(self), chunk, e),
    {
        let idx = match self.read_u24(chunk) {
            Some(idx) => idx,
            None => {
                return Event::Fault(Fault::CodeOverrun);
            },
        };
        if idx as usize >= LOCAL_MAX {
            return Event::Fault(Fault::BadLocal(idx));
        }
        let i = idx as usize;
        let v = if i < self.locals.len() { self.locals[i] } else { Value::Uninitialized };
        self.stack.push(v);
        self.ip = self.ip + 4;
        Event::Continue
    }

    /// Sets local slot `i` to `v`.
    fn set_local(&mut self, i: usize, v: Value)
        requires
            old(self).inv(),
            i < LOCAL_MAX,
        ensures
            final(self).inv(),
            final(self).locals_view() == old(self).locals_view().update(i as int, v),
            final(self).stack == old(self).stack,
            final(self).ip == old(self).ip,
    {
        if i < self.locals.len() {
            self.locals.set(i, v);
            assert(self.locals_view() =~= old(self).locals_view().update(i as int, v));
        } else {
            while self.locals.len() < i
                invariant
                    self.inv(),
                    i < LOCAL_MAX,
                    self.locals@.len() <= i,
                    self.locals_view() == old(self).locals_view(),
                    self.stack == old(self).stack,
                    self.ip == old(self).ip,
                decreases i - self.locals@.len(),
            {
                let ghost before = self.locals_view();
                self.locals.push(Value::Uninitialized);
                assert(self.locals_view() =~= before);
            }
            self.locals.push(v);
            assert(self.locals_view() =~= old(self).locals_view().update(i as int, v));
        }
    }

    fn step_store_local(&mut self, chunk: &Chunk, op: OpCode) -> (e: Event)
        requires
            old(self).inv(),
            old(self).at_op(chunk, op),
            is_store_local(op),
        ensures
            final(self).stepped(*old(self), chunk, e),
    {
        let n = self.stack.len();
        if n < 1 {
            return Event::Fault(Fault::StackUnderflow);
        }
        let v = *self.stack.get(n - 1);
        if let Value::Uninitialized = v {
            return Event::Fault(Fault::UninitializedStore);
        }
        let idx = match self.read_u24(chunk) {
            Some(idx) => idx,
            None => {
                return Event::Fault(Fault::CodeOverrun);
            },
        };
        if idx as usize >= LOCAL_MAX {
            return Event::Fault(Fault::BadLocal(idx));
        }
        self.set_local(idx as usize, v);
        self.ip = self.ip + 4;
        Event::Continue
    }

    fn step_jump(&mut self, chunk: &Chunk, op: OpCode) -> (e: Event)
        requires
            old(self).inv(),
            old(self).at_op(chunk, op),
            op is Jmp || op is JmpTrue || op is JmpFalse,
        ensures
            final(self).stepped(*old(self), chunk, e),
    {
        let taken = if op == OpCode::Jmp {
            true
        } else {
            let n = self.stack.len();
            if n < 1 {
                return Event::Fault(Fault::StackUnderflow);
            }
            let c = match *self.stack.get(n - 1) {
                Value::Boolean(c) => c,
                _ => {
                    return Event::Fault(Fault::TypeMismatch);
                },
            };
            self.stack.pop();
            c == (op == OpCode::JmpTrue)
        };
        let code = &chunk.bytecode;
        let ip = self.ip;
        if code.len() - ip < 5 {
            return Event::Fault(Fault::CodeOverrun);
        }
        if !taken {
            self.ip = ip + 5;
            return Event::Continue;
        }
        let offset = decode_i32_le([code[ip + 1], code[ip + 2], code[ip + 3], code[ip + 4]]);
        let base = ip + 5;
        if offset >= 0 {
            let d = offset as usize;
            if d > code.len() - base {
                return Event::Fault(Fault::JumpOutOfRange);
            }
            self.ip = base + d;
        } else {
            let d = (-(offset as i64)) as usize;
            if d > base {
                return Event::Fault(Fault::JumpOutOfRange);
            }
            self.ip = base - d;
        }
        Event::Continue
    }
}


/// `q` is `x` divided by `y` with the remainder dropped toward zero: what
/// is left, `x - q * y`, is smaller than `y` in size and is 0 or has the
/// sign of `x`.
pub open spec fn quotient_toward_zero(x: int, y: int, q: int) -> bool {
    let r = x - q * y;
    &&& (if r >= 0 { r } else { -r }) < (if y >= 0 { y } else { -y })
    &&& r == 0 || (r > 0) == (x > 0)
}

/// The quotient rounded toward zero leaves what `quotient_toward_zero`
/// says.
proof fn lemma_trunc_div_rem(x: int, y: int)
    requires
        y != 0,
    ensures
        quotient_toward_zero(x, y, trunc_div(x, y)),
{
    let ua: int = if x >= 0 { x } else { -x };
    let ub: int = if y >= 0 { y } else { -y };
    let q0 = ua / ub;
    assert(ua == ub * q0 + ua % ub && 0 <= ua % ub < ub) by (nonlinear_arith)
        requires
            ua >= 0,
            ub >= 1,
            q0 == ua / ub,
    ;
    let r0 = ua % ub;
    if x >= 0 && y >= 0 {
        assert(x - q0 * y == r0) by (nonlinear_arith) requires ua == x, ub == y, ua == ub * q0 + r0;
    } else if x >= 0 {
        assert(x - (-q0) * y == r0) by (nonlinear_arith) requires ua == x, ub == -y, ua == ub * q0 + r0;
    } else if y >= 0 {
        assert(x - (-q0) * y == -r0) by (nonlinear_arith) requires ua == -x, ub == y, ua == ub * q0 + r0;
    } else {
        assert(x - q0 * y == -r0) by (nonlinear_arith) requires ua == -x, ub == -y, ua == ub * q0 + r0;
    }
}

/// What the machine does with an integer operator: with integers `x` and
/// `y` on top of the stack (`y` topmost), the instruction pops both and
/// pushes their sum, difference, product or quotient rounded toward zero
/// (when it fits 32 bits; one that does not is a fault, and so is a
/// division by zero), or the truth of the comparison it names, and moves to
/// the next instruction.
pub proof fn lemma_int_operators(s: Seq<Value>, ip: int, l: Seq<Value>, code: Seq<u8>, consts: Seq<Value>, x: i32, y: i32)
    requires
        0 <= ip < code.len(),
    ensures
        ({
            let before: State = (s.push(Value::Integer(x)).push(Value::Integer(y)), ip, l);
            let after = step_spec(before, code, consts);
            let pushed = |v: Value| after == ((s.push(v), ip + 1, l), Event::Continue);
            &&& code[ip] == opcode_byte(OpCode::I32Add) && i32::MIN <= x + y <= i32::MAX
                ==> pushed(Value::Integer((x + y) as i32))
            &&& code[ip] == opcode_byte(OpCode::I32Sub) && i32::MIN <= x - y <= i32::MAX
                ==> pushed(Value::Integer((x - y) as i32))
            &&& code[ip] == opcode_byte(OpCode::I32Mul) && i32::MIN <= x * y <= i32::MAX
                ==> pushed(Value::Integer((x * y) as i32))
            &&& code[ip] == opcode_byte(OpCode::I32Add) && !(i32::MIN <= x + y <= i32::MAX)
                ==> after.1 == Event::Fault(Fault::IntegerOverflow)
            &&& code[ip] == opcode_byte(OpCode::I32Sub) && !(i32::MIN <= x - y <= i32::MAX)
                ==> after.1 == Event::Fault(Fault::IntegerOverflow)
            &&& code[ip] == opcode_byte(OpCode::I32Mul) && !(i32::MIN <= x * y <= i32::MAX)
                ==> after.1 == Event::Fault(Fault::IntegerOverflow)
            &&& code[ip] == opcode_byte(OpCode::I32Div) && x == i32::MIN && y == -1
                ==> after.1 == Event::Fault(Fault::IntegerOverflow)
            &&& code[ip] == opcode_byte(OpCode::I32Div) && y == 0 ==> after.1 == Event::Fault(Fault::DivisionByZero)
            &&& code[ip] == opcode_byte(OpCode::I32Div) && y != 0 && !(x == i32::MIN && y == -1)
                ==> exists|q: i32| after == ((s.push(Value::Integer(q)), ip + 1, l), Event::Continue)
                    && #[trigger] quotient_toward_zero(x as int, y as int, q as int)
            &&& code[ip] == opcode_byte(OpCode::I32Equal) ==> pushed(Value::Boolean(x == y))
            &&& code[ip] == opcode_byte(OpCode::I32NEqual) ==> pushed(Value::Boolean(x != y))
            &&& code[ip] == opcode_byte(OpCode::I32Less) ==> pushed(Value::Boolean(x < y))
            &&& code[ip] == opcode_byte(OpCode::I32LessEq) ==> pushed(Value::Boolean(x <= y))
            &&& code[ip] == opcode_byte(OpCode::I32Greater) ==> pushed(Value::Boolean(x > y))
            &&& code[ip] == opcode_byte(OpCode::I32GreaterEq) ==> pushed(Value::Boolean(x >= y))
        }),
{
    let t = s.push(Value::Integer(x)).push(Value::Integer(y));
    assert(t.subrange(0, t.len() - 2) =~= s);
    assert(t[t.len() - 2] == Value::Integer(x));
    if code[ip] == opcode_byte(OpCode::I32Div) && x == i32::MIN && y == -1 {
        assert(trunc_div(x as int, y as int) == 2147483648int);
    }
    if code[ip] == opcode_byte(OpCode::I32Div) && y != 0 && !(x == i32::MIN && y == -1) {
        lemma_trunc_div_fits(x, y);
        lemma_trunc_div_rem(x as int, y as int);
        let q = trunc_div(x as int, y as int) as i32;
        let after = step_spec((t, ip, l), code, consts);
        assert(after == ((s.push(Value::Integer(q)), ip + 1, l), Event::Continue));
        assert(quotient_toward_zero(x as int, y as int, q as int));
    }
}

} // verus!
