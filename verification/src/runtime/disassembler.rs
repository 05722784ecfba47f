//! The listing of a chunk: its instructions, one line each, then its
//! constants.
use crate::diagnostics::{decimal, push_char, push_decimal};
use crate::runtime::chunk::Chunk;
use crate::runtime::value::Value;
use crate::runtime::vm::{lemma_int_operators, operand_i32, operand_u24, step_spec, Event, Fault, State};
use vstd::prelude::*;

verus! {

/// The name that a listing gives the instruction with byte `b`, for the
/// bytes that it names.
pub open spec fn mnemonic(b: u8) -> Seq<char> {
    if b == 0u8 {
        "HALT"@
    } else if b == 1u8 {
        "I32ADD"@
    } else if b == 2u8 {
        "I32SUB"@
    } else if b == 3u8 {
        "I32MUL"@
    } else if b == 4u8 {
        "I32DIV"@
    } else if b == 5u8 {
        "I32NEGATE"@
    } else if b == 6u8 {
        "LOADCONST"@
    } else if b == 7u8 {
        "I32PRINT"@
    } else if b == 8u8 {
        "POP"@
    } else if b == 9u8 {
        "I32LOADLOCAL"@
    } else if b == 10u8 {
        "I32STORELOCAL"@
    } else if b == 11u8 {
        "BPRINT"@
    } else if b == 12u8 {
        "BLOADLOCAL"@
    } else if b == 13u8 {
        "BSTORELOCAL"@
    } else if b == 14u8 {
        "I32EQUAL"@
    } else if b == 15u8 {
        "I32NEQUAL"@
    } else if b == 16u8 {
        "BEQUAL"@
    } else if b == 17u8 {
        "BNEQUAL"@
    } else if b == 18u8 {
        "I32LESS"@
    } else if b == 19u8 {
        "I32LESSEQ"@
    } else if b == 20u8 {
        "I32GREATER"@
    } else if b == 21u8 {
        "I32GREATEREQ"@
    } else if b == 22u8 {
        "JMP"@
    } else if b == 23u8 {
        "JMPTRUE"@
    } else if b == 24u8 {
        "JMPFALSE"@
    } else if b == 25u8 {
        "DUP"@
    } else {
        "UNKNOWN"@
    }
}

/// The number of operand bytes that a listing shows after byte `b`.
pub open spec fn operand_width(b: u8) -> nat {
    if b == 6 || b == 9 || b == 10 || b == 12 || b == 13 {
        3
    } else if b == 22 || b == 23 || b == 24 {
        4
    } else {
        0
    }
}

/// ` b` for each of the `n` bytes of `code` from `at`, in decimal.
pub open spec fn operand_text(code: Seq<u8>, at: int, n: nat) -> Seq<char>
    decreases n,
{
    if n == 0 {
        Seq::empty()
    } else {
        operand_text(code, at, (n - 1) as nat) + seq![' '] + decimal(code[at + n - 1] as nat)
    }
}

/// The line for the instruction at `offset`.
pub open spec fn instruction_text(code: Seq<u8>, offset: int) -> Seq<char> {
    let b = code[offset];
    if b < 26 {
        mnemonic(b) + operand_text(code, offset + 1, operand_width(b))
    } else {
        "UNKNOWN "@ + decimal(b as nat)
    }
}

/// Every instruction from `offset` on has its operands inside `code`.
pub open spec fn listable(code: Seq<u8>, offset: int) -> bool
    decreases code.len() - offset,
{
    if offset < 0 || offset >= code.len() {
        true
    } else {
        offset + 1 + operand_width(code[offset]) <= code.len() && listable(code, offset + 1 + operand_width(code[offset]))
    }
}

/// The lines of the instructions from `offset` on.
pub open spec fn listing(code: Seq<u8>, offset: int) -> Seq<Seq<char>>
    decreases code.len() - offset,
{
    if offset < 0 || offset >= code.len() {
        Seq::empty()
    } else {
        let next = offset + 1 + operand_width(code[offset]);
        seq![instruction_text(code, offset)] + if next <= code.len() {
            listing(code, next)
        } else {
            Seq::empty()
        }
    }
}

/// The name of the instruction with byte `b`, for the bytes a listing names.
fn mnemonic_of(b: u8) -> (m: &'static str)
    requires
        b < 26,
    ensures
        m@ == mnemonic(b),
{
    match b {
        0u8 => "HALT",
        1u8 => "I32ADD",
        2u8 => "I32SUB",
        3u8 => "I32MUL",
        4u8 => "I32DIV",
        5u8 => "I32NEGATE",
        6u8 => "LOADCONST",
        7u8 => "I32PRINT",
        8u8 => "POP",
        9u8 => "I32LOADLOCAL",
        10u8 => "I32STORELOCAL",
        11u8 => "BPRINT",
        12u8 => "BLOADLOCAL",
        13u8 => "BSTORELOCAL",
        14u8 => "I32EQUAL",
        15u8 => "I32NEQUAL",
        16u8 => "BEQUAL",
        17u8 => "BNEQUAL",
        18u8 => "I32LESS",
        19u8 => "I32LESSEQ",
        20u8 => "I32GREATER",
        21u8 => "I32GREATEREQ",
        22u8 => "JMP",
        23u8 => "JMPTRUE",
        24u8 => "JMPFALSE",
        25u8 => "DUP",
        _ => "UNKNOWN",
    }
}

/// `i` in decimal, with a leading `-` when it is negative.
pub open spec fn int_text(i: i32) -> Seq<char> {
    if i < 0 { "-"@ + decimal((-i) as nat) } else { decimal(i as nat) }
}

/// How the listing shows constant `v`: its kind, then its value. A double's
/// value is floating point, which this library does not hold: its text
/// stops before the value.
pub open spec fn constant_text(v: Value) -> Seq<char> {
    match v {
        Value::Integer(i) => "kind: Integer, value: "@ + int_text(i),
        Value::Boolean(b) => "kind: Boolean, value: "@ + if b { "true"@ } else { "false"@ },
        Value::Double(_) => "kind: Double, value: "@,
        Value::Uninitialized => "kind: Uninitialized, value: unitialized value"@,
    }
}

/// The lines that list constants `cs`: each one's index, a space, and its
/// text.
pub open spec fn constant_lines(cs: Seq<Value>) -> Seq<Seq<char>>
    decreases cs.len(),
{
    if cs.len() == 0 {
        seq![]
    } else {
        constant_lines(cs.drop_last()).push(decimal((cs.len() - 1) as nat) + " "@ + constant_text(cs.last()))
    }
}

/// The whole listing of a chunk with bytecode `code` and constants `cs`.
pub open spec fn disassembly(code: Seq<u8>, cs: Seq<Value>) -> Seq<Seq<char>> {
    seq!["Chunk:"@, "Bytecode:"@] + listing(code, 0) + seq!["Constants:"@] + constant_lines(cs)
}

/// Appends `i` in decimal, with its sign.
fn push_int(s: &mut String, i: i32)
    ensures
        final(s)@ == old(s)@ + int_text(i),
{
    if i < 0 {
        s.append("-");
        let m: i64 = -(i as i64);
        push_decimal(s, m as usize);
        proof { assert(old(s)@ + "-"@ + decimal((-i) as nat) =~= old(s)@ + int_text(i)); }
    } else {
        push_decimal(s, i as usize);
    }
}

/// Lists the bytecode of a chunk.
pub struct Disassembler<'a> {
    chunk: &'a Chunk,
}

impl<'a> Disassembler<'a> {
    /// The chunk being listed.
    pub closed spec fn chunk_spec(&self) -> &'a Chunk {
        self.chunk
    }

    /// A disassembler for `chunk`.
    pub fn new(chunk: &'a Chunk) -> (d: Self)
        ensures
            d.chunk_spec() == chunk,
    {
        Disassembler { chunk }
    }

    /// The line of the instruction at `offset`, and the offset of the next.
    fn instruction(&self, offset: usize) -> (r: (String, usize))
        requires
            offset < self.chunk.bytecode@.len(),
            offset + 1 + operand_width(self.chunk.bytecode@[offset as int]) <= self.chunk.bytecode@.len(),
        ensures
            r.0@ == instruction_text(self.chunk.bytecode@, offset as int),
            r.1 == offset + 1 + operand_width(self.chunk.bytecode@[offset as int]),
    {
        let code = &self.chunk.bytecode;
        let len: usize = code.len();
        let b = code[offset];
        let mut line = String::new();
        if b < 26 {
            line.append(mnemonic_of(b));
            let n: usize = if b == 6 || b == 9 || b == 10 || b == 12 || b == 13 {
                3
            } else if b == 22 || b == 23 || b == 24 {
                4
            } else {
                0
            };
            let mut i: usize = 0;
            while i < n
                invariant
                    i <= n,
                    n == operand_width(b),
                    b == code@[offset as int],
                    offset + 1 + n <= len,
                    len == code@.len(),
                    line@ == mnemonic(b) + operand_text(code@, offset + 1, i as nat),
                decreases n - i,
            {
                push_char(&mut line, ' ');
                push_decimal(&mut line, code[offset + 1 + i] as usize);
                i = i + 1;
                assert(line@ =~= mnemonic(b) + operand_text(code@, offset + 1, i as nat));
            }
            (line, offset + 1 + n)
        } else {
            line.append("UNKNOWN ");
            push_decimal(&mut line, b as usize);
            (line, offset + 1)
        }
    }

    /// Whether every instruction of the chunk has its operands inside it, so
    /// that the chunk can be listed.
    pub fn can_list(&self) -> (b: bool)
        ensures
            b == listable(self.chunk_spec().bytecode@, 0),
    {
        let code = &self.chunk.bytecode;
        let len: usize = code.len();
        let mut offset: usize = 0;
        while offset < len
            invariant
                code@ == self.chunk.bytecode@,
                len == code@.len(),
                offset <= len,
                listable(code@, 0) == listable(code@, offset as int),
            decreases len - offset,
        {
            let b = code[offset];
            let w: usize = if b == 6 || b == 9 || b == 10 || b == 12 || b == 13 {
                3
            } else if b == 22 || b == 23 || b == 24 {
                4
            } else {
                0
            };
            assert(w == operand_width(b));
            if w >= len - offset {
                assert(!listable(code@, offset as int));
                return false;
            }
            offset = offset + 1 + w;
        }
        assert(listable(code@, offset as int));
        true
    }

    /// The line that lists constant `index`: its index, a space, and
    /// `constant_text` of it.
    fn constant_line(&self, index: usize) -> (line: String)
        requires
            index < self.chunk.constants@.len(),
        ensures
            line@ == decimal(index as nat) + " "@ + constant_text(self.chunk.constants@[index as int]),
    {
        let mut line = String::new();
        push_decimal(&mut line, index);
        line.append(" ");
        match &self.chunk.constants[index] {
            Value::Integer(i) => {
                line.append("kind: Integer, value: ");
                push_int(&mut line, *i);
            },
            Value::Boolean(b) => {
                line.append("kind: Boolean, value: ");
                if *b {
                    line.append("true");
                } else {
                    line.append("false");
                }
            },
            Value::Double(_) => {
                line.append("kind: Double, value: ");
            },
            Value::Uninitialized => {
                line.append("kind: Uninitialized, value: unitialized value");
            },
        }
        proof {
            let v = self.chunk.constants@[index as int];
            assert(line@ =~= decimal(index as nat) + " "@ + constant_text(v));
        }
        line
    }

    /// The listing of the chunk, a line each: `Chunk:`, `Bytecode:`, the
    /// instructions in order, `Constants:`, then each constant. The line of
    /// a double constant stops before its value, which the caller writes
    /// after it.
    pub fn disassemble(&self) -> (v: Vec<String>)
        requires
            listable(self.chunk_spec().bytecode@, 0),
        ensures
            v@.map_values(|s: String| s@) == disassembly(self.chunk_spec().bytecode@, self.chunk_spec().constants@),
    {
        let mut v: Vec<String> = Vec::new();
        v.push(String::from_str("Chunk:"));
        v.push(String::from_str("Bytecode:"));
        let mut lines = self.lines();
        let ghost head = v@.map_values(|s: String| s@);
        let ghost body = lines@.map_values(|s: String| s@);
        proof {
            assert(head =~= seq!["Chunk:"@, "Bytecode:"@]);
            assert(body =~= listing(self.chunk.bytecode@, 0));
        }
        v.append(&mut lines);
        v.push(String::from_str("Constants:"));
        proof {
            assert(v@.map_values(|s: String| s@) =~= seq!["Chunk:"@, "Bytecode:"@] + listing(self.chunk.bytecode@, 0)
                + seq!["Constants:"@]);
        }
        let ghost top = v@.map_values(|s: String| s@);
        let ghost cs = self.chunk.constants@;
        proof { assert(cs.take(0) =~= Seq::<Value>::empty()); }
        let n = self.chunk.constants.len();
        let mut i: usize = 0;
        while i < n
            invariant
                i <= n,
                n == cs.len(),
                cs == self.chunk.constants@,
                v@.map_values(|s: String| s@) == top + constant_lines(cs.take(i as int)),
            decreases n - i,
        {
            let line = self.constant_line(i);
            let ghost before = v@.map_values(|s: String| s@);
            v.push(line);
            proof {
                assert(cs.take(i + 1).drop_last() =~= cs.take(i as int));
                assert(v@.map_values(|s: String| s@) =~= before.push(line@));
                assert(v@.map_values(|s: String| s@) =~= top + constant_lines(cs.take(i + 1)));
            }
            i = i + 1;
        }
        proof { assert(cs.take(n as int) =~= cs); }
        v
    }

    /// The line of each instruction of the chunk, in order.
    pub fn lines(&self) -> (v: Vec<String>)
        requires
            listable(self.chunk_spec().bytecode@, 0),
        ensures
            v@.len() == listing(self.chunk_spec().bytecode@, 0).len(),
            forall|i: int| 0 <= i < v@.len() ==> #[trigger] v@[i]@ == listing(self.chunk_spec().bytecode@, 0)[i],
    {
        let ghost code = self.chunk.bytecode@;
        let mut v: Vec<String> = Vec::new();
        let mut offset: usize = 0;
        while offset < self.chunk.bytecode.len()
            invariant
                code == self.chunk.bytecode@,
                offset <= code.len(),
                listable(code, offset as int),
                listing(code, 0) == v@.map_values(|s: String| s@) + listing(code, offset as int),
            decreases code.len() - offset,
        {
            let (line, next) = self.instruction(offset);
            let ghost before = v@.map_values(|s: String| s@);
            v.push(line);
            proof {
                assert(v@.map_values(|s: String| s@) =~= before.push(instruction_text(code, offset as int)));
                assert(listing(code, 0) =~= v@.map_values(|s: String| s@) + listing(code, next as int));
            }
            offset = next;
        }
        proof {
            assert(listing(code, offset as int) =~= Seq::<Seq<char>>::empty());
            assert(v@.map_values(|s: String| s@) =~= listing(code, 0));
            assert forall|i: int| 0 <= i < v@.len() implies #[trigger] v@[i]@ == listing(code, 0)[i] by {
                assert(v@.map_values(|s: String| s@)[i] == v@[i]@);
            }
        }
        v
    }
}


/// Only byte `c` is listed under the name of byte `c`.
proof fn lemma_mnemonic_byte(b: u8, c: u8)
    requires
        c < 26,
        mnemonic(b) == mnemonic(c),
    ensures
        b == c,
{
    if b >= 26 {
        reveal_strlit("UNKNOWN");
        reveal_strlit("HALT");
        reveal_strlit("I32ADD");
        reveal_strlit("I32SUB");
        reveal_strlit("I32MUL");
        reveal_strlit("I32DIV");
        reveal_strlit("I32NEGATE");
        reveal_strlit("LOADCONST");
        reveal_strlit("I32PRINT");
        reveal_strlit("POP");
        reveal_strlit("I32LOADLOCAL");
        reveal_strlit("I32STORELOCAL");
        reveal_strlit("BPRINT");
        reveal_strlit("BLOADLOCAL");
        reveal_strlit("BSTORELOCAL");
        reveal_strlit("I32EQUAL");
        reveal_strlit("I32NEQUAL");
        reveal_strlit("BEQUAL");
        reveal_strlit("BNEQUAL");
        reveal_strlit("I32LESS");
        reveal_strlit("I32LESSEQ");
        reveal_strlit("I32GREATER");
        reveal_strlit("I32GREATEREQ");
        reveal_strlit("JMP");
        reveal_strlit("JMPTRUE");
        reveal_strlit("JMPFALSE");
        reveal_strlit("DUP");
        let n1 = mnemonic(b);
        let n2 = mnemonic(c);
        assert(n1.len() == n2.len() && n1[0] == n2[0] && n1[n1.len() - 1] == n2[n2.len() - 1]);
    } else if b != c {
        lemma_mnemonics_distinct(b, c);
    }
}

/// A listing names each instruction by its own name: two different opcode
/// bytes are never listed under one name.
pub proof fn lemma_mnemonics_distinct(b1: u8, b2: u8)
    requires
        b1 < 26,
        b2 < 26,
        b1 != b2,
    ensures
        mnemonic(b1) != mnemonic(b2),
{
    reveal_strlit("HALT");
    reveal_strlit("I32ADD");
    reveal_strlit("I32SUB");
    reveal_strlit("I32MUL");
    reveal_strlit("I32DIV");
    reveal_strlit("I32NEGATE");
    reveal_strlit("LOADCONST");
    reveal_strlit("I32PRINT");
    reveal_strlit("POP");
    reveal_strlit("I32LOADLOCAL");
    reveal_strlit("I32STORELOCAL");
    reveal_strlit("BPRINT");
    reveal_strlit("BLOADLOCAL");
    reveal_strlit("BSTORELOCAL");
    reveal_strlit("I32EQUAL");
    reveal_strlit("I32NEQUAL");
    reveal_strlit("BEQUAL");
    reveal_strlit("BNEQUAL");
    reveal_strlit("I32LESS");
    reveal_strlit("I32LESSEQ");
    reveal_strlit("I32GREATER");
    reveal_strlit("I32GREATEREQ");
    reveal_strlit("JMP");
    reveal_strlit("JMPTRUE");
    reveal_strlit("JMPFALSE");
    reveal_strlit("DUP");
    let n1 = mnemonic(b1);
    let n2 = mnemonic(b2);
    if n1 == n2 {
        assert(n1.len() == n2.len() && n1[0] == n2[0] && n1[n1.len() - 1] == n2[n2.len() - 1]);
        assert(false);
    }
}


/// A listing names an integer operator after what the machine does with
/// it: with integers `x` and `y` on top of the stack, an instruction listed
/// `I32ADD` pushes their sum, `I32SUB` their difference, `I32MUL` their
/// product (each where it fits 32 bits), and `I32EQUAL`, `I32NEQUAL`,
/// `I32LESS`, `I32LESSEQ`, `I32GREATER` and `I32GREATEREQ` the truth of
/// `==`, `!=`, `<`, `<=`, `>` and `>=`.
pub proof fn lemma_listed_int_operators(s: Seq<Value>, ip: int, l: Seq<Value>, code: Seq<u8>, consts: Seq<Value>,
    x: i32, y: i32)
    requires
        0 <= ip < code.len(),
    ensures
        ({
            let name = mnemonic(code[ip]);
            let after = step_spec((s.push(Value::Integer(x)).push(Value::Integer(y)), ip, l), code, consts);
            let pushed = |v: Value| after == ((s.push(v), ip + 1, l), Event::Continue);
            &&& name == "I32ADD"@ && i32::MIN <= x + y <= i32::MAX ==> pushed(Value::Integer((x + y) as i32))
            &&& name == "I32SUB"@ && i32::MIN <= x - y <= i32::MAX ==> pushed(Value::Integer((x - y) as i32))
            &&& name == "I32MUL"@ && i32::MIN <= x * y <= i32::MAX ==> pushed(Value::Integer((x * y) as i32))
            &&& name == "I32EQUAL"@ ==> pushed(Value::Boolean(x == y))
            &&& name == "I32NEQUAL"@ ==> pushed(Value::Boolean(x != y))
            &&& name == "I32LESS"@ ==> pushed(Value::Boolean(x < y))
            &&& name == "I32LESSEQ"@ ==> pushed(Value::Boolean(x <= y))
            &&& name == "I32GREATER"@ ==> pushed(Value::Boolean(x > y))
            &&& name == "I32GREATEREQ"@ ==> pushed(Value::Boolean(x >= y))
        }),
{
    let b = code[ip];
    lemma_int_operators(s, ip, l, code, consts, x, y);
    if mnemonic(b) == mnemonic(1) { lemma_mnemonic_byte(b, 1); }
    if mnemonic(b) == mnemonic(2) { lemma_mnemonic_byte(b, 2); }
    if mnemonic(b) == mnemonic(3) { lemma_mnemonic_byte(b, 3); }
    if mnemonic(b) == mnemonic(14) { lemma_mnemonic_byte(b, 14); }
    if mnemonic(b) == mnemonic(15) { lemma_mnemonic_byte(b, 15); }
    if mnemonic(b) == mnemonic(18) { lemma_mnemonic_byte(b, 18); }
    if mnemonic(b) == mnemonic(19) { lemma_mnemonic_byte(b, 19); }
    if mnemonic(b) == mnemonic(20) { lemma_mnemonic_byte(b, 20); }
    if mnemonic(b) == mnemonic(21) { lemma_mnemonic_byte(b, 21); }
}

/// A listing names the other instructions after what the machine does
/// with them: `I32NEGATE` negates the integer on top, `I32PRINT` and
/// `BPRINT` pop and print an integer and a boolean, `BEQUAL` and `BNEQUAL`
/// compare two booleans, `POP` drops the top, `DUP` copies it, `HALT` stops
/// with the integer on top as exit code, `LOADCONST` pushes the constant
/// its operand names, `JMP` jumps by its operand, and `JMPTRUE` and
/// `JMPFALSE` pop a boolean and jump when it is true, and false, going on
/// after their operand otherwise.
pub proof fn lemma_listed_instructions(s: Seq<Value>, ip: int, l: Seq<Value>, code: Seq<u8>, consts: Seq<Value>,
    x: i32, c: bool, d: bool, v: Value)
    requires
        0 <= ip < code.len(),
    ensures
        ({
            let name = mnemonic(code[ip]);
            let on_int = step_spec((s.push(Value::Integer(x)), ip, l), code, consts);
            let on_bool = step_spec((s.push(Value::Boolean(c)), ip, l), code, consts);
            let on_bools = step_spec((s.push(Value::Boolean(c)).push(Value::Boolean(d)), ip, l), code, consts);
            let on_value = step_spec((s.push(v), ip, l), code, consts);
            let target = ip + 5 + operand_i32(code, ip);
            &&& name == "I32NEGATE"@ && x != i32::MIN
                ==> on_int == ((s.push(Value::Integer((-x) as i32)), ip + 1, l), Event::Continue)
            &&& name == "I32PRINT"@ ==> on_int == ((s, ip + 1, l), Event::PrintInt(x))
            &&& name == "BPRINT"@ ==> on_bool == ((s, ip + 1, l), Event::PrintBool(c))
            &&& name == "BEQUAL"@ ==> on_bools == ((s.push(Value::Boolean(c == d)), ip + 1, l), Event::Continue)
            &&& name == "BNEQUAL"@ ==> on_bools == ((s.push(Value::Boolean(c != d)), ip + 1, l), Event::Continue)
            &&& name == "POP"@ ==> on_value == ((s, ip + 1, l), Event::Continue)
            &&& name == "DUP"@ ==> on_value == ((s.push(v).push(v), ip + 1, l), Event::Continue)
            &&& name == "HALT"@ ==> on_int == ((s, ip + 1, l), Event::Halt(x))
            &&& name == "LOADCONST"@ && ip + 4 <= code.len() && operand_u24(code, ip) < consts.len()
                ==> step_spec((s, ip, l), code, consts)
                    == ((s.push(consts[operand_u24(code, ip)]), ip + 4, l), Event::Continue)
            &&& name == "JMP"@ && ip + 5 <= code.len() && 0 <= target <= code.len()
                ==> step_spec((s, ip, l), code, consts) == ((s, target, l), Event::Continue)
            &&& name == "JMPTRUE"@ && ip + 5 <= code.len()
                ==> on_bool == if c && 0 <= target <= code.len() {
                    ((s, target, l), Event::Continue)
                } else if c {
                    ((s, ip, l), Event::Fault(Fault::JumpOutOfRange))
                } else {
                    ((s, ip + 5, l), Event::Continue)
                }
            &&& name == "JMPFALSE"@ && ip + 5 <= code.len()
                ==> on_bool == if !c && 0 <= target <= code.len() {
                    ((s, target, l), Event::Continue)
                } else if !c {
                    ((s, ip, l), Event::Fault(Fault::JumpOutOfRange))
                } else {
                    ((s, ip + 5, l), Event::Continue)
                }
        }),
{
    let b = code[ip];
    assert(s.push(Value::Boolean(c)).push(Value::Boolean(d)).subrange(0, s.len() as int) =~= s);
    assert(s.push(v).drop_last() =~= s);
    assert(s.push(Value::Integer(x)).drop_last() =~= s);
    assert(s.push(Value::Boolean(c)).drop_last() =~= s);
    if mnemonic(b) == mnemonic(0) { lemma_mnemonic_byte(b, 0); }
    if mnemonic(b) == mnemonic(5) { lemma_mnemonic_byte(b, 5); }
    if mnemonic(b) == mnemonic(6) { lemma_mnemonic_byte(b, 6); }
    if mnemonic(b) == mnemonic(7) { lemma_mnemonic_byte(b, 7); }
    if mnemonic(b) == mnemonic(8) { lemma_mnemonic_byte(b, 8); }
    if mnemonic(b) == mnemonic(11) { lemma_mnemonic_byte(b, 11); }
    if mnemonic(b) == mnemonic(16) { lemma_mnemonic_byte(b, 16); }
    if mnemonic(b) == mnemonic(17) { lemma_mnemonic_byte(b, 17); }
    if mnemonic(b) == mnemonic(22) { lemma_mnemonic_byte(b, 22); }
    if mnemonic(b) == mnemonic(23) { lemma_mnemonic_byte(b, 23); }
    if mnemonic(b) == mnemonic(24) { lemma_mnemonic_byte(b, 24); }
    if mnemonic(b) == mnemonic(25) { lemma_mnemonic_byte(b, 25); }
}


/// A listing shows as operands exactly the bytes that the machine reads
/// after an opcode: a step that goes on from an instruction the listing
/// names goes on just past its operand bytes, unless the instruction is a
/// jump (`JMP`, `JMPTRUE`, `JMPFALSE`) and goes to its target.
#[verifier::rlimit(40)]
pub proof fn lemma_listed_operands(st: State, code: Seq<u8>, consts: Seq<Value>)
    requires
        0 <= st.1 < code.len(),
        code[st.1] < 26,
    ensures
        ({
            let ip = st.1;
            let b = code[ip];
            let name = mnemonic(b);
            let r = step_spec(st, code, consts);
            (r.1 is Continue || r.1 is PrintInt || r.1 is PrintBool)
                ==> r.0.1 == ip + 1 + operand_width(b)
                    || ((name == "JMP"@ || name == "JMPTRUE"@ || name == "JMPFALSE"@)
                        && r.0.1 == ip + 5 + operand_i32(code, ip))
        }),
{
    let b = code[st.1];
    if mnemonic(b) == mnemonic(22) { lemma_mnemonic_byte(b, 22); }
    if mnemonic(b) == mnemonic(23) { lemma_mnemonic_byte(b, 23); }
    if mnemonic(b) == mnemonic(24) { lemma_mnemonic_byte(b, 24); }
}

} // verus!
