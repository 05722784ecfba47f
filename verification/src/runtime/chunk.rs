//! A chunk of bytecode with its pool of constants, and the encodings of the
//! operands that instructions carry.
use crate::runtime::opcodes::{opcode_byte, OpCode};
use crate::runtime::value::{value_eq, Value};
use vstd::prelude::*;
use vstd::std_specs::cmp::PartialEqSpecImpl;

verus! {

/// The three bytes of `x`, least significant first.
pub open spec fn u24_bytes(x: int) -> Seq<u8> {
    seq![(x % 256) as u8, ((x / 256) % 256) as u8, ((x / 65536) % 256) as u8]
}

/// The value of three little-endian bytes.
pub open spec fn u24_value(b0: u8, b1: u8, b2: u8) -> int {
    b0 + 256 * b1 + 65536 * b2
}

/// The four bytes of the 32-bit two's complement encoding of `x`, least
/// significant first.
pub open spec fn i32_bytes(x: int) -> Seq<u8> {
    let u = if x >= 0 { x } else { x + 0x1_0000_0000 };
    seq![(u % 256) as u8, ((u / 256) % 256) as u8, ((u / 65536) % 256) as u8, ((u / 16777216) % 256) as u8]
}

/// The value of four little-endian bytes read as a 32-bit two's complement
/// integer.
pub open spec fn i32_value(b0: u8, b1: u8, b2: u8, b3: u8) -> int {
    let u = b0 + 256 * b1 + 65536 * b2 + 16777216 * b3;
    if u < 0x8000_0000 { u } else { u - 0x1_0000_0000 }
}

/// Where the jump instruction at `pos` of `code` lands: its 4-byte offset
/// counts from the end of the instruction.
pub open spec fn jump_target(code: Seq<u8>, pos: int) -> int {
    pos + 5 + i32_value(code[pos + 1], code[pos + 2], code[pos + 3], code[pos + 4])
}

/// Reading back three bytes written for `x` gives `x`.
pub proof fn lemma_u24_roundtrip(x: int)
    requires
        0 <= x < 0x100_0000,
    ensures
        u24_value(u24_bytes(x)[0], u24_bytes(x)[1], u24_bytes(x)[2]) == x,
{
}

/// Reading back four bytes written for `x` gives `x`.
pub proof fn lemma_i32_roundtrip(x: int)
    requires
        i32::MIN <= x <= i32::MAX,
    ensures
        i32_value(i32_bytes(x)[0], i32_bytes(x)[1], i32_bytes(x)[2], i32_bytes(x)[3]) == x,
{
}

/// The value of three little-endian bytes.
pub fn decode_u24_le(bytes: [u8; 3]) -> (v: u32)
    ensures
        v == u24_value(bytes[0], bytes[1], bytes[2]),
{
    bytes[0] as u32 + 256 * (bytes[1] as u32) + 65536 * (bytes[2] as u32)
}

/// The value of four little-endian bytes as a 32-bit two's complement
/// integer.
pub fn decode_i32_le(bytes: [u8; 4]) -> (v: i32)
    ensures
        v == i32_value(bytes[0], bytes[1], bytes[2], bytes[3]),
{
    let u: u32 = bytes[0] as u32 + 256 * (bytes[1] as u32) + 65536 * (bytes[2] as u32)
        + 16777216 * (bytes[3] as u32);
    if u < 0x8000_0000 {
        u as i32
    } else {
        ((u - 0x8000_0000) as i32) - 0x7FFF_FFFF - 1
    }
}

/// The four bytes of `x`, least significant first.
fn i32_to_le_bytes(x: i32) -> (b: [u8; 4])
    ensures
        b@ == i32_bytes(x as int),
{
    let u: u32 = if x >= 0 {
        x as u32
    } else {
        ((x + 0x7FFF_FFFF + 1) as u32) + 0x8000_0000
    };
    let b = [(u % 256) as u8, ((u / 256) % 256) as u8, ((u / 65536) % 256) as u8, ((u / 16777216) % 256) as u8];
    assert(b@ =~= i32_bytes(x as int));
    b
}

/// Bytecode and the constants it loads.
#[derive(Debug)]
pub struct Chunk {
    pub bytecode: Vec<u8>,
    pub constants: Vec<Value>,
}

impl Chunk {
    /// An empty chunk.
    pub fn new() -> (c: Self)
        ensures
            c.bytecode@ == Seq::<u8>::empty(),
            c.constants@ == Seq::<Value>::empty(),
    {
        Chunk { bytecode: Vec::new(), constants: Vec::new() }
    }

    /// A chunk made of the given bytecode and constants.
    pub fn new_from_existing(bytecode: Vec<u8>, constants: Vec<Value>) -> (c: Self)
        ensures
            c.bytecode@ == bytecode@,
            c.constants@ == constants@,
    {
        Chunk { bytecode, constants }
    }

    /// Appends one byte.
    pub fn write(&mut self, byte: u8)
        ensures
            final(self).bytecode@ == old(self).bytecode@.push(byte),
            final(self).constants@ == old(self).constants@,
    {
        self.bytecode.push(byte);
    }

    /// Appends the three bytes of `u24`, least significant first. `u24`
    /// must be below `0xFF_FFFF`.
    pub fn write_u24(&mut self, u24: u32)
        requires
            u24 < 0xFF_FFFF,
        ensures
            final(self).bytecode@ == old(self).bytecode@ + u24_bytes(u24 as int),
            final(self).constants@ == old(self).constants@,
    {
        self.write((u24 % 256) as u8);
        self.write(((u24 / 256) % 256) as u8);
        self.write(((u24 / 65536) % 256) as u8);
        assert(self.bytecode@ =~= old(self).bytecode@ + u24_bytes(u24 as int));
    }

    /// Appends the four bytes of `x`, least significant first.
    pub fn write_i32(&mut self, x: i32)
        ensures
            final(self).bytecode@ == old(self).bytecode@ + i32_bytes(x as int),
            final(self).constants@ == old(self).constants@,
    {
        let bytes = i32_to_le_bytes(x);
        self.write(bytes[0]);
        self.write(bytes[1]);
        self.write(bytes[2]);
        self.write(bytes[3]);
        assert(self.bytecode@ =~= old(self).bytecode@ + i32_bytes(x as int));
    }

    /// Appends a jump with a zero offset, to be patched later, and gives its
    /// position.
    pub fn write_jump(&mut self, opcode: OpCode) -> (pos: usize)
        ensures
            pos == old(self).bytecode@.len(),
            final(self).bytecode@ == old(self).bytecode@ + seq![opcode_byte(opcode), 0u8, 0u8, 0u8, 0u8],
            final(self).constants@ == old(self).constants@,
    {
        let pos = self.bytecode.len();
        self.write(opcode.to_byte());
        self.write_i32(0);
        assert(i32_bytes(0) =~= seq![0u8, 0u8, 0u8, 0u8]);
        assert(self.bytecode@ =~= old(self).bytecode@ + seq![opcode_byte(opcode), 0u8, 0u8, 0u8, 0u8]);
        pos
    }

    /// Appends a jump that lands on `target`, an earlier position. Offsets
    /// are 32-bit: the code and the target must lie below `i32::MAX`.
    pub fn write_jump_back(&mut self, opcode: OpCode, target: usize)
        requires
            target <= i32::MAX,
            old(self).bytecode@.len() + 5 <= i32::MAX,
        ensures
            final(self).bytecode@ == old(self).bytecode@ + seq![opcode_byte(opcode)]
                + i32_bytes(target - (old(self).bytecode@.len() + 5)),
            jump_target(final(self).bytecode@, old(self).bytecode@.len() as int) == target,
            final(self).constants@ == old(self).constants@,
    {
        self.write(opcode.to_byte());
        let current: usize = self.bytecode.len() + 4;
        let offset: i32 = (target as i32) - (current as i32);
        self.write_i32(offset);
        proof {
            let p = old(self).bytecode@.len() as int;
            let code = self.bytecode@;
            lemma_i32_roundtrip(offset as int);
            assert(code[p + 1] == i32_bytes(offset as int)[0]);
            assert(code[p + 2] == i32_bytes(offset as int)[1]);
            assert(code[p + 3] == i32_bytes(offset as int)[2]);
            assert(code[p + 4] == i32_bytes(offset as int)[3]);
        }
    }

    /// Sets the offset of the jump at `pos` so that it lands at the end of
    /// the code. Offsets are 32-bit: the code must lie below `i32::MAX`.
    pub fn patch_jump(&mut self, pos: usize)
        requires
            pos + 5 <= old(self).bytecode@.len(),
            old(self).bytecode@.len() <= i32::MAX,
        ensures
            final(self).bytecode@ == old(self).bytecode@.subrange(0, pos + 1)
                + i32_bytes(old(self).bytecode@.len() - (pos + 5))
                + old(self).bytecode@.subrange(pos + 5, old(self).bytecode@.len() as int),
            jump_target(final(self).bytecode@, pos as int) == old(self).bytecode@.len(),
            final(self).constants@ == old(self).constants@,
    {
        let target = self.bytecode.len();
        self.patch_jump_to(pos, target);
    }

    /// Sets the offset of the jump at `jump` so that it lands on `target`.
    /// Offsets are 32-bit: the code and the target must lie below `i32::MAX`.
    pub fn patch_jump_to(&mut self, jump: usize, target: usize)
        requires
            jump + 5 <= old(self).bytecode@.len(),
            old(self).bytecode@.len() <= i32::MAX,
            target <= i32::MAX,
        ensures
            final(self).bytecode@ == old(self).bytecode@.subrange(0, jump + 1)
                + i32_bytes(target - (jump + 5))
                + old(self).bytecode@.subrange(jump + 5, old(self).bytecode@.len() as int),
            jump_target(final(self).bytecode@, jump as int) == target,
            final(self).constants@ == old(self).constants@,
    {
        let offset: i32 = (target as i32) - ((jump as i32) + 5);
        let bytes = i32_to_le_bytes(offset);
        self.bytecode.set(jump + 1, bytes[0]);
        self.bytecode.set(jump + 2, bytes[1]);
        self.bytecode.set(jump + 3, bytes[2]);
        self.bytecode.set(jump + 4, bytes[3]);
        proof {
            let o = old(self).bytecode@;
            assert(self.bytecode@ =~= o.subrange(0, jump + 1) + i32_bytes(offset as int)
                + o.subrange(jump + 5, o.len() as int));
            lemma_i32_roundtrip(offset as int);
        }
    }

    /// Adds `constant` to the pool and gives its index.
    pub fn write_constant(&mut self, constant: Value) -> (idx: usize)
        ensures
            idx == old(self).constants@.len(),
            final(self).constants@ == old(self).constants@.push(constant),
            final(self).bytecode@ == old(self).bytecode@,
    {
        let idx = self.constants.len();
        self.constants.push(constant);
        idx
    }
}


/// Two chunks compare equal: the same bytecode, and constants that compare
/// equal one by one.
pub open spec fn chunk_eq(a: Chunk, b: Chunk) -> bool {
    &&& a.bytecode@ == b.bytecode@
    &&& a.constants@.len() == b.constants@.len()
    &&& forall|i: int| 0 <= i < a.constants@.len() ==> value_eq(#[trigger] a.constants@[i], b.constants@[i])
}

impl PartialEq for Chunk {
    fn eq(&self, other: &Self) -> (r: bool) {
        if self.bytecode.len() != other.bytecode.len() || self.constants.len() != other.constants.len() {
            return false;
        }
        let mut i: usize = 0;
        while i < self.bytecode.len()
            invariant
                i <= self.bytecode@.len(),
                self.bytecode@.len() == other.bytecode@.len(),
                forall|j: int| 0 <= j < i ==> self.bytecode@[j] == other.bytecode@[j],
            decreases self.bytecode@.len() - i,
        {
            if self.bytecode[i] != other.bytecode[i] {
                return false;
            }
            i = i + 1;
        }
        assert(self.bytecode@ =~= other.bytecode@);
        let mut j: usize = 0;
        while j < self.constants.len()
            invariant
                j <= self.constants@.len(),
                self.constants@.len() == other.constants@.len(),
                forall|k: int| 0 <= k < j ==> value_eq(#[trigger] self.constants@[k], other.constants@[k]),
            decreases self.constants@.len() - j,
        {
            if !(self.constants[j] == other.constants[j]) {
                return false;
            }
            j = j + 1;
        }
        true
    }
}

impl PartialEqSpecImpl for Chunk {
    open spec fn obeys_eq_spec() -> bool {
        true
    }

    open spec fn eq_spec(&self, other: &Chunk) -> bool {
        chunk_eq(*self, *other)
    }
}

} // verus!
