//! The instructions of the first instruction set.
use vstd::prelude::*;

verus! {

#[derive(Debug, Clone, Copy, PartialEq, Eq, Structural)]
pub enum Opcode {
    /// Halts the virtual machine.
    Halt,
    /// Pops two ints, pushes their sum.
    Iadd,
    /// Pops two ints, pushes their difference.
    Isub,
    /// Pops two ints, pushes their product.
    Imul,
    /// Pops two ints, pushes their quotient.
    Idiv,
    /// Pushes the constant at the index of its 3-byte operand.
    Loadconst,
    /// Pops an int and prints it.
    Iprint,
}

/// The byte that encodes `op`.
pub open spec fn opcode_value(op: Opcode) -> u8 {
    match op {
        Opcode::Halt => 0,
        Opcode::Iadd => 1,
        Opcode::Isub => 2,
        Opcode::Imul => 3,
        Opcode::Idiv => 4,
        Opcode::Loadconst => 5,
        Opcode::Iprint => 6,
    }
}

impl Opcode {
    /// The byte that encodes this instruction.
    pub fn to_byte(self) -> (b: u8)
        ensures
            b == opcode_value(self),
    {
        match self {
            Opcode::Halt => 0,
            Opcode::Iadd => 1,
            Opcode::Isub => 2,
            Opcode::Imul => 3,
            Opcode::Idiv => 4,
            Opcode::Loadconst => 5,
            Opcode::Iprint => 6,
        }
    }
}

/// Different instructions have different bytes.
pub proof fn lemma_opcode_value_injective(a: Opcode, b: Opcode)
    ensures
        opcode_value(a) == opcode_value(b) <==> a == b,
{
}

} // verus!
