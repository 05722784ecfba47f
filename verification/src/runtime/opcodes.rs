//! The instruction set of the virtual machine: one byte per opcode.
use crate::analysis::types::Conversion;
use vstd::prelude::*;

verus! {

/// An instruction of the virtual machine. Its byte is its position in this
/// list, from `0x00` for `Halt` to `0x2B` for `ReturnVal`.
#[derive(Debug, Copy, Clone, PartialEq, Eq, Structural)]
pub enum OpCode {
    /// Stops the machine; the integer on top of the stack is the exit code.
    Halt,
    /// Pops two integers and pushes their sum.
    I32Add,
    /// Pops two integers and pushes their difference.
    I32Sub,
    /// Pops two integers and pushes their product.
    I32Mul,
    /// Pops two integers and pushes their quotient.
    I32Div,
    /// Pops an integer and pushes its negation.
    I32Negate,
    /// Pushes the constant whose index is the 3-byte little-endian operand.
    LoadConst,
    /// Pops an integer and prints it.
    I32Print,
    /// Pops a value and discards it.
    Pop,
    /// Pushes the local whose index is the 3-byte operand.
    I32LoadLocal,
    /// Pops an integer, stores it in the local at the 3-byte operand, and pushes it back.
    I32StoreLocal,
    /// Pops a boolean and prints it.
    BPrint,
    /// Pushes the boolean local at the 3-byte operand.
    BLoadLocal,
    /// Pops a boolean, stores it in the local at the 3-byte operand, and pushes it back.
    BStoreLocal,
    /// Integer equality.
    I32Equal,
    /// Integer inequality.
    I32NEqual,
    /// Boolean equality.
    BEqual,
    /// Boolean inequality.
    BNEqual,
    /// Integer comparison: less than.
    I32Less,
    /// Integer comparison: at most.
    I32LessEq,
    /// Integer comparison: greater than.
    I32Greater,
    /// Integer comparison: at least.
    I32GreaterEq,
    /// Jumps by the 4-byte little-endian offset, counted from the end of the operand.
    Jmp,
    /// Pops a boolean and jumps by the 4-byte offset when it is true.
    JmpTrue,
    /// Pops a boolean and jumps by the 4-byte offset when it is false.
    JmpFalse,
    /// Pushes a copy of the value on top.
    Dup,
    /// Double addition.
    F64Add,
    /// Double subtraction.
    F64Sub,
    /// Double multiplication.
    F64Mul,
    /// Double division.
    F64Div,
    /// Double negation.
    F64Negate,
    /// Pops a double and prints it.
    F64Print,
    /// Pushes the double local at the 3-byte operand.
    F64LoadLocal,
    /// Pops a double, stores it in the local at the 3-byte operand, and pushes it back.
    F64StoreLocal,
    /// Double equality.
    F64Equal,
    /// Double inequality.
    F64NEqual,
    /// Double comparison: less than.
    F64Less,
    /// Double comparison: at most.
    F64LessEq,
    /// Double comparison: greater than.
    F64Greater,
    /// Double comparison: at least.
    F64GreaterEq,
    /// Converts the integer on top of the stack to a double.
    I32ToF64,
    /// Calls the function whose index is the 3-byte operand.
    Call,
    /// Returns from a function that gives no value.
    Return,
    /// Returns from a function that gives one value.
    ReturnVal,
}

/// The byte that encodes `op`.
pub open spec fn opcode_byte(op: OpCode) -> u8 {
    match op {
        OpCode::Halt => 0u8,
        OpCode::I32Add => 1u8,
        OpCode::I32Sub => 2u8,
        OpCode::I32Mul => 3u8,
        OpCode::I32Div => 4u8,
        OpCode::I32Negate => 5u8,
        OpCode::LoadConst => 6u8,
        OpCode::I32Print => 7u8,
        OpCode::Pop => 8u8,
        OpCode::I32LoadLocal => 9u8,
        OpCode::I32StoreLocal => 10u8,
        OpCode::BPrint => 11u8,
        OpCode::BLoadLocal => 12u8,
        OpCode::BStoreLocal => 13u8,
        OpCode::I32Equal => 14u8,
        OpCode::I32NEqual => 15u8,
        OpCode::BEqual => 16u8,
        OpCode::BNEqual => 17u8,
        OpCode::I32Less => 18u8,
        OpCode::I32LessEq => 19u8,
        OpCode::I32Greater => 20u8,
        OpCode::I32GreaterEq => 21u8,
        OpCode::Jmp => 22u8,
        OpCode::JmpTrue => 23u8,
        OpCode::JmpFalse => 24u8,
        OpCode::Dup => 25u8,
        OpCode::F64Add => 26u8,
        OpCode::F64Sub => 27u8,
        OpCode::F64Mul => 28u8,
        OpCode::F64Div => 29u8,
        OpCode::F64Negate => 30u8,
        OpCode::F64Print => 31u8,
        OpCode::F64LoadLocal => 32u8,
        OpCode::F64StoreLocal => 33u8,
        OpCode::F64Equal => 34u8,
        OpCode::F64NEqual => 35u8,
        OpCode::F64Less => 36u8,
        OpCode::F64LessEq => 37u8,
        OpCode::F64Greater => 38u8,
        OpCode::F64GreaterEq => 39u8,
        OpCode::I32ToF64 => 40u8,
        OpCode::Call => 41u8,
        OpCode::Return => 42u8,
        OpCode::ReturnVal => 43u8,
    }
}

/// The opcode that byte `b` encodes, if any.
pub open spec fn opcode_of(b: u8) -> Option<OpCode> {
    if b == 0u8 {
        Some(OpCode::Halt)
    } else if b == 1u8 {
        Some(OpCode::I32Add)
    } else if b == 2u8 {
        Some(OpCode::I32Sub)
    } else if b == 3u8 {
        Some(OpCode::I32Mul)
    } else if b == 4u8 {
        Some(OpCode::I32Div)
    } else if b == 5u8 {
        Some(OpCode::I32Negate)
    } else if b == 6u8 {
        Some(OpCode::LoadConst)
    } else if b == 7u8 {
        Some(OpCode::I32Print)
    } else if b == 8u8 {
        Some(OpCode::Pop)
    } else if b == 9u8 {
        Some(OpCode::I32LoadLocal)
    } else if b == 10u8 {
        Some(OpCode::I32StoreLocal)
    } else if b == 11u8 {
        Some(OpCode::BPrint)
    } else if b == 12u8 {
        Some(OpCode::BLoadLocal)
    } else if b == 13u8 {
        Some(OpCode::BStoreLocal)
    } else if b == 14u8 {
        Some(OpCode::I32Equal)
    } else if b == 15u8 {
        Some(OpCode::I32NEqual)
    } else if b == 16u8 {
        Some(OpCode::BEqual)
    } else if b == 17u8 {
        Some(OpCode::BNEqual)
    } else if b == 18u8 {
        Some(OpCode::I32Less)
    } else if b == 19u8 {
        Some(OpCode::I32LessEq)
    } else if b == 20u8 {
        Some(OpCode::I32Greater)
    } else if b == 21u8 {
        Some(OpCode::I32GreaterEq)
    } else if b == 22u8 {
        Some(OpCode::Jmp)
    } else if b == 23u8 {
        Some(OpCode::JmpTrue)
    } else if b == 24u8 {
        Some(OpCode::JmpFalse)
    } else if b == 25u8 {
        Some(OpCode::Dup)
    } else if b == 26u8 {
        Some(OpCode::F64Add)
    } else if b == 27u8 {
        Some(OpCode::F64Sub)
    } else if b == 28u8 {
        Some(OpCode::F64Mul)
    } else if b == 29u8 {
        Some(OpCode::F64Div)
    } else if b == 30u8 {
        Some(OpCode::F64Negate)
    } else if b == 31u8 {
        Some(OpCode::F64Print)
    } else if b == 32u8 {
        Some(OpCode::F64LoadLocal)
    } else if b == 33u8 {
        Some(OpCode::F64StoreLocal)
    } else if b == 34u8 {
        Some(OpCode::F64Equal)
    } else if b == 35u8 {
        Some(OpCode::F64NEqual)
    } else if b == 36u8 {
        Some(OpCode::F64Less)
    } else if b == 37u8 {
        Some(OpCode::F64LessEq)
    } else if b == 38u8 {
        Some(OpCode::F64Greater)
    } else if b == 39u8 {
        Some(OpCode::F64GreaterEq)
    } else if b == 40u8 {
        Some(OpCode::I32ToF64)
    } else if b == 41u8 {
        Some(OpCode::Call)
    } else if b == 42u8 {
        Some(OpCode::Return)
    } else if b == 43u8 {
        Some(OpCode::ReturnVal)
    } else {
        None
    }
}

impl OpCode {
    /// The byte that encodes this opcode.
    pub fn to_byte(self) -> (b: u8)
        ensures
            b == opcode_byte(self),
    {
        match self {
            OpCode::Halt => 0u8,
            OpCode::I32Add => 1u8,
            OpCode::I32Sub => 2u8,
            OpCode::I32Mul => 3u8,
            OpCode::I32Div => 4u8,
            OpCode::I32Negate => 5u8,
            OpCode::LoadConst => 6u8,
            OpCode::I32Print => 7u8,
            OpCode::Pop => 8u8,
            OpCode::I32LoadLocal => 9u8,
            OpCode::I32StoreLocal => 10u8,
            OpCode::BPrint => 11u8,
            OpCode::BLoadLocal => 12u8,
            OpCode::BStoreLocal => 13u8,
            OpCode::I32Equal => 14u8,
            OpCode::I32NEqual => 15u8,
            OpCode::BEqual => 16u8,
            OpCode::BNEqual => 17u8,
            OpCode::I32Less => 18u8,
            OpCode::I32LessEq => 19u8,
            OpCode::I32Greater => 20u8,
            OpCode::I32GreaterEq => 21u8,
            OpCode::Jmp => 22u8,
            OpCode::JmpTrue => 23u8,
            OpCode::JmpFalse => 24u8,
            OpCode::Dup => 25u8,
            OpCode::F64Add => 26u8,
            OpCode::F64Sub => 27u8,
            OpCode::F64Mul => 28u8,
            OpCode::F64Div => 29u8,
            OpCode::F64Negate => 30u8,
            OpCode::F64Print => 31u8,
            OpCode::F64LoadLocal => 32u8,
            OpCode::F64StoreLocal => 33u8,
            OpCode::F64Equal => 34u8,
            OpCode::F64NEqual => 35u8,
            OpCode::F64Less => 36u8,
            OpCode::F64LessEq => 37u8,
            OpCode::F64Greater => 38u8,
            OpCode::F64GreaterEq => 39u8,
            OpCode::I32ToF64 => 40u8,
            OpCode::Call => 41u8,
            OpCode::Return => 42u8,
            OpCode::ReturnVal => 43u8,
        }
    }

    /// The opcode that `b` encodes, or `None` for a byte past `0x2B`.
    pub fn try_from_byte(b: u8) -> (r: Option<OpCode>)
        ensures
            r == opcode_of(b),
    {
        match b {
            0u8 => Some(OpCode::Halt),
            1u8 => Some(OpCode::I32Add),
            2u8 => Some(OpCode::I32Sub),
            3u8 => Some(OpCode::I32Mul),
            4u8 => Some(OpCode::I32Div),
            5u8 => Some(OpCode::I32Negate),
            6u8 => Some(OpCode::LoadConst),
            7u8 => Some(OpCode::I32Print),
            8u8 => Some(OpCode::Pop),
            9u8 => Some(OpCode::I32LoadLocal),
            10u8 => Some(OpCode::I32StoreLocal),
            11u8 => Some(OpCode::BPrint),
            12u8 => Some(OpCode::BLoadLocal),
            13u8 => Some(OpCode::BStoreLocal),
            14u8 => Some(OpCode::I32Equal),
            15u8 => Some(OpCode::I32NEqual),
            16u8 => Some(OpCode::BEqual),
            17u8 => Some(OpCode::BNEqual),
            18u8 => Some(OpCode::I32Less),
            19u8 => Some(OpCode::I32LessEq),
            20u8 => Some(OpCode::I32Greater),
            21u8 => Some(OpCode::I32GreaterEq),
            22u8 => Some(OpCode::Jmp),
            23u8 => Some(OpCode::JmpTrue),
            24u8 => Some(OpCode::JmpFalse),
            25u8 => Some(OpCode::Dup),
            26u8 => Some(OpCode::F64Add),
            27u8 => Some(OpCode::F64Sub),
            28u8 => Some(OpCode::F64Mul),
            29u8 => Some(OpCode::F64Div),
            30u8 => Some(OpCode::F64Negate),
            31u8 => Some(OpCode::F64Print),
            32u8 => Some(OpCode::F64LoadLocal),
            33u8 => Some(OpCode::F64StoreLocal),
            34u8 => Some(OpCode::F64Equal),
            35u8 => Some(OpCode::F64NEqual),
            36u8 => Some(OpCode::F64Less),
            37u8 => Some(OpCode::F64LessEq),
            38u8 => Some(OpCode::F64Greater),
            39u8 => Some(OpCode::F64GreaterEq),
            40u8 => Some(OpCode::I32ToF64),
            41u8 => Some(OpCode::Call),
            42u8 => Some(OpCode::Return),
            43u8 => Some(OpCode::ReturnVal),
            _ => None,
        }
    }

    /// The instruction that performs `conversion`.
    pub fn from_conversion(conversion: Conversion) -> (op: OpCode)
        ensures
            conversion == Conversion::IntToDouble ==> op == OpCode::I32ToF64,
    {
        match conversion {
            Conversion::IntToDouble => OpCode::I32ToF64,
        }
    }
}

/// Decoding undoes encoding: every opcode is read back from its byte.
pub proof fn lemma_opcode_roundtrip(op: OpCode)
    ensures
        opcode_of(opcode_byte(op)) == Some(op),
{
}

/// Encoding undoes decoding: a byte that decodes is the byte of its opcode,
/// and exactly the bytes below `0x2C` decode.
pub proof fn lemma_byte_roundtrip(b: u8)
    ensures
        opcode_of(b) is Some <==> b < 44,
        opcode_of(b) matches Some(op) ==> opcode_byte(op) == b,
{
}

} // verus!
