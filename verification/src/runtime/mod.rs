//! The bytecode the compiler emits and the virtual machine that runs it.
pub mod chunk;
pub mod disassembler;
pub mod opcodes;
pub mod stack;
pub mod value;
pub mod vm;
