//! The first instruction set of the virtual machine: integer arithmetic,
//! constants and printing.
pub mod compiler;
pub mod opcodes;
