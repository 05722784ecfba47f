//! A small compiled language: lexing, parsing, semantic analysis, bytecode
//! generation and a bytecode virtual machine, each stated and proved with Verus.

pub mod collections;
pub mod span;
pub mod stack;
pub mod text;
pub mod lex;
pub mod lexer;
pub mod parse;
pub mod parser;
pub mod analysis;
pub mod bytecode;
pub mod diagnostics;
pub mod execution;
pub mod options;
pub mod runtime;
pub mod compiler;
