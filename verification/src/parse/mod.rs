//! The parser and its syntax tree.
pub mod ast;
pub mod grammar;
pub mod parser;
pub mod span;

pub use parser::Parser;
