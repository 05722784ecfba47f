//! A parser for arithmetic expressions over the tokens of the arithmetic
//! lexer.
pub mod ast;
pub mod node_id;
pub mod parser;
