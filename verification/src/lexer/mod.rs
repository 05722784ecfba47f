//! The arithmetic lexer and its tokens.
pub mod lexer;
pub mod token;
