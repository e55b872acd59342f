//! The parser: from tokens to the syntax tree.

pub mod ast;
pub mod parser;
