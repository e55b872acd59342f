//! The lexer: from the characters of a source text to its tokens.

pub mod lexer;
pub mod token_map;
pub mod tokens;
