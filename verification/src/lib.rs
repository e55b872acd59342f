//! A small ahead-of-time compiler, verified: the lexer and the parser, the
//! generator that lowers a syntax tree into a positional intermediate
//! representation, the peephole optimizer that keeps every relative
//! reference anchored while it rewrites, and the emitter that writes the
//! program as assembly.

pub mod flags;
pub mod ir_gen;
pub mod lexer;
pub mod outputs;
pub mod parser;
pub mod text;
pub mod tok;
