//! The middle end: the intermediate representation, the program that holds
//! it, the generator that lowers a syntax tree into it and the optimizer
//! that rewrites it, each with its model and the laws proved of it; and a
//! machine that runs the intermediate representation, by which the
//! optimizer is shown to keep what a program does.

pub mod ctimeval;
pub mod error;
pub mod external;
pub mod global;
pub mod ir;
pub mod symbol;
pub mod typeval;
pub mod variable;

pub mod pool;
pub mod program;
pub mod realign;
pub mod scope;

pub mod gen_model;
pub mod ir_gen;
pub mod ir_optimizer;

pub mod equivalence;
pub mod machine;
pub mod rule_laws;
pub mod runner;
pub mod settled;
pub mod simulation;

pub mod balance;
pub mod gen_anchor;
pub mod gen_laws;
pub mod gen_scopes;
pub mod gen_settled;
pub mod gen_stable;
pub mod segment;
pub mod typing;
