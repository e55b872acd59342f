//! The back ends.

pub mod asm_x86_64;
