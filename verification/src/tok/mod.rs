//! The tokens of the source language.

pub mod token_other;
