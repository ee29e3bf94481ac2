//! Syntax analysis: tokens to a syntax tree.

pub mod grammar;
pub mod parser;

pub use parser::Parser;
