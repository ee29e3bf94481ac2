//! Lexical analysis: source characters to tokens.

pub mod laws;
pub mod lexer;
pub mod rules;
pub mod text;
pub mod token;

pub use lexer::Lexer;
pub use token::Token;
pub use token::TokenView;
