//! A small ahead-of-time compiler for a restricted scripting language:
//! characters become tokens, tokens become a syntax tree, and the tree is
//! lowered into a typed intermediate representation that LLVM builds into a
//! module.

pub mod ast;
pub mod cli;
pub mod codegen;
pub mod lexer;
pub mod parser;

pub use ast::Assignment;
pub use ast::Binary;
pub use ast::BinaryOperator;
pub use ast::Call;
pub use ast::Expression;
pub use ast::FString;
pub use ast::FStringPart;
pub use ast::Function;
pub use ast::Identifier;
pub use ast::If;
pub use ast::Literal;
pub use ast::LiteralValue;
pub use ast::Node;
pub use ast::Program;
pub use ast::Return;
pub use ast::Unary;
pub use ast::UnaryOperator;
pub use ast::While;
pub use codegen::CodeGenerator;
pub use lexer::Lexer;
pub use parser::Parser;
