//! Code generation: a syntax tree becomes a typed, low-level intermediate
//! representation, which LLVM then builds into a module.

pub mod blocks;
pub mod calls;
pub mod codegen;
pub mod ir;
pub mod laws;
pub mod llvm;
pub mod lowering;
pub mod meaning;
pub mod rules;
pub mod running;
pub mod scope;
pub mod targets;
pub mod types;

pub use codegen::CodeGenerator;
pub use lowering::CodegenError;
pub use lowering::Lowering;
