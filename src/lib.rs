pub mod common;
pub mod emitter;
pub mod lexer;
pub mod llvm_codegen;
pub mod llvm_emit;
pub mod parser;
mod text;
pub mod type_system;
