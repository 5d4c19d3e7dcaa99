//! An interpreter and a type checker for a small imperative language.

pub mod ast;
pub mod escape;
pub mod interpreter;
pub mod memory;
pub mod parser;
pub mod text;
pub mod type_checker;

pub use ast::SyntaxTree;
