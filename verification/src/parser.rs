//! Syntax-level data shared by the parser and the code generator.

pub mod binop;
pub mod errors;
pub mod expr;
pub mod laws;
pub mod parser;
pub mod primary;
pub mod stmt;
