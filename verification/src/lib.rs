//! An interpreter for the Sphinx scripting language: a scanner, a parser, a
//! compiler to bytecode, and a virtual machine that runs it.

pub mod codegen;
pub mod debug;
pub mod frontend;
pub mod language;
pub mod lexer;
pub mod parser;
pub mod repl;
pub mod runtime;
pub mod source;
pub mod utils;

pub use frontend::{build_module, compile_ast, parse_source, BuildErrors};
