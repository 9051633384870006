//! Values, functions and errors of the virtual machine.

pub mod cells;
pub mod echo;
pub mod errors;
pub mod function;
pub mod gc;
pub mod globals;
pub mod module;
pub mod ops;
pub mod strings;
pub mod types;
pub mod variant;
pub mod vm;
