//! Debug information: where in the source text a piece of a program came from.

pub mod dasm;
pub mod symbol;
pub mod traceback;
