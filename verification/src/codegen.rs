//! Bytecode: chunks, constants and the programs made of them.

pub mod chunk;
pub mod compiler;
pub mod errors;
pub mod jumps;
pub mod opcodes;
