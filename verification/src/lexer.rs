//! The scanner: rules that recognise lexemes, and the lexer that drives them.

pub mod language;
pub mod laws;
pub mod lexer;
pub mod rules;
pub mod token;
pub mod tokenizer;
