//! The terminals of the language.

use vstd::prelude::*;
use crate::runtime::strings::InternSymbol;

verus! {

/// A terminal of the grammar.
#[derive(Debug, Clone, Copy, PartialEq, Eq)]
pub enum Token {
    // punctuation
    OpenParen,
    CloseParen,
    OpenSquare,
    CloseSquare,
    OpenBrace,
    CloseBrace,
    Comma,
    Colon,
    Semicolon,
    Ellipsis,
    // operators
    OpAccess,
    OpAssign,
    OpAdd,
    OpSub,
    OpMul,
    OpDiv,
    OpMod,
    OpInv,
    OpNot,
    OpAnd,
    OpOr,
    OpXor,
    OpLShift,
    OpRShift,
    OpLT,
    OpLE,
    OpGT,
    OpGE,
    OpEQ,
    OpNE,
    // keywords
    And,
    Or,
    True,
    False,
    Nil,
    Let,
    Var,
    If,
    Else,
    While,
    For,
    In,
    Fun,
    Class,
    Self_,
    Super,
    Echo,
    Assert,
    Return,
    Break,
    Continue,
    // literals
    Identifier(InternSymbol),
    StringLiteral(InternSymbol),
    IntegerLiteral(i64),
    /// A float literal, as the little-endian bytes of its binary64 form.
    FloatLiteral([u8; 8]),
    // end of input
    EOF,
}

} // verus!
