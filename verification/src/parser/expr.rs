//! Expressions.

use vstd::prelude::*;
use crate::debug::symbol::DebugSymbol;
use crate::parser::binop::BinaryOp;
use crate::parser::primary::{Atom, Primary};
use crate::runtime::variant::StringSymbol;

verus! {

/// A unary operator of the language.
#[derive(Clone, Copy, Debug, PartialEq, Eq, Structural)]
pub enum UnaryOp {
    Neg,
    Pos,
    Inv,
    Not,
}

/// An expression.
#[derive(Debug)]
pub enum Expr {
    Atom(Atom),
    Primary(Primary),
    UnaryOp(UnaryOp, Box<Expr>),
    BinaryOp(BinaryOp, Box<Expr>, Box<Expr>),
    /// An assignment: what is assigned to, which is a valid target, and the
    /// value.
    Assignment(Box<Expr>, Box<Expr>),
    Tuple(Vec<ExprMeta>),
    ObjectCtor(Box<ObjectConstructor>),
}

/// An expression and the source text it came from.
#[derive(Debug)]
pub struct ExprMeta {
    pub expr: Expr,
    pub symbol: DebugSymbol,
}

/// The members that an object is made with, in the order in which they were
/// written.
#[derive(Debug)]
pub struct ObjectConstructor {
    pub members: Vec<(StringSymbol, ExprMeta)>,
}

} // verus!
