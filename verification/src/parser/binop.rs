//! Binary operators and their precedence.

use vstd::prelude::*;

verus! {

/// A binary operator of the language.
#[derive(Clone, Copy, Debug, PartialEq, Eq, Structural)]
pub enum BinaryOp {
    Mul,
    Div,
    Mod,
    Add,
    Sub,
    LShift,
    RShift,
    BitAnd,
    BitXor,
    BitOr,
    LT,
    GT,
    LE,
    GE,
    EQ,
    NE,
    And,
    Or,
}

impl BinaryOp {
    /// The precedence level of the operator: a lower level binds tighter.
    pub open spec fn level(self) -> int {
        match self {
            BinaryOp::Mul | BinaryOp::Div | BinaryOp::Mod => 2,
            BinaryOp::Add | BinaryOp::Sub => 3,
            BinaryOp::LShift | BinaryOp::RShift => 4,
            BinaryOp::BitAnd => 5,
            BinaryOp::BitXor => 6,
            BinaryOp::BitOr => 7,
            BinaryOp::LT | BinaryOp::GT | BinaryOp::LE | BinaryOp::GE | BinaryOp::EQ
            | BinaryOp::NE => 8,
            BinaryOp::And => 9,
            BinaryOp::Or => 10,
        }
    }

    pub fn precedence_level(&self) -> (level: i8)
        ensures
            level == self.level(),
    {
        match self {
            BinaryOp::Mul | BinaryOp::Div | BinaryOp::Mod => 2,
            BinaryOp::Add | BinaryOp::Sub => 3,
            BinaryOp::LShift | BinaryOp::RShift => 4,
            BinaryOp::BitAnd => 5,
            BinaryOp::BitXor => 6,
            BinaryOp::BitOr => 7,
            BinaryOp::LT | BinaryOp::GT | BinaryOp::LE | BinaryOp::GE | BinaryOp::EQ
            | BinaryOp::NE => 8,
            BinaryOp::And => 9,
            BinaryOp::Or => 10,
        }
    }

    pub open spec fn spec_symbol(&self) -> Seq<char> {
        match self {
            BinaryOp::Mul => "*"@,
            BinaryOp::Div => "/"@,
            BinaryOp::Mod => "%"@,
            BinaryOp::Add => "+"@,
            BinaryOp::Sub => "-"@,
            BinaryOp::LShift => "<<"@,
            BinaryOp::RShift => ">>"@,
            BinaryOp::BitAnd => "&"@,
            BinaryOp::BitXor => "^"@,
            BinaryOp::BitOr => "|"@,
            BinaryOp::LT => "<"@,
            BinaryOp::GT => ">"@,
            BinaryOp::LE => "<="@,
            BinaryOp::GE => ">="@,
            BinaryOp::EQ => "=="@,
            BinaryOp::NE => "!="@,
            BinaryOp::And => "and"@,
            BinaryOp::Or => "or"@,
        }
    }

    /// The operator as it is written.
    pub fn symbol(&self) -> (symbol: &'static str)
        ensures
            symbol@ == self.spec_symbol(),
    {
        match self {
            BinaryOp::Mul => "*",
            BinaryOp::Div => "/",
            BinaryOp::Mod => "%",
            BinaryOp::Add => "+",
            BinaryOp::Sub => "-",
            BinaryOp::LShift => "<<",
            BinaryOp::RShift => ">>",
            BinaryOp::BitAnd => "&",
            BinaryOp::BitXor => "^",
            BinaryOp::BitOr => "|",
            BinaryOp::LT => "<",
            BinaryOp::GT => ">",
            BinaryOp::LE => "<=",
            BinaryOp::GE => ">=",
            BinaryOp::EQ => "==",
            BinaryOp::NE => "!=",
            BinaryOp::And => "and",
            BinaryOp::Or => "or",
        }
    }
}

} // verus!
