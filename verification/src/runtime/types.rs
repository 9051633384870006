//! The types of values, and the operations that a type may support.

use vstd::prelude::*;
use crate::runtime::variant::TypeTag;

pub mod string;
pub mod tuple;

verus! {

pub type Type = TypeTag;

impl TypeTag {
    /// The name of the type, as messages show it.
    pub open spec fn spec_name(&self) -> Seq<char> {
        match self {
            TypeTag::Nil => "nil"@,
            TypeTag::Tuple => "tuple"@,
            TypeTag::Bool => "bool"@,
            TypeTag::Integer => "int"@,
            TypeTag::Float => "float"@,
            TypeTag::String => "string"@,
            TypeTag::Object => "object"@,
        }
    }

    pub fn name(&self) -> (name: &'static str)
        ensures
            name@ == self.spec_name(),
    {
        match self {
            TypeTag::Nil => "nil",
            TypeTag::Tuple => "tuple",
            TypeTag::Bool => "bool",
            TypeTag::Integer => "int",
            TypeTag::Float => "float",
            TypeTag::String => "string",
            TypeTag::Object => "object",
        }
    }
}

/// An operation that a type may support.
#[derive(Debug, Clone, Copy, PartialEq, Eq, Hash, Structural)]
pub enum MethodTag {
    Invoke,
    Len,
    Iter,
    Next,
    AsBits,
    AsInt,
    AsFloat,
    Neg,
    Pos,
    Inv,
    Mul,
    Div,
    Mod,
    Add,
    Sub,
    And,
    Xor,
    Or,
    Shl,
    Shr,
    Lt,
    Le,
    Eq,
}

impl MethodTag {
    /// The name of the operation, as messages show it.
    pub open spec fn spec_name(&self) -> Seq<char> {
        match self {
            MethodTag::Invoke => "call"@,
            MethodTag::Len => "len"@,
            MethodTag::Iter => "iter"@,
            MethodTag::Next => "next"@,
            MethodTag::AsBits => "bits"@,
            MethodTag::AsInt => "int"@,
            MethodTag::AsFloat => "float"@,
            MethodTag::Neg => "neg"@,
            MethodTag::Pos => "pos"@,
            MethodTag::Inv => "inv"@,
            MethodTag::Mul => "mul"@,
            MethodTag::Div => "div"@,
            MethodTag::Mod => "mod"@,
            MethodTag::Add => "add"@,
            MethodTag::Sub => "sub"@,
            MethodTag::And => "and"@,
            MethodTag::Xor => "xor"@,
            MethodTag::Or => "or"@,
            MethodTag::Shl => "shl"@,
            MethodTag::Shr => "shr"@,
            MethodTag::Lt => "lt"@,
            MethodTag::Le => "le"@,
            MethodTag::Eq => "eq"@,
        }
    }

    pub fn name(&self) -> (name: &'static str)
        ensures
            name@ == self.spec_name(),
    {
        match self {
            MethodTag::Invoke => "call",
            MethodTag::Len => "len",
            MethodTag::Iter => "iter",
            MethodTag::Next => "next",
            MethodTag::AsBits => "bits",
            MethodTag::AsInt => "int",
            MethodTag::AsFloat => "float",
            MethodTag::Neg => "neg",
            MethodTag::Pos => "pos",
            MethodTag::Inv => "inv",
            MethodTag::Mul => "mul",
            MethodTag::Div => "div",
            MethodTag::Mod => "mod",
            MethodTag::Add => "add",
            MethodTag::Sub => "sub",
            MethodTag::And => "and",
            MethodTag::Xor => "xor",
            MethodTag::Or => "or",
            MethodTag::Shl => "shl",
            MethodTag::Shr => "shr",
            MethodTag::Lt => "lt",
            MethodTag::Le => "le",
            MethodTag::Eq => "eq",
        }
    }
}

/// The table of operations that the values of a type go by.
#[derive(Debug, Clone, Copy, PartialEq, Eq, Structural)]
pub enum Metatable {
    /// The operations of strings.
    String,
    /// The operations of every other type.
    Default,
}

} // verus!
