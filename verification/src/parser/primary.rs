//! Primary expressions: an atom, followed by what is accessed on it.

use vstd::prelude::*;
use crate::language::{FloatBytes, IntType};
use crate::parser::expr::{Expr, ExprMeta, ObjectConstructor};
use crate::runtime::variant::StringSymbol;

verus! {

/// An expression that has no parts, or a group in parentheses.
#[derive(Debug)]
pub enum Atom {
    Nil,
    EmptyTuple,
    Self_,
    Super,
    Identifier(StringSymbol),
    BooleanLiteral(bool),
    IntegerLiteral(IntType),
    /// A float literal, as its little-endian bytes.
    FloatLiteral(FloatBytes),
    StringLiteral(StringSymbol),
    Group(Box<Expr>),
}

/// One step of an access path. These bind tighter than any operator.
#[derive(Debug)]
pub enum AccessItem {
    Attribute(StringSymbol),
    Index(ExprMeta),
    Invoke(),
    Construct(ObjectConstructor),
}

/// An atom followed by a path of access items.
#[derive(Debug)]
pub struct Primary {
    atom: Atom,
    path: Vec<AccessItem>,
}

impl Primary {
    pub closed spec fn spec_atom(&self) -> &Atom {
        &self.atom
    }

    pub closed spec fn spec_path(&self) -> &Vec<AccessItem> {
        &self.path
    }

    pub fn new(atom: Atom, path: Vec<AccessItem>) -> (primary: Primary)
        ensures
            *primary.spec_atom() == atom,
            *primary.spec_path() == path,
    {
        Primary { atom, path }
    }

    #[verifier::when_used_as_spec(spec_atom)]
    pub fn atom(&self) -> (atom: &Atom)
        ensures
            atom == self.spec_atom(),
    {
        &self.atom
    }

    pub fn take_atom(self) -> (atom: Atom)
        ensures
            atom == *self.spec_atom(),
    {
        self.atom
    }

    #[verifier::when_used_as_spec(spec_path)]
    pub fn path(&self) -> (path: &Vec<AccessItem>)
        ensures
            path == self.spec_path(),
    {
        &self.path
    }

    pub fn path_mut(&mut self) -> (path: &mut Vec<AccessItem>)
        ensures
            *path == *old(self).spec_path(),
            *final(self).spec_path() == *final(path),
            *final(self).spec_atom() == *old(self).spec_atom(),
    {
        &mut self.path
    }
}

} // verus!
