//! What can go wrong while bytecode is emitted.

use vstd::prelude::*;
use crate::debug::symbol::DebugSymbol;

verus! {

/// Why a program could not be compiled.
#[derive(Debug, Clone, Copy, PartialEq, Eq, Structural)]
pub enum ErrorKind {
    /// The program needs more constants than an id can tell apart.
    ConstPoolLimit,
    /// The program needs more chunks than an id can tell apart.
    ChunkCountLimit,
    /// A jump would have to go farther than its operand can tell.
    JumpLimit,
    /// The statement is one that cannot be compiled.
    NotSupported,
    /// A `break` or a `continue` stands in no loop.
    NotInLoop,
}

impl ErrorKind {
    pub open spec fn spec_message(self) -> Seq<char> {
        match self {
            ErrorKind::ConstPoolLimit => "constant pool limit reached"@,
            ErrorKind::ChunkCountLimit => "chunk count limit reached"@,
            ErrorKind::JumpLimit => "jump distance limit reached"@,
            ErrorKind::NotSupported => "statement not supported"@,
            ErrorKind::NotInLoop => "not inside a loop"@,
        }
    }

    pub fn message(&self) -> (message: &'static str)
        ensures
            message@ == self.spec_message(),
    {
        match self {
            ErrorKind::ConstPoolLimit => "constant pool limit reached",
            ErrorKind::ChunkCountLimit => "chunk count limit reached",
            ErrorKind::JumpLimit => "jump distance limit reached",
            ErrorKind::NotSupported => "statement not supported",
            ErrorKind::NotInLoop => "not inside a loop",
        }
    }
}

/// A compile error: its kind, and the source text it is about where that is
/// known.
#[derive(Debug, Clone, Copy, PartialEq, Eq, Structural)]
pub struct CompileError {
    pub kind: ErrorKind,
    pub symbol: Option<DebugSymbol>,
}

impl CompileError {
    pub fn new(kind: ErrorKind) -> (error: CompileError)
        ensures
            error == (CompileError { kind, symbol: None }),
    {
        CompileError { kind, symbol: None }
    }

    pub fn with_symbol(self, symbol: DebugSymbol) -> (error: CompileError)
        ensures
            error == (CompileError { kind: self.kind, symbol: Some(symbol) }),
    {
        CompileError { kind: self.kind, symbol: Some(symbol) }
    }

    pub fn kind(&self) -> (kind: &ErrorKind)
        ensures
            *kind == self.kind,
    {
        &self.kind
    }
}

pub type CompileResult<T> = Result<T, CompileError>;

} // verus!
