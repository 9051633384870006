//! Statements: what the parser makes of a source, and the compiler reads.

use vstd::prelude::*;
use crate::debug::symbol::DebugSymbol;
use crate::parser::expr::ExprMeta;
use crate::runtime::variant::StringSymbol;

verus! {

/// A statement.
#[derive(Debug)]
pub enum Stmt {
    /// An expression whose value is thrown away.
    Expression(ExprMeta),
    /// An expression whose value is printed.
    Echo(ExprMeta),
    /// The declaration of a variable: its name, its first value, and
    /// whether it can be assigned to later.
    Declaration { name: StringSymbol, init: ExprMeta, mutable: bool },
    /// Statements between braces, run one after the other.
    Block(StmtList),
    /// A statement that is run if the condition holds, and one that is run
    /// if it does not, where there is one.
    If { cond: ExprMeta, then: Box<StmtMeta>, otherwise: Option<Box<StmtMeta>> },
    /// A statement that is run again and again while the condition holds.
    While { cond: ExprMeta, body: Box<StmtMeta> },
    Return(Option<ExprMeta>),
    Break,
    Continue,
    Assert(ExprMeta),
}

/// The statements of a block, the first and those behind it.
#[derive(Debug)]
pub enum StmtList {
    Nil,
    Cons(Box<StmtMeta>, Box<StmtList>),
}

impl StmtList {
    /// The statements one by one.
    pub open spec fn items(self) -> Seq<StmtMeta>
        decreases self,
    {
        match self {
            StmtList::Nil => Seq::empty(),
            StmtList::Cons(first, rest) => seq![*first] + rest.items(),
        }
    }

    /// How many statements the list holds.
    pub fn len(&self) -> (len: usize)
        requires
            self.items().len() <= usize::MAX,
        ensures
            len == self.items().len(),
    {
        let mut len: usize = 0;
        let mut at = self;
        loop
            invariant
                self.items().len() <= usize::MAX,
                len + at.items().len() == self.items().len(),
            ensures
                len == self.items().len(),
            decreases at,
        {
            match at {
                StmtList::Nil => {
                    break ;
                },
                StmtList::Cons(_, rest) => {
                    len += 1;
                    at = &**rest;
                },
            }
        }
        len
    }
}

/// A statement and the source text it came from.
#[derive(Debug)]
pub struct StmtMeta {
    pub stmt: Stmt,
    pub symbol: DebugSymbol,
}

impl StmtMeta {
    pub open spec fn spec_stmt(&self) -> Stmt {
        self.stmt
    }

    pub open spec fn spec_symbol(&self) -> DebugSymbol {
        self.symbol
    }

    /// The statement `stmt` with the source text `symbol`.
    pub open spec fn spec_new(stmt: Stmt, symbol: DebugSymbol) -> StmtMeta {
        StmtMeta { stmt, symbol }
    }

    #[verifier::when_used_as_spec(spec_new)]
    pub fn new(stmt: Stmt, symbol: DebugSymbol) -> (meta: StmtMeta)
        ensures
            meta == StmtMeta::spec_new(stmt, symbol),
            meta.spec_stmt() == stmt,
            meta.spec_symbol() == symbol,
    {
        StmtMeta { stmt, symbol }
    }

    pub fn variant(&self) -> (stmt: &Stmt)
        ensures
            *stmt == self.spec_stmt(),
    {
        &self.stmt
    }

    pub fn debug_symbol(&self) -> (symbol: &DebugSymbol)
        ensures
            *symbol == self.spec_symbol(),
    {
        &self.symbol
    }

    /// The statement and its symbol, apart.
    pub fn take(self) -> (parts: (Stmt, DebugSymbol))
        ensures
            parts == (self.spec_stmt(), self.spec_symbol()),
    {
        (self.stmt, self.symbol)
    }
}

} // verus!
