//! Debug symbols: spans of the source text, and their resolution to lines.

use vstd::prelude::*;
use vstd::std_specs::convert::FromSpecImpl;
use crate::lexer::lexer::newlines;

pub mod table;

verus! {

/// A position in the source text, counted in characters from 0.
pub type TokenIndex = usize;

/// The piece of source text that a node of the syntax tree or an instruction
/// came from: the characters from `start` up to `end`.
#[derive(Debug, Clone, Copy, PartialEq, Eq, Hash, Structural)]
pub struct DebugSymbol {
    pub start: TokenIndex,
    pub end: TokenIndex,
}

impl DebugSymbol {
    pub open spec fn spec_start(&self) -> TokenIndex {
        self.start
    }

    pub open spec fn spec_end(&self) -> TokenIndex {
        self.end
    }

    pub fn new(start: TokenIndex, end: TokenIndex) -> (symbol: DebugSymbol)
        ensures
            symbol == (DebugSymbol { start, end }),
    {
        DebugSymbol { start, end }
    }

    #[verifier::when_used_as_spec(spec_start)]
    pub fn start(&self) -> (start: TokenIndex)
        ensures
            start == self.spec_start(),
    {
        self.start
    }

    #[verifier::when_used_as_spec(spec_end)]
    pub fn end(&self) -> (end: TokenIndex)
        ensures
            end == self.spec_end(),
    {
        self.end
    }
}

impl From<(TokenIndex, TokenIndex)> for DebugSymbol {
    fn from(tuple: (TokenIndex, TokenIndex)) -> (symbol: DebugSymbol) {
        DebugSymbol::new(tuple.0, tuple.1)
    }
}

impl FromSpecImpl<(TokenIndex, TokenIndex)> for DebugSymbol {
    open spec fn obeys_from_spec() -> bool {
        true
    }

    open spec fn from_spec(tuple: (TokenIndex, TokenIndex)) -> DebugSymbol {
        DebugSymbol { start: tuple.0, end: tuple.1 }
    }
}

/// Whether a line of `text` starts at `at`: at the start of the text, or
/// right after a line feed.
pub open spec fn line_start(text: Seq<char>, at: int) -> bool {
    0 <= at <= text.len() && (at == 0 || text[at - 1] == '\n')
}

/// Whether a line of `text` ends at `at`: on a line feed, or at the end of
/// the text.
pub open spec fn line_end(text: Seq<char>, at: int) -> bool {
    0 <= at <= text.len() && (at == text.len() || text[at] == '\n')
}

/// Whether no line feed stands in `text` from `from` up to `to`.
pub open spec fn one_line(text: Seq<char>, from: int, to: int) -> bool {
    forall|i: int| from <= i < to ==> #[trigger] text[i] != '\n'
}

/// A debug symbol together with the lines of the source text that hold it.
#[derive(Debug, Clone, Copy, PartialEq, Eq, Structural)]
pub struct ResolvedSymbol {
    /// The symbol that was resolved.
    pub symbol: DebugSymbol,
    /// The line on which the symbol starts, counted from 1.
    pub lineno: usize,
    /// Where the line starts on which the symbol starts.
    pub lines_start: TokenIndex,
    /// Where the line ends on which the symbol ends.
    pub lines_end: TokenIndex,
}

impl ResolvedSymbol {
    /// Whether this is what `symbol` resolves to in `text`: the symbol lies
    /// inside the text, `lineno` counts the line feeds before it, and
    /// `lines_start` and `lines_end` are the nearest start of a line before
    /// the symbol and the nearest end of a line after it.
    pub open spec fn resolves(self, text: Seq<char>, symbol: DebugSymbol) -> bool {
        &&& self.symbol == symbol
        &&& symbol.start <= symbol.end <= text.len()
        &&& self.lineno == 1 + newlines(text, 0, symbol.start as int)
        &&& self.lines_start <= symbol.start
        &&& line_start(text, self.lines_start as int)
        &&& one_line(text, self.lines_start as int, symbol.start as int)
        &&& symbol.end <= self.lines_end
        &&& line_end(text, self.lines_end as int)
        &&& one_line(text, symbol.end as int, self.lines_end as int)
    }

    /// The column at which the symbol starts on its first line, counted
    /// from 0.
    pub fn start_col(&self) -> (col: usize)
        requires
            self.lines_start <= self.symbol.start,
        ensures
            col == self.symbol.start - self.lines_start,
    {
        self.symbol.start() - self.lines_start
    }

    /// Whether the symbol lies on one line.
    pub fn is_single_line(&self, text: &Vec<char>) -> (single: bool)
        requires
            self.resolves(text@, self.symbol),
        ensures
            single == one_line(text@, self.lines_start as int, self.lines_end as int),
    {
        let mut i = self.symbol.start();
        let end = self.symbol.end();
        while i < end
            invariant
                self.resolves(text@, self.symbol),
                self.symbol.start <= i <= end,
                end == self.symbol.end,
                one_line(text@, self.lines_start as int, i as int),
            decreases end - i,
        {
            if text[i] == '\n' {
                return false;
            }
            i += 1;
        }
        true
    }
}

/// Finds the lines of `text` that hold `symbol`. A symbol that does not lie
/// inside the text, or whose end comes before its start, resolves to nothing.
pub fn resolve_symbol(text: &Vec<char>, symbol: DebugSymbol) -> (resolved: Option<ResolvedSymbol>)
    requires
        text@.len() < usize::MAX,
    ensures
        symbol.start <= symbol.end <= text@.len() <==> resolved.is_some(),
        resolved.is_some() ==> resolved.unwrap().resolves(text@, symbol),
{
    let start = symbol.start();
    let end = symbol.end();
    if start > end || end > text.len() {
        return None;
    }
    let mut lineno: usize = 1;
    let mut lines_start: usize = 0;
    let mut i: usize = 0;
    while i < start
        invariant
            start <= end <= text@.len(),
            text@.len() < usize::MAX,
            i <= start,
            lineno == 1 + newlines(text@, 0, i as int),
            lineno <= i + 1,
            lines_start <= i,
            line_start(text@, lines_start as int),
            one_line(text@, lines_start as int, i as int),
        decreases start - i,
    {
        if text[i] == '\n' {
            lineno += 1;
            lines_start = i + 1;
        }
        i += 1;
    }
    let mut lines_end: usize = end;
    while lines_end < text.len() && text[lines_end] != '\n'
        invariant
            end <= lines_end <= text@.len(),
            one_line(text@, end as int, lines_end as int),
        decreases text@.len() - lines_end,
    {
        lines_end += 1;
    }
    Some(ResolvedSymbol { symbol, lineno, lines_start, lines_end })
}

/// Resolves each of `symbols` in `text`, in their order.
pub fn resolve_symbols(text: &Vec<char>, symbols: &Vec<DebugSymbol>) -> (resolved: Vec<
    Option<ResolvedSymbol>,
>)
    requires
        text@.len() < usize::MAX,
    ensures
        resolved@.len() == symbols@.len(),
        forall|i: int|
            0 <= i < symbols@.len() ==> {
                &&& (#[trigger] resolved@[i]).is_some() <==> symbols@[i].start
                    <= symbols@[i].end <= text@.len()
                &&& resolved@[i].is_some() ==> resolved@[i].unwrap().resolves(text@, symbols@[i])
            },
{
    let mut resolved: Vec<Option<ResolvedSymbol>> = Vec::new();
    let mut i: usize = 0;
    while i < symbols.len()
        invariant
            text@.len() < usize::MAX,
            i <= symbols@.len(),
            resolved@.len() == i,
            forall|j: int|
                0 <= j < i ==> {
                    &&& (#[trigger] resolved@[j]).is_some() <==> symbols@[j].start
                        <= symbols@[j].end <= text@.len()
                    &&& resolved@[j].is_some() ==> resolved@[j].unwrap().resolves(
                        text@,
                        symbols@[j],
                    )
                },
        decreases symbols@.len() - i,
    {
        resolved.push(resolve_symbol(text, symbols[i]));
        i += 1;
    }
    resolved
}

} // verus!
