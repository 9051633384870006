//! The debug symbols of a chunk, by the offset of the instruction they
//! belong to.

use vstd::prelude::*;
use crate::debug::symbol::DebugSymbol;

verus! {

/// One entry of the table: the offset of an instruction, and its symbol if
/// it has one.
#[derive(Debug, Clone, Copy, PartialEq, Eq, Structural)]
pub struct SymbolTableEntry {
    pub offset: usize,
    pub symbol: Option<DebugSymbol>,
}

/// Whether the offsets of `entries` rise strictly.
pub open spec fn strictly_rising(entries: Seq<SymbolTableEntry>) -> bool {
    forall|i: int, j: int| 0 <= i < j < entries.len() ==> entries[i].offset < entries[j].offset
}

/// The symbols among `entries`, in their order.
pub open spec fn symbols_of(entries: Seq<SymbolTableEntry>) -> Seq<DebugSymbol>
    decreases entries.len(),
{
    if entries.len() == 0 {
        Seq::empty()
    } else {
        let rest = symbols_of(entries.drop_last());
        match entries.last().symbol {
            Some(symbol) => rest.push(symbol),
            None => rest,
        }
    }
}

/// Maps bytecode offsets to debug symbols. In a well-formed table the offsets
/// rise strictly from entry to entry.
#[derive(Debug)]
pub struct DebugSymbolTable {
    entries: Vec<SymbolTableEntry>,
}

impl View for DebugSymbolTable {
    type V = Seq<SymbolTableEntry>;

    closed spec fn view(&self) -> Seq<SymbolTableEntry> {
        self.entries@
    }
}

impl Default for DebugSymbolTable {
    fn default() -> (table: DebugSymbolTable)
        ensures
            table.wf(),
            table@ == Seq::<SymbolTableEntry>::empty(),
    {
        DebugSymbolTable::new()
    }
}

impl DebugSymbolTable {
    /// The invariant of the table: the offsets of its entries rise strictly.
    pub open spec fn wf(&self) -> bool {
        strictly_rising(self@)
    }

    pub fn new() -> (table: DebugSymbolTable)
        ensures
            table.wf(),
            table@ == Seq::<SymbolTableEntry>::empty(),
    {
        DebugSymbolTable { entries: Vec::new() }
    }

    /// Whether an entry at `offset` can be added: the table is empty, or
    /// `offset` lies behind its last entry.
    pub open spec fn accepts(&self, offset: usize) -> bool {
        self@.len() == 0 || self@.last().offset < offset
    }

    /// Whether an entry at `offset` can be added.
    pub fn can_insert(&self, offset: usize) -> (res: bool)
        ensures
            res == self.accepts(offset),
    {
        let len = self.entries.len();
        len == 0 || self.entries[len - 1].offset < offset
    }

    /// Adds an entry behind the others. Entries come in the order of their
    /// offsets.
    pub fn insert(&mut self, offset: usize, symbol: Option<DebugSymbol>)
        requires
            old(self).wf(),
            old(self).accepts(offset),
        ensures
            final(self).wf(),
            final(self)@ == old(self)@.push(SymbolTableEntry { offset, symbol }),
    {
        let entry = SymbolTableEntry { offset, symbol };
        self.entries.push(entry);
    }

    /// The symbol of the instruction at `offset`, if the table has an entry
    /// for that offset and the entry holds a symbol.
    pub fn lookup(&self, offset: usize) -> (symbol: Option<&DebugSymbol>)
        requires
            self.wf(),
        ensures
            match symbol {
                Some(symbol) => exists|i: int|
                    0 <= i < self@.len() && self@[i].offset == offset && self@[i].symbol == Some(
                        *symbol,
                    ),
                None => forall|i: int|
                    0 <= i < self@.len() && self@[i].offset == offset ==> (
                    #[trigger] self@[i]).symbol.is_none(),
            },
    {
        let mut low: usize = 0;
        let mut high: usize = self.entries.len();
        while low < high
            invariant
                strictly_rising(self.entries@),
                low <= high <= self.entries@.len(),
                forall|i: int| 0 <= i < low ==> (#[trigger] self.entries@[i]).offset < offset,
                forall|i: int|
                    high <= i < self.entries@.len() ==> (#[trigger] self.entries@[i]).offset
                        > offset,
            decreases high - low,
        {
            let mid = low + (high - low) / 2;
            let entry = &self.entries[mid];
            if entry.offset == offset {
                return entry.symbol.as_ref();
            } else if entry.offset < offset {
                low = mid + 1;
            } else {
                high = mid;
            }
        }
        None
    }

    /// The entries, in the order of their offsets.
    pub fn iter(&self) -> (entries: Vec<(usize, Option<DebugSymbol>)>)
        ensures
            entries@.len() == self@.len(),
            forall|i: int|
                0 <= i < self@.len() ==> (#[trigger] entries@[i]) == (
                    self@[i].offset,
                    self@[i].symbol,
                ),
    {
        let mut entries: Vec<(usize, Option<DebugSymbol>)> = Vec::new();
        let mut i: usize = 0;
        while i < self.entries.len()
            invariant
                i <= self.entries@.len(),
                entries@.len() == i,
                forall|j: int|
                    0 <= j < i ==> (#[trigger] entries@[j]) == (
                        self.entries@[j].offset,
                        self.entries@[j].symbol,
                    ),
            decreases self.entries@.len() - i,
        {
            let entry = &self.entries[i];
            entries.push((entry.offset, entry.symbol));
            i += 1;
        }
        entries
    }

    /// The symbols that the entries hold, in the order of their offsets.
    pub fn symbols(&self) -> (symbols: Vec<DebugSymbol>)
        ensures
            symbols@ == symbols_of(self@),
    {
        let mut symbols: Vec<DebugSymbol> = Vec::new();
        let mut i: usize = 0;
        while i < self.entries.len()
            invariant
                i <= self.entries@.len(),
                symbols@ == symbols_of(self.entries@.take(i as int)),
            decreases self.entries@.len() - i,
        {
            proof {
                assert(self.entries@.take(i + 1).drop_last() == self.entries@.take(i as int));
            }
            if let Some(symbol) = self.entries[i].symbol {
                symbols.push(symbol);
            }
            i += 1;
        }
        proof {
            assert(self.entries@.take(i as int) == self.entries@);
        }
        symbols
    }
}

} // verus!
