//! Tracebacks: where in the bytecode an error passed, and the source text
//! that belongs to it.

use vstd::prelude::*;
use crate::codegen::chunk::ChunkID;
use crate::debug::symbol::table::DebugSymbolTable;
use crate::debug::symbol::DebugSymbol;

verus! {

/// A place in the bytecode: an offset in a chunk.
#[derive(Debug, Clone, Copy, PartialEq, Eq, Structural)]
pub struct TraceSite {
    pub chunk_id: ChunkID,
    pub offset: usize,
}

/// The symbol that `tables`, one per chunk, hold for `site`, if they hold
/// one.
pub open spec fn site_symbol(tables: Seq<DebugSymbolTable>, site: TraceSite) -> Option<DebugSymbol> {
    if site.chunk_id < tables.len() && exists|i: int|
        0 <= i < tables[site.chunk_id as int]@.len() && (
        #[trigger] tables[site.chunk_id as int]@[i]).offset == site.offset {
        let table = tables[site.chunk_id as int]@;
        let i = choose|i: int| 0 <= i < table.len() && (#[trigger] table[i]).offset == site.offset;
        table[i].symbol
    } else {
        None
    }
}

/// The source text of `site`: the symbol that the table of its chunk holds
/// for its offset.
pub fn resolve_site(tables: &Vec<DebugSymbolTable>, site: &TraceSite) -> (symbol: Option<
    DebugSymbol,
>)
    requires
        forall|i: int| 0 <= i < tables@.len() ==> (#[trigger] tables@[i]).wf(),
    ensures
        symbol == site_symbol(tables@, *site),
{
    if (site.chunk_id as usize) < tables.len() {
        let table = &tables[site.chunk_id as usize];
        assert(table.wf());
        match table.lookup(site.offset) {
            Some(symbol) => {
                proof {
                    let i = choose|i: int|
                        0 <= i < table@.len() && table@[i].offset == site.offset
                            && table@[i].symbol == Some(*symbol);
                    let j = choose|j: int|
                        0 <= j < table@.len() && (#[trigger] table@[j]).offset == site.offset;
                    assert(table@[i].offset == site.offset);
                    assert(i == j) by {
                        if i < j {
                            assert(table@[i].offset < table@[j].offset);
                        }
                        if j < i {
                            assert(table@[j].offset < table@[i].offset);
                        }
                    }
                }
                Some(*symbol)
            },
            None => {
                proof {
                    if exists|i: int|
                        0 <= i < table@.len() && (#[trigger] table@[i]).offset == site.offset {
                        let j = choose|j: int|
                            0 <= j < table@.len() && (#[trigger] table@[j]).offset == site.offset;
                        assert(table@[j].symbol.is_none());
                    }
                }
                None
            },
        }
    } else {
        None
    }
}

/// The source text of each site of a traceback, in their order.
pub fn resolve_trace(tables: &Vec<DebugSymbolTable>, sites: &Vec<TraceSite>) -> (symbols: Vec<
    Option<DebugSymbol>,
>)
    requires
        forall|i: int| 0 <= i < tables@.len() ==> (#[trigger] tables@[i]).wf(),
    ensures
        symbols@.len() == sites@.len(),
        forall|i: int|
            0 <= i < sites@.len() ==> (#[trigger] symbols@[i]) == site_symbol(tables@, sites@[i]),
{
    let mut symbols: Vec<Option<DebugSymbol>> = Vec::new();
    let mut i: usize = 0;
    while i < sites.len()
        invariant
            forall|i: int| 0 <= i < tables@.len() ==> (#[trigger] tables@[i]).wf(),
            i <= sites@.len(),
            symbols@.len() == i,
            forall|j: int|
                0 <= j < i ==> (#[trigger] symbols@[j]) == site_symbol(tables@, sites@[j]),
        decreases sites@.len() - i,
    {
        symbols.push(resolve_site(tables, &sites[i]));
        i += 1;
    }
    symbols
}

} // verus!
