//! The cells that hold variables after their frame is gone, and the closing
//! of the upvalues of a frame that is left.

use vstd::prelude::*;
use crate::runtime::function::{Closure, Upvalue};
use crate::runtime::gc::CellRef;
use crate::runtime::variant::{lemma_views, views, Value, Variant};

verus! {

/// The cells of closed-over variables. A cell is shared by every function
/// that caught its variable: what one of them stores, the others load.
#[derive(Debug)]
pub struct CellStore {
    cells: Vec<Variant>,
}

impl View for CellStore {
    type V = Seq<Value>;

    closed spec fn view(&self) -> Seq<Value> {
        views(self.cells@)
    }
}

impl CellStore {
    pub fn new() -> (store: CellStore)
        ensures
            store@ == Seq::<Value>::empty(),
    {
        CellStore { cells: Vec::new() }
    }

    pub fn len(&self) -> (len: usize)
        ensures
            len == self@.len(),
    {
        proof {
            lemma_views(self.cells@);
        }
        self.cells.len()
    }

    /// A new cell that holds `value`.
    pub fn allocate(&mut self, value: Variant) -> (cell: CellRef)
        ensures
            cell.index == old(self)@.len(),
            final(self)@ == old(self)@.push(value@),
    {
        proof {
            lemma_views(self.cells@);
        }
        let index = self.cells.len();
        self.cells.push(value);
        proof {
            assert(self.cells@.drop_last() =~= old(self).cells@);
        }
        CellRef { index }
    }

    /// The value in `cell`.
    pub fn get(&self, cell: CellRef) -> (value: &Variant)
        requires
            cell.index < self@.len(),
        ensures
            value@ == self@[cell.index as int],
    {
        proof {
            lemma_views(self.cells@);
        }
        &self.cells[cell.index]
    }

    /// Puts `value` in `cell`.
    pub fn set(&mut self, cell: CellRef, value: Variant)
        requires
            cell.index < old(self)@.len(),
        ensures
            final(self)@ == old(self)@.update(cell.index as int, value@),
    {
        proof {
            lemma_views(self.cells@);
        }
        self.cells.set(cell.index, value);
        proof {
            lemma_views(self.cells@);
            assert(self@ =~= old(self)@.update(cell.index as int, value@));
        }
    }
}

/// The closing of the upvalues of a frame that is left: each slot of the
/// frame that a function caught gets one cell, which every upvalue on that
/// slot is closed with.
#[derive(Debug)]
pub struct FrameCloser {
    base: usize,
    closed: Vec<Option<CellRef>>,
}

impl FrameCloser {
    /// The first slot of the frame.
    pub closed spec fn base(&self) -> nat {
        self.base as nat
    }

    /// The cell of each slot of the frame that was closed so far, by the
    /// position of the slot in the frame.
    pub closed spec fn closed(&self) -> Seq<Option<CellRef>> {
        self.closed@
    }

    /// The cell that slot `slot` of the stack was closed with, if it was.
    pub open spec fn cell_of(&self, slot: int) -> Option<CellRef> {
        if self.base() <= slot < self.base() + self.closed().len() {
            self.closed()[slot - self.base()]
        } else {
            None
        }
    }

    /// The invariant of the closing: every cell given out is a cell of a
    /// store with `cells` cells.
    pub open spec fn wf(&self, cells: nat) -> bool {
        forall|i: int|
            0 <= i < self.closed().len() ==> ((#[trigger] self.closed()[i]) matches Some(cell)
                ==> cell.index < cells)
    }

    /// The closing of the frame whose slots start at `base`, in a stack of
    /// `height` slots.
    pub fn new(base: usize, height: usize) -> (closer: FrameCloser)
        requires
            base <= height,
        ensures
            closer.base() == base,
            closer.closed().len() == height - base,
            forall|slot: int| closer.cell_of(slot).is_none(),
            forall|cells: nat| closer.wf(cells),
    {
        let mut closed: Vec<Option<CellRef>> = Vec::new();
        let mut i: usize = base;
        while i < height
            invariant
                base <= i <= height,
                closed@.len() == i - base,
                forall|j: int| 0 <= j < closed@.len() ==> (#[trigger] closed@[j]).is_none(),
            decreases height - i,
        {
            closed.push(None);
            i += 1;
        }
        FrameCloser { base, closed }
    }

    /// Closes `upvalue` if it is open on a slot of the frame: the slot's
    /// value moves to a new cell, unless the slot has a cell already, and
    /// the upvalue is closed with that cell. Other upvalues stay as they are.
    pub fn close(&mut self, upvalue: &mut Upvalue, stack: &Vec<Variant>, cells: &mut CellStore)
        requires
            old(self).wf(old(cells)@.len()),
            old(self).base() + old(self).closed().len() == stack@.len(),
        ensures
            final(self).wf(final(cells)@.len()),
            final(self).base() == old(self).base(),
            final(self).closed().len() == old(self).closed().len(),
            match old(upvalue).spec_closure() {
                Closure::Open(slot) if old(self).base() <= slot < stack@.len() => {
                    &&& final(upvalue).spec_closure() matches Closure::Closed(cell)
                    &&& final(self).cell_of(slot as int) == Some(cell)
                    &&& cell.index < final(cells)@.len()
                    &&& forall|other: int|
                        other != slot ==> final(self).cell_of(other) == old(self).cell_of(other)
                    &&& match old(self).cell_of(slot as int) {
                        Some(shared) => cell == shared && final(cells)@ == old(cells)@,
                        None => cell.index == old(cells)@.len() && final(cells)@ == old(cells)@.push(stack@[slot as int]@),
                    }
                },
                _ => *final(upvalue) == *old(upvalue) && final(cells)@ == old(cells)@ && final(self).closed() == old(self).closed(),
            },
    {
        match upvalue.closure() {
            Closure::Open(slot) => {
                if slot >= self.base && slot < stack.len() {
                    let at = slot - self.base;
                    let cell = match self.closed[at] {
                        Some(cell) => cell,
                        None => {
                            let cell = cells.allocate(stack[slot].duplicate());
                            self.closed.set(at, Some(cell));
                            cell
                        },
                    };
                    upvalue.close(cell);
                }
            },
            Closure::Closed(_) => {},
        }
    }
}

} // verus!
