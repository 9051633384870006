//! Shared handles on the objects of a running program.

use vstd::prelude::*;
use std::rc::Rc;

verus! {

/// Calls `Rc::clone`: another pointer to the same allocation, so to the same
/// value.
#[verifier::external_body]
fn rc_clone<T>(rc: &Rc<T>) -> (copy: Rc<T>)
    ensures
        copy == *rc,
{
    Rc::clone(rc)
}

/// A handle on an object that many values may share. The object lives as long
/// as a handle on it does, and it does not change.
#[derive(Debug)]
pub struct GC<T> {
    inner: Rc<T>,
}

impl<T> GC<T> {
    /// The object behind the handle.
    pub closed spec fn spec_data(&self) -> &T {
        &*self.inner
    }

    pub fn new(data: T) -> (handle: GC<T>)
        ensures
            *handle.spec_data() == data,
    {
        GC { inner: Rc::new(data) }
    }

    #[verifier::when_used_as_spec(spec_data)]
    pub fn data(&self) -> (data: &T)
        ensures
            data == self.spec_data(),
    {
        &*self.inner
    }

    /// Another handle on the same object.
    pub fn share(&self) -> (handle: GC<T>)
        ensures
            handle == *self,
    {
        GC { inner: rc_clone(&self.inner) }
    }
}

impl<T> Clone for GC<T> {
    fn clone(&self) -> (handle: GC<T>)
        ensures
            handle == *self,
    {
        self.share()
    }
}

/// A handle on a cell that holds a variable after the frame that made it is
/// gone: the number of the cell in the store of cells.
#[derive(Debug, Clone, Copy, PartialEq, Eq, Structural)]
pub struct CellRef {
    pub index: usize,
}

} // verus!
