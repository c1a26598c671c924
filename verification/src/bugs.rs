//! A handle that carries no state.

use vstd::prelude::*;

verus! {

/// A handle without state: all its values are equal.
#[derive(Debug)]
pub struct A {}

impl A {
    /// Makes a handle.
    pub fn new() -> (a: A)
        ensures
            a == (A {  }),
    {
        A {  }
    }

    /// Does nothing, and leaves the handle as it was.
    pub fn something(&mut self)
        ensures
            *final(self) == *old(self),
    {
    }
}

} // verus!
