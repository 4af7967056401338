//! Where a tree comes from, and which errors that origin can leave in it.

use vstd::prelude::*;

verus! {

/// The origin of a molecule or block tree.
///
/// A tree that was built in memory holds no errors of its origin; one that
/// was read from bytes may hold one wherever the bytes could not be read.
pub trait Source: Clone + core::fmt::Debug {
    /// What can go wrong when a tree is read from this source.
    type Error: core::fmt::Debug + Eq + PartialEq;

    /// Returns a copy of `error`.
    fn clone_error(error: &Self::Error) -> (r: Self::Error)
        ensures
            r == *error,
    ;
}

/// The source of trees that were built in memory: nothing can go wrong.
#[derive(Debug, Clone, Copy, PartialEq, Eq)]
pub struct Pure();

impl Source for Pure {
    type Error = ();

    fn clone_error(error: &()) -> (r: ()) {
        ()
    }
}

} // verus!
