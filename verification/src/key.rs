//! Stable node identity.
//!
//! A [`Key`] identifies a node within its parent's child list across
//! reconciliation cycles.  It is used only for matching old and new children,
//! never for addressing storage.  Keys are totally ordered by their number,
//! and sibling keys must be distinct for the keyed diff to be meaningful:
//! the reconciler matches children of equal keys and treats the rest as
//! freshly inserted or stale.
//!
//! A key is supplied explicitly by the node's author.  Deriving identity from
//! a construction call site breaks down under refactoring or loop-based
//! construction, so an explicit key parameter is used instead.

use vstd::prelude::*;

verus! {

/// A lightweight, totally ordered identifier for one child within its
/// parent's child list.
#[derive(Debug, Clone, Copy, PartialEq, Eq, Hash, Ord, PartialOrd, Structural)]
pub struct Key(pub u32);

impl Key {
    /// Makes the key with the given number.
    pub fn new(id: u32) -> (k: Key)
        ensures
            k == Key(id),
    {
        Key(id)
    }
}

} // verus!
