//! Per-node persistent state.
//!
//! A [`State`] cell holds a value that must survive reconciliation: when a
//! node is hydrated from a fresh description, its non-state fields are copied
//! forward while its state cells are deliberately left untouched.  The cell
//! also tracks a dirty flag: every mutation through [`State::set`] marks the
//! cell dirty, which tells the reconciler that the owning node's subtree may
//! have changed even though no new description was derived for it.  A clean
//! pass resets the flag after each render cycle.

use vstd::prelude::*;

verus! {

/// A dirty-tracking container for a value that survives rebuilds.
///
/// A freshly created cell starts dirty, so a newly built node is re-derived
/// on the first cycle it takes part in.
#[derive(Debug, Clone, Copy, PartialEq, Eq)]
pub struct State<X: Copy> {
    value: X,
    dirty: bool,
}

impl<X: Copy> State<X> {
    /// The value currently held by the cell.
    pub closed spec fn spec_value(&self) -> X {
        self.value
    }

    /// Whether the cell was mutated since the last clean pass.
    pub closed spec fn spec_dirty(&self) -> bool {
        self.dirty
    }

    /// This cell with the dirty flag cleared.
    pub closed spec fn spec_cleaned(&self) -> Self {
        State { value: self.value, dirty: false }
    }

    /// This cell holding `value`, marked dirty.
    pub closed spec fn spec_set(&self, value: X) -> Self {
        State { value, dirty: true }
    }

    /// Makes a cell holding `value`, marked dirty.
    pub fn new(value: X) -> (s: State<X>)
        ensures
            s.spec_value() == value,
            s.spec_dirty(),
    {
        State { value, dirty: true }
    }

    /// Reads the held value.
    pub fn get(&self) -> (v: X)
        ensures
            v == self.spec_value(),
    {
        self.value
    }

    /// Replaces the held value and marks the cell dirty.
    pub fn set(&mut self, value: X)
        ensures
            *final(self) == old(self).spec_set(value),
            final(self).spec_value() == value,
            final(self).spec_dirty(),
    {
        self.value = value;
        self.dirty = true;
    }

    /// Clears the dirty flag, leaving the value as it is.
    pub fn clean(&mut self)
        ensures
            *final(self) == old(self).spec_cleaned(),
            final(self).spec_value() == old(self).spec_value(),
            !final(self).spec_dirty(),
    {
        self.dirty = false;
    }

    /// Reports whether the cell was mutated since the last clean pass.
    pub fn is_dirty(&self) -> (d: bool)
        ensures
            d == self.spec_dirty(),
    {
        self.dirty
    }
}

/// What a cleaned cell holds: the same value, no dirty flag.
pub proof fn lemma_state_cleaned<X: Copy>(s: State<X>)
    ensures
        s.spec_cleaned().spec_value() == s.spec_value(),
        !s.spec_cleaned().spec_dirty(),
{
}

/// What a freshly set cell holds: the new value, marked dirty.
pub proof fn lemma_state_set<X: Copy>(s: State<X>, v: X)
    ensures
        s.spec_set(v).spec_value() == v,
        s.spec_set(v).spec_dirty(),
{
}

} // verus!
