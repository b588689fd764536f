//! The capability contract every node type implements.
//!
//! The runtime is generic over one node type.  Heterogeneous interfaces are
//! written as a tagged union of the node kinds the application uses, with the
//! union implementing these traits by dispatching on its variants; the
//! [`crate::basic::BasicView`] union of this crate's built-in nodes is one
//! such type.  A node type answers for its own hydration, sameness, dirtiness
//! and derived children; each executable method is pinned to a specification
//! function of the implementing type, so everything the reconciler proves is
//! relative to exactly what the node type declares about itself.

use vstd::prelude::*;
use vstd::view::View as VstdView;

use crate::geometry::Offset;
use crate::geometry::Size;
use crate::key::Key;

verus! {

/// A freshly derived description of one child: the node value paired with
/// the key that identifies it within its parent's child list.
#[derive(Debug, Clone, Copy, PartialEq, Eq)]
pub struct Keyed<V> {
    pub key: Key,
    pub view: V,
}

/// An input event delivered to every node of the tree.
///
/// Coordinates are in whole cells, relative to the top-left corner of the
/// screen.
#[derive(Debug, Clone, Copy, PartialEq, Eq, Structural)]
pub enum Event {
    MousePress(MouseButton, u64, u64),
}

/// The mouse button of a press event.
#[derive(Debug, Clone, Copy, PartialEq, Eq, Structural)]
pub enum MouseButton {
    Left,
    Right,
    Middle,
    WheelUp,
    WheelDown,
}

/// How the layout pass computes a node's size from its children.
#[derive(Debug, Clone, Copy, PartialEq, Eq, Structural)]
pub enum LayoutMode {
    /// The node has this size, whatever the constraint offers; its children,
    /// if any, are not laid out.  Leaves report their intrinsic size this
    /// way.
    Fixed(Size),
    /// The node adopts the size of its single child, laid out under the
    /// node's own constraint; with no child or several it has zero size and
    /// the children are not laid out.
    Adopt,
    /// A top-aligned vertical stack: each child is laid out under the space
    /// left by its elder siblings, heights add up, and the width is the
    /// widest child's.
    Column,
}

/// Sibling descriptions carry pairwise distinct keys.
pub open spec fn unique_keys<V>(ds: Seq<Keyed<V>>) -> bool {
    forall|i: int, j: int|
        0 <= i < j < ds.len() ==> (#[trigger] ds[i]).key != (#[trigger] ds[j]).key
}

/// Hydration: how a retained node absorbs a freshly derived description of
/// itself, and how it reports and clears its dirtiness.
///
/// The binding contract of [`Hydrate::hydrate`] is: copy every non-state
/// field from `other` into `self`, leave state cells untouched.  A node's
/// dirtiness is the disjunction of its own state cells' dirty flags; nodes
/// without state are never dirty.
pub trait Hydrate: Sized {
    /// The value of this node after absorbing the description `other`:
    /// `other`'s non-state fields, this node's state cells.
    spec fn spec_hydrate(&self, other: Self) -> Self;

    /// Whether `other` describes this node with equal non-state fields, so
    /// that absorbing it would change nothing.  Descriptions of a different
    /// concrete kind are never the same.
    spec fn spec_same(&self, other: Self) -> bool;

    /// Whether one of this node's own state cells was mutated since the last
    /// clean pass.
    spec fn spec_dirty(&self) -> bool;

    /// This node with the dirty flags of its own state cells cleared.
    spec fn spec_clean(&self) -> Self;

    /// Copies the non-state fields of `other` into this node, leaving state
    /// cells untouched.
    fn hydrate(&mut self, other: &Self)
        ensures
            *final(self) == old(self).spec_hydrate(*other),
    ;

    /// Compares this node's non-state fields with the description `other`.
    fn is_same(&self, other: &Self) -> (r: bool)
        ensures
            r == self.spec_same(*other),
    ;

    /// Reports whether one of this node's own state cells is dirty.
    fn is_dirty(&self) -> (r: bool)
        ensures
            r == self.spec_dirty(),
    ;

    /// Clears the dirty flags of this node's own state cells.
    fn clean(&mut self)
        ensures
            *final(self) == old(self).spec_clean(),
    ;

    /// Cleaning a node leaves it not dirty.
    proof fn lemma_clean_clears_dirty(&self)
        ensures
            !self.spec_clean().spec_dirty(),
    ;
}

/// The full view contract: deriving children, layout behaviour and event
/// handling, on top of [`Hydrate`].
pub trait View: Hydrate {
    /// An upper bound on the depth of derivation below this node: every
    /// derived child's height is strictly smaller, so derivation bottoms
    /// out.  The tree is acyclic by construction because children are
    /// derived from their parent, never linked back.
    spec fn spec_height(&self) -> nat;

    /// The child descriptions this node derives from its own properties and
    /// state.
    spec fn spec_children(&self) -> Seq<Keyed<Self>>;

    /// How the layout pass computes this node's size.
    spec fn spec_layout_mode(&self) -> LayoutMode;

    /// The value of this node after it handles `event`, given its laid-out
    /// size and placed offset.
    spec fn spec_event(&self, size: Size, offset: Offset, event: Event) -> Self;

    /// Derived children have pairwise distinct keys and strictly smaller
    /// heights than their parent.
    proof fn lemma_children_wf(&self)
        ensures
            unique_keys(self.spec_children()),
            forall|i: int|
                0 <= i < self.spec_children().len() ==> (#[trigger] self.spec_children()[i]).view.spec_height()
                    < self.spec_height(),
    ;

    /// Derives this node's child descriptions.
    fn children(&self) -> (cs: Vec<Keyed<Self>>)
        ensures
            cs@ == self.spec_children(),
    ;

    /// Reports how this node is laid out.
    fn layout_mode(&self) -> (m: LayoutMode)
        ensures
            m == self.spec_layout_mode(),
    ;

    /// Handles an input event, given the size and offset the node was laid
    /// out with.  Interactive nodes test the event's coordinates against
    /// that rectangle and mutate their own state cells; most nodes ignore
    /// events.
    fn event(&mut self, size: Size, offset: Offset, event: &Event)
        ensures
            *final(self) == old(self).spec_event(size, offset, *event),
    ;

    /// Duplicates this node value.
    fn clone_view(&self) -> (c: Self)
        ensures
            c == *self,
    ;
}

} // verus!
