//! A retained-mode declarative UI runtime.
//!
//! An application describes its interface as a tree of view values; the
//! runtime reconciles successive descriptions into a persistent tree that
//! preserves per-node state, lays the tree out under size constraints, and
//! dispatches input events to its nodes.
//!
//! The pieces, leaves first: [`geometry`] holds the plain size, offset and
//! constraint types; [`key`] the stable identity used to match children
//! across cycles; [`state`] the dirty-tracking cell whose value survives
//! rebuilds; [`view`] the capability contract every node type implements;
//! [`tree`] the retained tree and the hydrate/diff reconciler; [`passes`]
//! the layout, placement, event and clean walks plus flattening; [`laws`]
//! the guarantees proved about all of it; [`basic`] the built-in node kinds;
//! and [`pretty`] a debug dump of the retained tree.

#![verifier::loop_isolation(false)]

pub mod basic;
pub mod geometry;
pub mod key;
pub mod laws;
pub mod passes;
pub mod pretty;
pub mod seqs;
pub mod state;
pub mod tree;
pub mod view;

pub use basic::BasicView;
pub use basic::ChildList;
pub use basic::Counter;
pub use basic::EmptyView;
pub use basic::Stack;
pub use basic::Text;
pub use geometry::Constraint;
pub use geometry::Offset;
pub use geometry::Size;
pub use key::Key;
pub use passes::Placed;
pub use state::State;
pub use tree::ViewTree;
pub use view::Event;
pub use view::Hydrate;
pub use view::Keyed;
pub use view::LayoutMode;
pub use view::MouseButton;
pub use view::View;
