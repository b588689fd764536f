//! A debug dump of the retained tree: each node rendered to a line of text,
//! arranged as a `ptree` item tree that a caller can print.

use vstd::prelude::*;
use vstd::view::View as VstdView;

use crate::tree::ViewTree;
use crate::view::View;

verus! {

/// The item tree of the `ptree` crate: a text label and child items, which
/// `ptree::print_tree` renders with box-drawing characters.
#[verifier::external_type_specification]
pub struct ExStringItem(ptree::item::StringItem);

/// Relies on `core::fmt` debug formatting: renders one view value to the
/// text shown for its node in the debug dump.
#[verifier::external_body]
fn node_label<V: View + core::fmt::Debug>(v: &V) -> String {
    format!("{:?}", v)
}

/// The item tree `s` has one item per node of `t`, in the same shape.
pub open spec fn mirrors<V: View>(t: ViewTree<V>, s: ptree::item::StringItem) -> bool
    decreases t,
{
    &&& s.children@.len() == t.children@.len()
    &&& forall|i: int|
        0 <= i < t.children@.len() ==> mirrors(#[trigger] t.children@[i], s.children@[i])
}

impl<V: View + core::fmt::Debug> ViewTree<V> {
    /// Renders this subtree as a `ptree` item tree, one item per node, for a
    /// debug dump.
    pub fn tree(&self) -> (s: ptree::item::StringItem)
        ensures
            mirrors(*self, s),
        decreases *self,
    {
        let text = node_label(&self.view);
        let mut items: Vec<ptree::item::StringItem> = Vec::new();
        let n = self.children.len();
        let mut i: usize = 0;
        while i < n
            invariant
                0 <= i <= n,
                n == self.children.len(),
                items@.len() == i,
                forall|j: int|
                    0 <= j < i ==> mirrors(self.children@[j], #[trigger] items@[j]),
            decreases n - i,
        {
            proof {
                assert(decreases_to!(*self => self.children));
                assert(decreases_to!(self.children => self.children@));
                assert(decreases_to!(self.children@ => self.children@[i as int]));
            }
            let sub = self.children[i].tree();
            items.push(sub);
            i = i + 1;
        }
        ptree::item::StringItem { text, children: items }
    }
}

} // verus!
