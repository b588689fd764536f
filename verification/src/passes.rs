//! The passes that walk the reconciled tree: layout (post-order, computing
//! sizes under a constraint), placement (pre-order, assigning offsets),
//! event dispatch (pre-order, every node sees every event), the clean pass,
//! and flattening for a renderer to consume.
//!
//! Each pass recomputes from scratch on every call; only its results — the
//! size and offset cached on each node — persist until the next pass.

use vstd::prelude::*;
use vstd::view::View as VstdView;

use crate::geometry::Constraint;
use crate::geometry::Offset;
use crate::geometry::Size;
use crate::geometry::add_saturating;
use crate::geometry::sat_add;
use crate::geometry::spec_shrink;
use crate::key::Key;
use crate::tree::ViewTree;
use crate::view::Event;
use crate::view::LayoutMode;
use crate::view::View;

verus! {

/// One entry of the flattened tree: a node's view together with the key,
/// size and offset it was retained and laid out under.
#[derive(Debug)]
pub struct Placed<V> {
    pub key: Key,
    pub size: Size,
    pub offset: Offset,
    pub view: V,
}

/// The size a vertical stack takes when a node of size `s` is stacked above
/// content of size `acc`: heights add (saturating), the width is the wider.
pub open spec fn stack_size(s: Size, acc: Size) -> Size {
    Size {
        width: if s.width >= acc.width {
            s.width
        } else {
            acc.width
        },
        height: sat_add(s.height, acc.height),
    }
}

/// The size of a laid-out vertical stack of children.
pub open spec fn column_total<V: View>(rs: Seq<ViewTree<V>>) -> Size
    decreases rs.len(),
{
    if rs.len() == 0 {
        Size { width: 0, height: 0 }
    } else {
        stack_size(rs[0].size, column_total(rs.drop_first()))
    }
}

/// The constraint `c` with its available height shrunk by `h`.
pub open spec fn shrunk_height(c: Constraint, h: u64) -> Constraint {
    Constraint { max_height: spec_shrink(c.max_height, h, c.min_height), ..c }
}

/// The tree `r` is `t` after the layout pass under constraint `c`: every
/// reached node's size is recomputed according to its view's layout mode;
/// views, keys and offsets are untouched.
pub open spec fn is_laid<V: View>(t: ViewTree<V>, c: Constraint, r: ViewTree<V>) -> bool
    decreases t, 1int,
{
    &&& r.key == t.key
    &&& r.view == t.view
    &&& r.offset == t.offset
    &&& match t.view.spec_layout_mode() {
        LayoutMode::Fixed(s) => r.size == s && r.children == t.children,
        LayoutMode::Adopt => {
            if t.children@.len() == 1 {
                &&& r.children@.len() == 1
                &&& is_laid(t.children@[0], c, r.children@[0])
                &&& r.size == r.children@[0].size
            } else {
                r.size == (Size { width: 0, height: 0 }) && r.children == t.children
            }
        },
        LayoutMode::Column => {
            &&& is_laid_column(t.children@, c, r.children@)
            &&& r.size == column_total(r.children@)
        },
    }
}

/// The children `rs` are `cs` laid out as a top-aligned vertical stack: each
/// child is laid out under the constraint left over by its elder siblings.
pub open spec fn is_laid_column<V: View>(
    cs: Seq<ViewTree<V>>,
    c: Constraint,
    rs: Seq<ViewTree<V>>,
) -> bool
    decreases cs, 0int,
{
    if cs.len() == 0 {
        rs.len() == 0
    } else {
        &&& rs.len() == cs.len()
        &&& is_laid(cs[0], c, rs[0])
        &&& is_laid_column(
            cs.drop_first(),
            shrunk_height(c, rs[0].size.height),
            rs.drop_first(),
        )
    }
}

/// The tree `r` is `t` placed at offset `o`: every node's offset is
/// assigned, a vertical stack advancing each child below its elder siblings
/// by their cached heights and every other node handing its own offset on;
/// views, keys and sizes are untouched.
pub open spec fn is_placed<V: View>(t: ViewTree<V>, o: Offset, r: ViewTree<V>) -> bool
    decreases t, 1int,
{
    &&& r.key == t.key
    &&& r.view == t.view
    &&& r.size == t.size
    &&& r.offset == o
    &&& if t.view.spec_layout_mode() is Column {
        is_placed_column(t.children@, o, r.children@)
    } else {
        &&& r.children@.len() == t.children@.len()
        &&& forall|i: int|
            0 <= i < t.children@.len() ==> is_placed(
                #[trigger] t.children@[i],
                o,
                r.children@[i],
            )
    }
}

/// The children `rs` are `cs` placed as a vertical stack starting at `o`.
pub open spec fn is_placed_column<V: View>(
    cs: Seq<ViewTree<V>>,
    o: Offset,
    rs: Seq<ViewTree<V>>,
) -> bool
    decreases cs, 0int,
{
    if cs.len() == 0 {
        rs.len() == 0
    } else {
        &&& rs.len() == cs.len()
        &&& is_placed(cs[0], o, rs[0])
        &&& is_placed_column(
            cs.drop_first(),
            Offset { x: o.x, y: sat_add(o.y, cs[0].size.height) },
            rs.drop_first(),
        )
    }
}

/// The tree `r` is `t` after delivering `e` to every node, pre-order: each
/// view handles the event given its own cached size and offset, and the walk
/// continues into children whether or not a parent consumed it.
pub open spec fn event_applied<V: View>(t: ViewTree<V>, e: Event, r: ViewTree<V>) -> bool
    decreases t,
{
    &&& r.key == t.key
    &&& r.size == t.size
    &&& r.offset == t.offset
    &&& r.view == t.view.spec_event(t.size, t.offset, e)
    &&& r.children@.len() == t.children@.len()
    &&& forall|i: int|
        0 <= i < t.children@.len() ==> event_applied(#[trigger] t.children@[i], e, r.children@[i])
}

/// The tree `r` is `t` with every node's own state cells marked clean.
pub open spec fn cleaned<V: View>(t: ViewTree<V>, r: ViewTree<V>) -> bool
    decreases t,
{
    &&& r.key == t.key
    &&& r.size == t.size
    &&& r.offset == t.offset
    &&& r.view == t.view.spec_clean()
    &&& r.children@.len() == t.children@.len()
    &&& forall|i: int|
        0 <= i < t.children@.len() ==> cleaned(#[trigger] t.children@[i], r.children@[i])
}

/// Whether any state cell anywhere in the subtree is dirty.
pub open spec fn tree_dirty<V: View>(t: ViewTree<V>) -> bool
    decreases t,
{
    t.view.spec_dirty() || exists|i: int|
        0 <= i < t.children@.len() && tree_dirty(#[trigger] t.children@[i])
}

/// The pre-order flattening of a tree.
pub open spec fn spec_flatten<V: View>(t: ViewTree<V>) -> Seq<Placed<V>>
    decreases t, 0int,
{
    seq![Placed { key: t.key, size: t.size, offset: t.offset, view: t.view }]
        + spec_flatten_children(t.children@)
}

/// The concatenated pre-order flattenings of a child list.
pub open spec fn spec_flatten_children<V: View>(cs: Seq<ViewTree<V>>) -> Seq<Placed<V>>
    decreases cs, 1int,
{
    if cs.len() == 0 {
        Seq::empty()
    } else {
        spec_flatten(cs[0]) + spec_flatten_children(cs.drop_first())
    }
}

/// Flattening distributes over appending one more child at the end.
proof fn lemma_flatten_children_push<V: View>(cs: Seq<ViewTree<V>>, x: ViewTree<V>)
    ensures
        spec_flatten_children(cs.push(x)) == spec_flatten_children(cs) + spec_flatten(x),
    decreases cs.len(),
{
    if cs.len() == 0 {
        assert(cs.push(x).drop_first() =~= Seq::<ViewTree<V>>::empty());
        assert(cs.push(x)[0] == x);
        assert(spec_flatten_children(cs.push(x)) == spec_flatten(x) + spec_flatten_children(
            Seq::<ViewTree<V>>::empty(),
        ));
        assert(spec_flatten_children(Seq::<ViewTree<V>>::empty()) == Seq::<Placed<V>>::empty());
        assert(spec_flatten(x) + Seq::<Placed<V>>::empty() =~= spec_flatten(x));
        assert(spec_flatten_children(cs) == Seq::<Placed<V>>::empty());
        assert(Seq::<Placed<V>>::empty() + spec_flatten(x) =~= spec_flatten(x));
    } else {
        assert(cs.push(x).drop_first() =~= cs.drop_first().push(x));
        assert(cs.push(x)[0] == cs[0]);
        lemma_flatten_children_push(cs.drop_first(), x);
        assert(spec_flatten_children(cs.push(x)) == spec_flatten(cs[0]) + (spec_flatten_children(
            cs.drop_first(),
        ) + spec_flatten(x)));
        assert(spec_flatten(cs[0]) + (spec_flatten_children(cs.drop_first()) + spec_flatten(x))
            =~= (spec_flatten(cs[0]) + spec_flatten_children(cs.drop_first())) + spec_flatten(x));
    }
}

impl<V: View> ViewTree<V> {
    /// Lays this subtree out under `c`, post-order: each node's children are
    /// laid out first and its own size is computed from theirs according to
    /// its layout mode, then cached on the node for the parent to read.
    pub fn layout(&mut self, c: Constraint)
        ensures
            is_laid(*old(self), c, *final(self)),
        decreases *old(self), 2int,
    {
        let mode = self.view.layout_mode();
        match mode {
            LayoutMode::Fixed(s) => {
                self.size = s;
            },
            LayoutMode::Adopt => {
                if self.children.len() == 1 {
                    proof {
                        assert(decreases_to!(*old(self) => old(self).children));
                        assert(decreases_to!(old(self).children => old(self).children@));
                        assert(decreases_to!(old(self).children@ => old(self).children@[0]));
                    }
                    self.children[0].layout(c);
                    let s = self.children[0].size;
                    self.size = s;
                } else {
                    self.size = Size::zero();
                }
            },
            LayoutMode::Column => {
                let mut cs: Vec<ViewTree<V>> = Vec::new();
                core::mem::swap(&mut self.children, &mut cs);
                proof {
                    assert(decreases_to!(*old(self) => old(self).children));
                    assert(decreases_to!(old(self).children => old(self).children@));
                }
                let laid = ViewTree::layout_column(cs, c);
                let total = ViewTree::measure_column(&laid);
                self.children = laid;
                self.size = total;
            },
        }
    }

    /// Lays a child list out as a vertical stack, shrinking the constraint
    /// below each child by the height it took.
    fn layout_column(cs: Vec<ViewTree<V>>, c: Constraint) -> (rs: Vec<ViewTree<V>>)
        ensures
            is_laid_column(cs@, c, rs@),
        decreases cs@, 1int,
    {
        let ghost gcs = cs@;
        let mut cs = cs;
        if cs.len() == 0 {
            cs
        } else {
            let mut head = cs.remove(0);
            proof {
                assert(head == gcs[0]);
                assert(decreases_to!(gcs => gcs[0]));
            }
            head.layout(c);
            let mut c2 = c;
            c2.sub_height(head.size.height);
            proof {
                assert(cs@ =~= gcs.drop_first());
            }
            let rest = ViewTree::layout_column(cs, c2);
            let mut out = rest;
            out.insert(0, head);
            proof {
                assert(out@.drop_first() =~= rest@);
                assert(out@[0] == head);
            }
            out
        }
    }

    /// Reads off the accumulated size of an already laid-out stack.
    fn measure_column(rs: &Vec<ViewTree<V>>) -> (s: Size)
        ensures
            s == column_total(rs@),
    {
        let mut total = Size::zero();
        let mut i: usize = rs.len();
        while i > 0
            invariant
                0 <= i <= rs@.len(),
                total == column_total(rs@.skip(i as int)),
            decreases i,
        {
            i = i - 1;
            let h = add_saturating(rs[i].size.height, total.height);
            let w = if rs[i].size.width >= total.width {
                rs[i].size.width
            } else {
                total.width
            };
            total = Size { width: w, height: h };
            proof {
                assert(rs@.skip(i as int)[0] == rs@[i as int]);
                assert(rs@.skip(i as int).drop_first() =~= rs@.skip(i as int + 1));
            }
        }
        proof {
            assert(rs@.skip(0) =~= rs@);
        }
        total
    }

    /// Assigns offsets to this subtree, pre-order: the node records `o` and
    /// hands positions to its children; a vertical stack advances each child
    /// below its elder siblings by their cached heights.
    pub fn set_offset(&mut self, o: Offset)
        ensures
            is_placed(*old(self), o, *final(self)),
        decreases *old(self), 2int,
    {
        self.offset = o;
        let mode = self.view.layout_mode();
        if let LayoutMode::Column = mode {
            let mut cs: Vec<ViewTree<V>> = Vec::new();
            core::mem::swap(&mut self.children, &mut cs);
            proof {
                assert(decreases_to!(*old(self) => old(self).children));
                assert(decreases_to!(old(self).children => old(self).children@));
            }
            let placed = ViewTree::place_column(cs, o);
            self.children = placed;
        } else {
            let n = self.children.len();
            let mut i: usize = 0;
            while i < n
                invariant
                    n == self.children.len(),
                    n == old(self).children.len(),
                    self.key == old(self).key,
                    self.view == old(self).view,
                    self.size == old(self).size,
                    self.offset == o,
                    forall|j: int| i <= j < n ==> self.children@[j] == old(self).children@[j],
                    forall|j: int|
                        0 <= j < i ==> is_placed(
                            old(self).children@[j],
                            o,
                            #[trigger] self.children@[j],
                        ),
                decreases n - i,
            {
                proof {
                    assert(self.children@[i as int] == old(self).children@[i as int]);
                    assert(decreases_to!(*old(self) => old(self).children));
                    assert(decreases_to!(old(self).children => old(self).children@));
                    assert(decreases_to!(old(self).children@ => old(self).children@[i as int]));
                }
                self.children[i].set_offset(o);
                i = i + 1;
            }
        }
    }

    /// Places a child list as a vertical stack starting at `o`.
    fn place_column(cs: Vec<ViewTree<V>>, o: Offset) -> (rs: Vec<ViewTree<V>>)
        ensures
            is_placed_column(cs@, o, rs@),
        decreases cs@, 1int,
    {
        let ghost gcs = cs@;
        let mut cs = cs;
        if cs.len() == 0 {
            cs
        } else {
            let mut head = cs.remove(0);
            proof {
                assert(head == gcs[0]);
                assert(decreases_to!(gcs => gcs[0]));
            }
            let h = head.size.height;
            head.set_offset(o);
            let o2 = Offset { x: o.x, y: add_saturating(o.y, h) };
            proof {
                assert(cs@ =~= gcs.drop_first());
            }
            let rest = ViewTree::place_column(cs, o2);
            let mut out = rest;
            out.insert(0, head);
            proof {
                assert(out@.drop_first() =~= rest@);
                assert(out@[0] == head);
            }
            out
        }
    }

    /// Delivers `event` to this subtree, pre-order: every node's view sees
    /// the event with the node's cached size and offset, and the walk
    /// continues into children whether or not a parent consumed it.
    pub fn event(&mut self, event: &Event)
        ensures
            event_applied(*old(self), *event, *final(self)),
        decreases *old(self),
    {
        let sz = self.size;
        let off = self.offset;
        self.view.event(sz, off, event);
        let n = self.children.len();
        let mut i: usize = 0;
        while i < n
            invariant
                n == self.children.len(),
                n == old(self).children.len(),
                self.key == old(self).key,
                self.view == old(self).view.spec_event(
                    old(self).size,
                    old(self).offset,
                    *event,
                ),
                self.size == old(self).size,
                self.offset == old(self).offset,
                forall|j: int| i <= j < n ==> self.children@[j] == old(self).children@[j],
                forall|j: int|
                    0 <= j < i ==> event_applied(
                        old(self).children@[j],
                        *event,
                        #[trigger] self.children@[j],
                    ),
            decreases n - i,
        {
            proof {
                assert(self.children@[i as int] == old(self).children@[i as int]);
                assert(decreases_to!(*old(self) => old(self).children));
                assert(decreases_to!(old(self).children => old(self).children@));
                assert(decreases_to!(old(self).children@ => old(self).children@[i as int]));
            }
            self.children[i].event(event);
            i = i + 1;
        }
    }

    /// Clears the dirty flags of every state cell in this subtree, run once
    /// per cycle after rendering.
    pub fn clean(&mut self)
        ensures
            cleaned(*old(self), *final(self)),
        decreases *old(self),
    {
        self.view.clean();
        let n = self.children.len();
        let mut i: usize = 0;
        while i < n
            invariant
                n == self.children.len(),
                n == old(self).children.len(),
                self.key == old(self).key,
                self.view == old(self).view.spec_clean(),
                self.size == old(self).size,
                self.offset == old(self).offset,
                forall|j: int| i <= j < n ==> self.children@[j] == old(self).children@[j],
                forall|j: int|
                    0 <= j < i ==> cleaned(old(self).children@[j], #[trigger] self.children@[j]),
            decreases n - i,
        {
            proof {
                assert(self.children@[i as int] == old(self).children@[i as int]);
                assert(decreases_to!(*old(self) => old(self).children));
                assert(decreases_to!(old(self).children => old(self).children@));
                assert(decreases_to!(old(self).children@ => old(self).children@[i as int]));
            }
            self.children[i].clean();
            i = i + 1;
        }
    }

    /// Lists this subtree pre-order, each node with the key, size and offset
    /// it is currently retained under, for a renderer to consume.
    pub fn flatten(&self) -> (out: Vec<Placed<V>>)
        ensures
            out@ == spec_flatten(*self),
        decreases *self,
    {
        let mut out: Vec<Placed<V>> = Vec::new();
        out.push(
            Placed {
                key: self.key,
                size: self.size,
                offset: self.offset,
                view: self.view.clone_view(),
            },
        );
        let ghost head = out@;
        let n = self.children.len();
        let mut i: usize = 0;
        while i < n
            invariant
                0 <= i <= n,
                n == self.children.len(),
                out@ == head + spec_flatten_children(self.children@.take(i as int)),
            decreases n - i,
        {
            proof {
                assert(decreases_to!(*self => self.children));
                assert(decreases_to!(self.children => self.children@));
                assert(decreases_to!(self.children@ => self.children@[i as int]));
            }
            let mut sub = self.children[i].flatten();
            out.append(&mut sub);
            proof {
                lemma_flatten_children_push(
                    self.children@.take(i as int),
                    self.children@[i as int],
                );
                assert(self.children@.take(i as int + 1) =~= self.children@.take(
                    i as int,
                ).push(self.children@[i as int]));
                assert(out@ =~= head + spec_flatten_children(self.children@.take(i as int + 1)));
            }
            i = i + 1;
        }
        proof {
            assert(self.children@.take(n as int) =~= self.children@);
            assert(out@ == head + spec_flatten_children(self.children@));
            assert(head =~= seq![
                Placed { key: self.key, size: self.size, offset: self.offset, view: self.view },
            ]);
            assert(spec_flatten(*self) == seq![
                Placed { key: self.key, size: self.size, offset: self.offset, view: self.view },
            ] + spec_flatten_children(self.children@));
            assert(out@ =~= spec_flatten(*self));
        }
        out
    }
}

} // verus!
