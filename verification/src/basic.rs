//! The built-in node kinds: the empty view, a text leaf, and a vertical
//! stack of explicitly keyed children, together with the tagged union
//! [`BasicView`] that lets the three appear in one tree.
//!
//! An application composes its own node kinds the same way: a union over the
//! kinds it uses, implementing [`crate::view::Hydrate`] and
//! [`crate::view::View`] by dispatching on the variant.  A description of a
//! different kind under an unchanged key is not specially detected: hydrate
//! ignores it and the sameness check answers false, so the mismatch is
//! discarded silently rather than failing.

use vstd::prelude::*;
use vstd::view::View as VstdView;

use crate::geometry::Offset;
use crate::geometry::Size;
use crate::key::Key;
use crate::state::State;
use crate::state::lemma_state_cleaned;
use crate::geometry::add_saturating;
use crate::view::Event;
use crate::view::Hydrate;
use crate::view::Keyed;
use crate::view::LayoutMode;
use crate::view::View;
use crate::view::unique_keys;

verus! {

/// A node with nothing to show and no children.
#[derive(Debug, Clone, Copy, PartialEq, Eq, Structural)]
pub struct EmptyView;

/// A leaf showing one line of text; its intrinsic size is one cell per
/// character on a single row.
#[derive(Debug)]
pub struct Text {
    pub text: String,
}

impl Text {
    /// Makes a text leaf showing `text`.
    pub fn new(text: String) -> (t: Text)
        ensures
            t.text == text,
    {
        Text { text }
    }
}

/// A vertical stack holding an explicitly keyed child list.
#[derive(Debug)]
pub struct Stack {
    pub children: ChildList,
}

/// An interactive leaf owning one persistent counter.  The count survives
/// hydration — only `step` is a property copied forward — and a mouse press
/// inside the node's rectangle raises the count by `step`, marking it dirty.
/// Its intrinsic size is one cell.
#[derive(Debug, Clone, Copy, PartialEq, Eq)]
pub struct Counter {
    pub count: State<u64>,
    pub step: u64,
}

impl Counter {
    /// Makes a counter starting at `count`, advancing by `step` per press.
    pub fn new(count: u64, step: u64) -> (c: Counter)
        ensures
            c.count.spec_value() == count,
            c.count.spec_dirty(),
            c.step == step,
    {
        Counter { count: State::new(count), step }
    }
}

/// The children of a [`Stack`], in the order they were pushed.
#[derive(Debug)]
pub enum ChildList {
    Nil,
    Cons(Key, Box<BasicView>, Box<ChildList>),
}

/// The union of the built-in node kinds.
#[derive(Debug)]
pub enum BasicView {
    Empty,
    Text(Text),
    Stack(Stack),
    Counter(Counter),
}

impl ChildList {
    /// The stored children as keyed descriptions, in order.
    pub open spec fn to_seq(self) -> Seq<Keyed<BasicView>>
        decreases self,
    {
        match self {
            ChildList::Nil => Seq::empty(),
            ChildList::Cons(k, v, rest) => seq![Keyed { key: k, view: *v }] + rest.to_seq(),
        }
    }
}

/// The stored children with every repeated key dropped after its first
/// occurrence, appended to `out`.  Sibling keys are meant to be distinct;
/// where an author reuses one, the stack keeps the first child so that the
/// derived child list always has one child per key.
pub open spec fn dedup_children(l: ChildList, out: Seq<Keyed<BasicView>>) -> Seq<
    Keyed<BasicView>,
>
    decreases l,
{
    match l {
        ChildList::Nil => out,
        ChildList::Cons(k, v, rest) => {
            if has_keyed_key(out, k) {
                dedup_children(*rest, out)
            } else {
                dedup_children(*rest, out.push(Keyed { key: k, view: *v }))
            }
        },
    }
}

/// Some description in `ds` carries the key `k`.
pub open spec fn has_keyed_key(ds: Seq<Keyed<BasicView>>, k: Key) -> bool {
    exists|m: int| 0 <= m < ds.len() && (#[trigger] ds[m]).key == k
}

/// The derivation depth of a built-in node: leaves are flat, a stack sits
/// one level above its tallest child.
pub open spec fn basic_height(v: BasicView) -> nat
    decreases v,
{
    match v {
        BasicView::Empty => 0,
        BasicView::Text(_) => 0,
        BasicView::Counter(_) => 0,
        BasicView::Stack(s) => list_height(s.children) + 1,
    }
}

/// The tallest node stored in a child list.
pub open spec fn list_height(l: ChildList) -> nat
    decreases l,
{
    match l {
        ChildList::Nil => 0,
        ChildList::Cons(_, v, rest) => {
            let hv = basic_height(*v);
            let hr = list_height(*rest);
            if hv >= hr {
                hv
            } else {
                hr
            }
        },
    }
}

/// Structural sameness of built-in nodes: equal kind, equal text, equal
/// child lists key by key.
pub open spec fn same_basic(a: BasicView, b: BasicView) -> bool
    decreases a,
{
    match (a, b) {
        (BasicView::Empty, BasicView::Empty) => true,
        (BasicView::Text(x), BasicView::Text(y)) => x.text@ == y.text@,
        (BasicView::Stack(x), BasicView::Stack(y)) => same_list(x.children, y.children),
        (BasicView::Counter(x), BasicView::Counter(y)) => x.step == y.step,
        _ => false,
    }
}

/// The node `a` after absorbing the description `b`: properties copied
/// forward, state cells kept, a description of a different kind ignored.
pub open spec fn hydrate_basic(a: BasicView, b: BasicView) -> BasicView {
    match (a, b) {
        (BasicView::Empty, BasicView::Empty) => b,
        (BasicView::Text(_), BasicView::Text(_)) => b,
        (BasicView::Stack(_), BasicView::Stack(_)) => b,
        (BasicView::Counter(x), BasicView::Counter(y)) => BasicView::Counter(
            Counter { count: x.count, step: y.step },
        ),
        _ => a,
    }
}

/// The node with the dirty flags of its own state cells cleared.
pub open spec fn clean_basic(a: BasicView) -> BasicView {
    match a {
        BasicView::Counter(x) => BasicView::Counter(
            Counter { count: x.count.spec_cleaned(), step: x.step },
        ),
        _ => a,
    }
}

/// The node after handling an event at the rectangle it was laid out with:
/// a counter hit by a mouse press advances by its step, saturating; every
/// other node, and a press elsewhere, changes nothing.
pub open spec fn event_basic(a: BasicView, size: Size, offset: Offset, e: Event) -> BasicView {
    match a {
        BasicView::Counter(x) => {
            let Event::MousePress(_, px, py) = e;
            if offset.x <= px < crate::geometry::sat_add(offset.x, size.width) && offset.y <= py
                < crate::geometry::sat_add(offset.y, size.height) {
                BasicView::Counter(
                    Counter {
                        count: x.count.spec_set(crate::geometry::sat_add(x.count.spec_value(), x.step)),
                        step: x.step,
                    },
                )
            } else {
                a
            }
        },
        _ => a,
    }
}

/// Structural sameness of stored child lists.
pub open spec fn same_list(a: ChildList, b: ChildList) -> bool
    decreases a,
{
    match (a, b) {
        (ChildList::Nil, ChildList::Nil) => true,
        (ChildList::Cons(k1, v1, r1), ChildList::Cons(k2, v2, r2)) => k1 == k2 && same_basic(
            *v1,
            *v2,
        ) && same_list(*r1, *r2),
        _ => false,
    }
}

/// Deduplication keeps keys unique and draws every child from the stored
/// list or from what was already collected.
proof fn lemma_dedup_children_wf(l: ChildList, out: Seq<Keyed<BasicView>>)
    requires
        unique_keys(out),
    ensures
        unique_keys(dedup_children(l, out)),
        forall|i: int|
            0 <= i < dedup_children(l, out).len() ==> out.contains(
                #[trigger] dedup_children(l, out)[i],
            ) || l.to_seq().contains(dedup_children(l, out)[i]),
    decreases l,
{
    match l {
        ChildList::Nil => {
        },
        ChildList::Cons(k, v, rest) => {
            if has_keyed_key(out, k) {
                lemma_dedup_children_wf(*rest, out);
                assert forall|i: int|
                    0 <= i < dedup_children(l, out).len() implies out.contains(
                    #[trigger] dedup_children(l, out)[i],
                ) || l.to_seq().contains(dedup_children(l, out)[i]) by {
                    if rest.to_seq().contains(dedup_children(l, out)[i]) {
                        let w = choose|w: int|
                            0 <= w < rest.to_seq().len() && rest.to_seq()[w] == dedup_children(
                                l,
                                out,
                            )[i];
                        assert(l.to_seq()[w + 1] == rest.to_seq()[w]);
                    }
                }
            } else {
                let out2 = out.push(Keyed { key: k, view: *v });
                assert forall|i: int, j: int| 0 <= i < j < out2.len() implies (
                #[trigger] out2[i]).key != (#[trigger] out2[j]).key by {
                    if j == out.len() as int {
                        assert(!has_keyed_key(out, k));
                        assert(out[i].key != k);
                    }
                }
                lemma_dedup_children_wf(*rest, out2);
                assert forall|i: int|
                    0 <= i < dedup_children(l, out).len() implies out.contains(
                    #[trigger] dedup_children(l, out)[i],
                ) || l.to_seq().contains(dedup_children(l, out)[i]) by {
                    let x = dedup_children(l, out)[i];
                    if out2.contains(x) {
                        if x == out2[out.len() as int] {
                            assert(l.to_seq()[0] == x);
                        } else {
                            let w = choose|w: int| 0 <= w < out2.len() && out2[w] == x;
                            assert(out[w] == x);
                        }
                    } else if rest.to_seq().contains(x) {
                        let w = choose|w: int|
                            0 <= w < rest.to_seq().len() && rest.to_seq()[w] == x;
                        assert(l.to_seq()[w + 1] == x);
                    }
                }
            }
        },
    }
}

/// Every stored child is at most as tall as its list.
proof fn lemma_list_height_bound(l: ChildList)
    ensures
        forall|i: int|
            0 <= i < l.to_seq().len() ==> basic_height((#[trigger] l.to_seq()[i]).view)
                <= list_height(l),
    decreases l,
{
    match l {
        ChildList::Nil => {
        },
        ChildList::Cons(k, v, rest) => {
            lemma_list_height_bound(*rest);
            assert forall|i: int| 0 <= i < l.to_seq().len() implies basic_height(
                (#[trigger] l.to_seq()[i]).view,
            ) <= list_height(l) by {
                if i > 0 {
                    assert(l.to_seq()[i] == rest.to_seq()[i - 1]);
                }
            }
        },
    }
}

impl Stack {
    /// Makes a stack with no children yet.
    pub fn new() -> (s: Stack)
        ensures
            s.children == ChildList::Nil,
    {
        Stack { children: ChildList::Nil }
    }

    /// Appends a child under the given key.
    pub fn push(&mut self, key: Key, child: BasicView)
        ensures
            final(self).children.to_seq() == old(self).children.to_seq().push(
                Keyed { key, view: child },
            ),
    {
        let mut tail = ChildList::Nil;
        core::mem::swap(&mut self.children, &mut tail);
        self.children = ChildList::push_back(tail, key, child);
    }

    /// Appends a child under the given key, builder style.
    pub fn with_child(self, key: Key, child: BasicView) -> (s: Stack)
        ensures
            s.children.to_seq() == self.children.to_seq().push(Keyed { key, view: child }),
    {
        let mut s = self;
        s.push(key, child);
        s
    }
}

impl ChildList {
    /// Appends one keyed child at the end of the list.
    fn push_back(list: ChildList, key: Key, child: BasicView) -> (r: ChildList)
        ensures
            r.to_seq() == list.to_seq().push(Keyed { key, view: child }),
        decreases list,
    {
        match list {
            ChildList::Nil => {
                let r = ChildList::Cons(key, Box::new(child), Box::new(ChildList::Nil));
                proof {
                    assert(r.to_seq() =~= list.to_seq().push(Keyed { key, view: child }));
                }
                r
            },
            ChildList::Cons(k, v, rest) => {
                let new_rest = ChildList::push_back(*rest, key, child);
                let r = ChildList::Cons(k, v, Box::new(new_rest));
                proof {
                    assert(r.to_seq() =~= list.to_seq().push(Keyed { key, view: child }));
                }
                r
            },
        }
    }
}

/// Duplicates a built-in node.
fn clone_basic(v: &BasicView) -> (c: BasicView)
    ensures
        c == *v,
    decreases *v,
{
    match v {
        BasicView::Empty => BasicView::Empty,
        BasicView::Text(t) => BasicView::Text(Text { text: t.text.clone() }),
        BasicView::Stack(s) => BasicView::Stack(Stack { children: clone_list(&s.children) }),
        BasicView::Counter(c) => BasicView::Counter(*c),
    }
}

/// Duplicates a stored child list.
fn clone_list(l: &ChildList) -> (c: ChildList)
    ensures
        c == *l,
    decreases *l,
{
    match l {
        ChildList::Nil => ChildList::Nil,
        ChildList::Cons(k, v, rest) => ChildList::Cons(
            *k,
            Box::new(clone_basic(v)),
            Box::new(clone_list(rest)),
        ),
    }
}

/// Compares two built-in nodes structurally.
fn eq_basic(a: &BasicView, b: &BasicView) -> (r: bool)
    ensures
        r == same_basic(*a, *b),
    decreases *a,
{
    match (a, b) {
        (BasicView::Empty, BasicView::Empty) => true,
        (BasicView::Text(x), BasicView::Text(y)) => x.text == y.text,
        (BasicView::Stack(x), BasicView::Stack(y)) => eq_list(&x.children, &y.children),
        (BasicView::Counter(x), BasicView::Counter(y)) => x.step == y.step,
        _ => false,
    }
}

/// Compares two stored child lists structurally.
fn eq_list(a: &ChildList, b: &ChildList) -> (r: bool)
    ensures
        r == same_list(*a, *b),
    decreases *a,
{
    match (a, b) {
        (ChildList::Nil, ChildList::Nil) => true,
        (ChildList::Cons(k1, v1, r1), ChildList::Cons(k2, v2, r2)) => k1.0 == k2.0 && eq_basic(
            v1,
            v2,
        ) && eq_list(r1, r2),
        _ => false,
    }
}

/// Whether some already collected description carries the key `k`.
fn vec_has_key(out: &Vec<Keyed<BasicView>>, k: Key) -> (r: bool)
    ensures
        r == has_keyed_key(out@, k),
{
    let n = out.len();
    let mut i: usize = 0;
    while i < n
        invariant
            0 <= i <= n,
            n == out@.len(),
            forall|j: int| 0 <= j < i ==> (#[trigger] out@[j]).key != k,
        decreases n - i,
    {
        if out[i].key.0 == k.0 {
            proof {
                assert(out@[i as int].key == k);
            }
            return true;
        }
        i = i + 1;
    }
    false
}

/// Collects the stored children into `out`, keeping the first child of any
/// repeated key.
fn collect_children(l: &ChildList, out: &mut Vec<Keyed<BasicView>>)
    ensures
        final(out)@ == dedup_children(*l, old(out)@),
    decreases *l,
{
    match l {
        ChildList::Nil => {
        },
        ChildList::Cons(k, v, rest) => {
            if !vec_has_key(out, *k) {
                let view = clone_basic(v);
                out.push(Keyed { key: *k, view });
            }
            collect_children(rest, out);
        },
    }
}

impl Hydrate for EmptyView {
    open spec fn spec_hydrate(&self, other: Self) -> Self {
        other
    }

    open spec fn spec_same(&self, other: Self) -> bool {
        true
    }

    open spec fn spec_dirty(&self) -> bool {
        false
    }

    open spec fn spec_clean(&self) -> Self {
        *self
    }

    fn hydrate(&mut self, other: &Self) {
        *self = EmptyView;
    }

    fn is_same(&self, other: &Self) -> (r: bool) {
        true
    }

    fn is_dirty(&self) -> (r: bool) {
        false
    }

    fn clean(&mut self) {
    }

    proof fn lemma_clean_clears_dirty(&self) {
    }
}

impl View for EmptyView {
    open spec fn spec_height(&self) -> nat {
        0
    }

    open spec fn spec_children(&self) -> Seq<Keyed<Self>> {
        Seq::empty()
    }

    open spec fn spec_layout_mode(&self) -> LayoutMode {
        LayoutMode::Adopt
    }

    open spec fn spec_event(&self, size: Size, offset: Offset, event: Event) -> Self {
        *self
    }

    proof fn lemma_children_wf(&self) {
    }

    fn children(&self) -> (cs: Vec<Keyed<Self>>) {
        Vec::new()
    }

    fn layout_mode(&self) -> (m: LayoutMode) {
        LayoutMode::Adopt
    }

    fn event(&mut self, size: Size, offset: Offset, event: &Event) {
    }

    fn clone_view(&self) -> (c: Self) {
        EmptyView
    }
}

impl Hydrate for Text {
    open spec fn spec_hydrate(&self, other: Self) -> Self {
        other
    }

    open spec fn spec_same(&self, other: Self) -> bool {
        self.text@ == other.text@
    }

    open spec fn spec_dirty(&self) -> bool {
        false
    }

    open spec fn spec_clean(&self) -> Self {
        *self
    }

    fn hydrate(&mut self, other: &Self) {
        self.text = other.text.clone();
    }

    fn is_same(&self, other: &Self) -> (r: bool) {
        self.text == other.text
    }

    fn is_dirty(&self) -> (r: bool) {
        false
    }

    fn clean(&mut self) {
    }

    proof fn lemma_clean_clears_dirty(&self) {
    }
}

impl View for Text {
    open spec fn spec_height(&self) -> nat {
        0
    }

    open spec fn spec_children(&self) -> Seq<Keyed<Self>> {
        Seq::empty()
    }

    open spec fn spec_layout_mode(&self) -> LayoutMode {
        LayoutMode::Fixed(Size { width: self.text@.len() as u64, height: 1 })
    }

    open spec fn spec_event(&self, size: Size, offset: Offset, event: Event) -> Self {
        *self
    }

    proof fn lemma_children_wf(&self) {
    }

    fn children(&self) -> (cs: Vec<Keyed<Self>>) {
        Vec::new()
    }

    fn layout_mode(&self) -> (m: LayoutMode) {
        let w = self.text.as_str().unicode_len();
        LayoutMode::Fixed(Size { width: w as u64, height: 1 })
    }

    fn event(&mut self, size: Size, offset: Offset, event: &Event) {
    }

    fn clone_view(&self) -> (c: Self) {
        Text { text: self.text.clone() }
    }
}

impl Hydrate for BasicView {
    open spec fn spec_hydrate(&self, other: Self) -> Self {
        hydrate_basic(*self, other)
    }

    open spec fn spec_same(&self, other: Self) -> bool {
        same_basic(*self, other)
    }

    open spec fn spec_dirty(&self) -> bool {
        match *self {
            BasicView::Counter(c) => c.count.spec_dirty(),
            _ => false,
        }
    }

    open spec fn spec_clean(&self) -> Self {
        clean_basic(*self)
    }

    fn hydrate(&mut self, other: &Self) {
        match (self, other) {
            (BasicView::Empty, BasicView::Empty) => {},
            (BasicView::Text(a), BasicView::Text(b)) => {
                a.text = b.text.clone();
            },
            (BasicView::Stack(a), BasicView::Stack(b)) => {
                a.children = clone_list(&b.children);
            },
            (BasicView::Counter(a), BasicView::Counter(b)) => {
                a.step = b.step;
            },
            _ => {},
        }
    }

    fn is_same(&self, other: &Self) -> (r: bool) {
        eq_basic(self, other)
    }

    fn is_dirty(&self) -> (r: bool) {
        match self {
            BasicView::Counter(c) => c.count.is_dirty(),
            _ => false,
        }
    }

    fn clean(&mut self) {
        if let BasicView::Counter(c) = self {
            c.count.clean();
        }
    }

    proof fn lemma_clean_clears_dirty(&self) {
        if let BasicView::Counter(c) = *self {
            lemma_state_cleaned(c.count);
        }
    }
}

impl View for BasicView {
    open spec fn spec_height(&self) -> nat {
        basic_height(*self)
    }

    open spec fn spec_children(&self) -> Seq<Keyed<Self>> {
        match *self {
            BasicView::Stack(s) => dedup_children(s.children, Seq::empty()),
            _ => Seq::empty(),
        }
    }

    open spec fn spec_layout_mode(&self) -> LayoutMode {
        match *self {
            BasicView::Empty => LayoutMode::Adopt,
            BasicView::Text(t) => LayoutMode::Fixed(
                Size { width: t.text@.len() as u64, height: 1 },
            ),
            BasicView::Stack(_) => LayoutMode::Column,
            BasicView::Counter(_) => LayoutMode::Fixed(Size { width: 1, height: 1 }),
        }
    }

    open spec fn spec_event(&self, size: Size, offset: Offset, event: Event) -> Self {
        event_basic(*self, size, offset, event)
    }

    proof fn lemma_children_wf(&self) {
        match *self {
            BasicView::Stack(s) => {
                lemma_dedup_children_wf(s.children, Seq::empty());
                lemma_list_height_bound(s.children);
                assert forall|i: int| 0 <= i < self.spec_children().len() implies (
                #[trigger] self.spec_children()[i]).view.spec_height() < self.spec_height() by {
                    let x = self.spec_children()[i];
                    assert(s.children.to_seq().contains(x));
                    let w = choose|w: int|
                        0 <= w < s.children.to_seq().len() && s.children.to_seq()[w] == x;
                    assert(basic_height(s.children.to_seq()[w].view) <= list_height(s.children));
                }
            },
            _ => {
            },
        }
    }

    fn children(&self) -> (cs: Vec<Keyed<Self>>) {
        match self {
            BasicView::Stack(s) => {
                let mut out: Vec<Keyed<BasicView>> = Vec::new();
                collect_children(&s.children, &mut out);
                out
            },
            _ => Vec::new(),
        }
    }

    fn layout_mode(&self) -> (m: LayoutMode) {
        match self {
            BasicView::Empty => LayoutMode::Adopt,
            BasicView::Text(t) => {
                let w = t.text.as_str().unicode_len();
                LayoutMode::Fixed(Size { width: w as u64, height: 1 })
            },
            BasicView::Stack(_) => LayoutMode::Column,
            BasicView::Counter(_) => LayoutMode::Fixed(Size { width: 1, height: 1 }),
        }
    }

    fn event(&mut self, size: Size, offset: Offset, event: &Event) {
        if let BasicView::Counter(c) = self {
            let Event::MousePress(_, px, py) = *event;
            let x_end = add_saturating(offset.x, size.width);
            let y_end = add_saturating(offset.y, size.height);
            if offset.x <= px && px < x_end && offset.y <= py && py < y_end {
                let raised = add_saturating(c.count.get(), c.step);
                c.count.set(raised);
            }
        }
    }

    fn clone_view(&self) -> (c: Self) {
        clone_basic(self)
    }
}

impl BasicView {
    /// Narrows to the text kind; answers nothing when the node is of another
    /// kind, rather than failing.
    pub fn as_text(&self) -> (r: Option<&Text>)
        ensures
            match r {
                Some(t) => *self matches BasicView::Text(inner) && *t == inner,
                None => !(*self matches BasicView::Text(_)),
            },
    {
        match self {
            BasicView::Text(t) => Some(t),
            _ => None,
        }
    }

    /// Narrows to the stack kind; answers nothing when the node is of
    /// another kind.
    pub fn as_stack(&self) -> (r: Option<&Stack>)
        ensures
            match r {
                Some(s) => *self matches BasicView::Stack(inner) && *s == inner,
                None => !(*self matches BasicView::Stack(_)),
            },
    {
        match self {
            BasicView::Stack(s) => Some(s),
            _ => None,
        }
    }

    /// Narrows to the counter kind; answers nothing when the node is of
    /// another kind.
    pub fn as_counter(&self) -> (r: Option<&Counter>)
        ensures
            match r {
                Some(c) => *self matches BasicView::Counter(inner) && *c == inner,
                None => !(*self matches BasicView::Counter(_)),
            },
    {
        match self {
            BasicView::Counter(c) => Some(c),
            _ => None,
        }
    }
}

/// State survives hydration of a counter: absorbing any description — same
/// kind or not — leaves the persistent count, value and dirty flag alike,
/// exactly as it was; only the step property is copied forward.
pub proof fn lemma_counter_state_survives(a: Counter, d: BasicView)
    ensures
        hydrate_basic(BasicView::Counter(a), d) matches BasicView::Counter(c) && c.count
            == a.count,
{
}

} // verus!
