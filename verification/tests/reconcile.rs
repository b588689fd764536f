// Reconciliation behaviour seen from an application: a small component tree
// with per-node state, driven through hydrate cycles, the dirty-only pass,
// layout, placement and event dispatch.

use quill::Event;
use quill::Hydrate;
use quill::Key;
use quill::Keyed;
use quill::LayoutMode;
use quill::MouseButton;
use quill::Offset;
use quill::Size;
use quill::State;
use quill::View;
use quill::ViewTree;

#[derive(Debug)]
enum AppView {
    Root(Root),
    Child(Child),
    Leaf(Leaf),
    Bag(Bag),
    Item(Item),
}

/// Owns state `s`; derives `Child` with `prop = s + 1`.
#[derive(Debug)]
struct Root {
    s: State<i64>,
}

/// Owns state `t`, carries prop; derives `Leaf` with `val = t + prop`.
#[derive(Debug)]
struct Child {
    t: State<i64>,
    prop: i64,
}

#[derive(Debug)]
struct Leaf {
    val: i64,
}

/// Derives one `Item` per `(key, prop)` entry, in the order given.
#[derive(Debug)]
struct Bag {
    items: Vec<(u32, i64)>,
}

/// Owns state `st`, carries prop; derives `Leaf` with `val = st + prop`.
/// A mouse press inside its rectangle increments `st`.
#[derive(Debug)]
struct Item {
    st: State<i64>,
    prop: i64,
}

impl Hydrate for AppView {
    fn spec_hydrate(&self, _other: Self) -> Self {
        unreachable!()
    }

    fn spec_same(&self, _other: Self) -> bool {
        unreachable!()
    }

    fn spec_dirty(&self) -> bool {
        unreachable!()
    }

    fn spec_clean(&self) -> Self {
        unreachable!()
    }

    fn lemma_clean_clears_dirty(&self) {
        unreachable!()
    }

    fn hydrate(&mut self, other: &Self) {
        match (self, other) {
            (AppView::Root(_), AppView::Root(_)) => {}
            (AppView::Child(a), AppView::Child(b)) => a.prop = b.prop,
            (AppView::Leaf(a), AppView::Leaf(b)) => a.val = b.val,
            (AppView::Bag(a), AppView::Bag(b)) => a.items = b.items.clone(),
            (AppView::Item(a), AppView::Item(b)) => a.prop = b.prop,
            _ => {}
        }
    }

    fn is_same(&self, other: &Self) -> bool {
        match (self, other) {
            (AppView::Root(_), AppView::Root(_)) => true,
            (AppView::Child(a), AppView::Child(b)) => a.prop == b.prop,
            (AppView::Leaf(a), AppView::Leaf(b)) => a.val == b.val,
            (AppView::Bag(a), AppView::Bag(b)) => a.items == b.items,
            (AppView::Item(a), AppView::Item(b)) => a.prop == b.prop,
            _ => false,
        }
    }

    fn is_dirty(&self) -> bool {
        match self {
            AppView::Root(r) => r.s.is_dirty(),
            AppView::Child(c) => c.t.is_dirty(),
            AppView::Item(i) => i.st.is_dirty(),
            _ => false,
        }
    }

    fn clean(&mut self) {
        match self {
            AppView::Root(r) => r.s.clean(),
            AppView::Child(c) => c.t.clean(),
            AppView::Item(i) => i.st.clean(),
            _ => {}
        }
    }
}

impl View for AppView {
    fn spec_height(&self) -> vstd::prelude::nat {
        unreachable!()
    }

    fn spec_children(&self) -> vstd::prelude::Seq<Keyed<Self>> {
        unreachable!()
    }

    fn spec_layout_mode(&self) -> LayoutMode {
        unreachable!()
    }

    fn spec_event(&self, _size: Size, _offset: Offset, _event: Event) -> Self {
        unreachable!()
    }

    fn lemma_children_wf(&self) {
        unreachable!()
    }

    fn children(&self) -> Vec<Keyed<AppView>> {
        match self {
            AppView::Root(r) => vec![Keyed {
                key: Key::new(1),
                view: AppView::Child(Child { t: State::new(0), prop: r.s.get() + 1 }),
            }],
            AppView::Child(c) => vec![Keyed {
                key: Key::new(1),
                view: AppView::Leaf(Leaf { val: c.t.get() + c.prop }),
            }],
            AppView::Bag(b) => {
                let mut out = Vec::new();
                for (k, p) in b.items.iter() {
                    out.push(Keyed {
                        key: Key::new(*k),
                        view: AppView::Item(Item { st: State::new(0), prop: *p }),
                    });
                }
                out
            }
            AppView::Item(i) => vec![Keyed {
                key: Key::new(1),
                view: AppView::Leaf(Leaf { val: i.st.get() + i.prop }),
            }],
            AppView::Leaf(_) => Vec::new(),
        }
    }

    fn layout_mode(&self) -> LayoutMode {
        match self {
            AppView::Leaf(_) => LayoutMode::Fixed(Size { width: 4, height: 1 }),
            AppView::Bag(_) => LayoutMode::Column,
            _ => LayoutMode::Adopt,
        }
    }

    fn event(&mut self, size: Size, offset: Offset, event: &Event) {
        if let AppView::Item(it) = self {
            let Event::MousePress(_, x, y) = *event;
            if x >= offset.x
                && x < offset.x + size.width
                && y >= offset.y
                && y < offset.y + size.height
            {
                it.st.set(it.st.get() + 1);
            }
        }
    }

    fn clone_view(&self) -> AppView {
        match self {
            AppView::Root(r) => AppView::Root(Root { s: r.s }),
            AppView::Child(c) => AppView::Child(Child { t: c.t, prop: c.prop }),
            AppView::Leaf(l) => AppView::Leaf(Leaf { val: l.val }),
            AppView::Bag(b) => AppView::Bag(Bag { items: b.items.clone() }),
            AppView::Item(i) => AppView::Item(Item { st: i.st, prop: i.prop }),
        }
    }
}

fn root_desc() -> Keyed<AppView> {
    Keyed { key: Key::new(0), view: AppView::Root(Root { s: State::new(0) }) }
}

fn bag_desc(items: &[(u32, i64)]) -> Keyed<AppView> {
    Keyed { key: Key::new(0), view: AppView::Bag(Bag { items: items.to_vec() }) }
}

fn leaf_val(t: &ViewTree<AppView>) -> i64 {
    match &t.view {
        AppView::Leaf(l) => l.val,
        other => panic!("expected a leaf, found {:?}", other),
    }
}

fn item_state(t: &ViewTree<AppView>) -> i64 {
    match &t.view {
        AppView::Item(i) => i.st.get(),
        other => panic!("expected an item, found {:?}", other),
    }
}

fn set_item_state(t: &mut ViewTree<AppView>, v: i64) {
    match &mut t.view {
        AppView::Item(i) => i.st.set(v),
        other => panic!("expected an item, found {:?}", other),
    }
}

#[test]
fn end_to_end_two_level_state() {
    let mut tree = ViewTree::new(root_desc());
    // Root(s=0) derives Child(prop=1); Child(t=0) derives Leaf(val=1).
    assert_eq!(leaf_val(&tree.children[0].children[0]), 1);

    // Set Root.s = 10 and reconcile: the leaf follows, prop = 11.
    match &mut tree.view {
        AppView::Root(r) => r.s.set(10),
        _ => unreachable!(),
    }
    tree.perform_hydrate(root_desc());
    assert_eq!(leaf_val(&tree.children[0].children[0]), 11);
    match &tree.children[0].view {
        AppView::Child(c) => {
            assert_eq!(c.prop, 11);
            assert_eq!(c.t.get(), 0);
        }
        _ => unreachable!(),
    }

    // Clean, then set Child.t = 100 directly and reconcile with an unchanged
    // root description: leaf = 111, Root state and Child prop untouched.
    tree.clean();
    match &mut tree.children[0].view {
        AppView::Child(c) => c.t.set(100),
        _ => unreachable!(),
    }
    tree.perform_hydrate(root_desc());
    assert_eq!(leaf_val(&tree.children[0].children[0]), 111);
    match &tree.view {
        AppView::Root(r) => assert_eq!(r.s.get(), 10),
        _ => unreachable!(),
    }
    match &tree.children[0].view {
        AppView::Child(c) => assert_eq!(c.prop, 11),
        _ => unreachable!(),
    }
}

#[test]
fn hydrate_clean_same_is_identity() {
    let mut tree = ViewTree::new(root_desc());
    match &mut tree.view {
        AppView::Root(r) => r.s.set(3),
        _ => unreachable!(),
    }
    tree.perform_hydrate(root_desc());
    tree.clean();
    let leaf_before = leaf_val(&tree.children[0].children[0]);
    let child_dirty_before = tree.children[0].view.is_dirty();

    // Everything is clean and the description is the same: nothing moves.
    tree.perform_hydrate(root_desc());
    assert_eq!(leaf_val(&tree.children[0].children[0]), leaf_before);
    assert_eq!(tree.children[0].view.is_dirty(), child_dirty_before);
    match &tree.view {
        AppView::Root(r) => assert_eq!(r.s.get(), 3),
        _ => unreachable!(),
    }
}

#[test]
fn state_survives_prop_change() {
    let mut tree = ViewTree::new(bag_desc(&[(1, 10)]));
    set_item_state(&mut tree.children[0], 7);
    // New description differs only in the item's prop; its state cell keeps
    // both its value and its dirty flag through the hydrate.
    tree.perform_hydrate(bag_desc(&[(1, 20)]));
    match &tree.children[0].view {
        AppView::Item(i) => {
            assert_eq!(i.prop, 20);
            assert_eq!(i.st.get(), 7);
            assert!(i.st.is_dirty());
        }
        _ => unreachable!(),
    }
}

#[test]
fn keyed_reordering_preserves_identity() {
    let mut tree = ViewTree::new(bag_desc(&[(1, 100), (2, 200)]));
    set_item_state(&mut tree.children[0], 11);
    set_item_state(&mut tree.children[1], 22);

    // The new description emits the children in the opposite order; the
    // retained list is re-sorted into key order and state follows the key.
    tree.perform_hydrate(bag_desc(&[(2, 200), (1, 100)]));
    assert_eq!(tree.children.len(), 2);
    assert_eq!(tree.children[0].key, Key::new(1));
    assert_eq!(tree.children[1].key, Key::new(2));
    assert_eq!(item_state(&tree.children[0]), 11);
    assert_eq!(item_state(&tree.children[1]), 22);
}

#[test]
fn insertion_and_removal() {
    let mut tree = ViewTree::new(bag_desc(&[(1, 10), (2, 20), (3, 30)]));
    set_item_state(&mut tree.children[0], 41);
    set_item_state(&mut tree.children[1], 42);
    set_item_state(&mut tree.children[2], 43);

    // Key 2 is dropped with its state, key 4 is built fresh with default
    // state, keys 1 and 3 are updates that keep their state.
    tree.perform_hydrate(bag_desc(&[(1, 10), (3, 30), (4, 40)]));
    assert_eq!(tree.children.len(), 3);
    assert_eq!(tree.children[0].key, Key::new(1));
    assert_eq!(tree.children[1].key, Key::new(3));
    assert_eq!(tree.children[2].key, Key::new(4));
    assert_eq!(item_state(&tree.children[0]), 41);
    assert_eq!(item_state(&tree.children[1]), 43);
    assert_eq!(item_state(&tree.children[2]), 0);
    match &tree.children[2].view {
        AppView::Item(i) => assert!(i.st.is_dirty()),
        _ => unreachable!(),
    }
}

#[test]
fn dirty_pass_rederives_chain_and_spares_siblings() {
    let mut tree = ViewTree::new(bag_desc(&[(1, 10), (2, 20)]));
    tree.clean();
    assert_eq!(leaf_val(&tree.children[0].children[0]), 10);
    assert_eq!(leaf_val(&tree.children[1].children[0]), 20);

    // Set state deep under key 1 and run the dirty-only pass: the chain down
    // to key 1's leaf is re-derived, the sibling subtree is untouched.
    set_item_state(&mut tree.children[0], 5);
    tree.perform_hydrate_dirty();
    assert_eq!(leaf_val(&tree.children[0].children[0]), 15);
    assert_eq!(item_state(&tree.children[0]), 5);
    assert_eq!(leaf_val(&tree.children[1].children[0]), 20);
    assert_eq!(item_state(&tree.children[1]), 0);
    assert!(!tree.children[1].view.is_dirty());
}

#[test]
fn dirty_grandchild_under_clean_ancestors_is_found() {
    let mut tree = ViewTree::new(root_desc());
    tree.clean();
    // Root and Child are clean; dirty the grandchild level through Child's
    // own cell and check the dirty-only pass reaches it from the root.
    match &mut tree.children[0].view {
        AppView::Child(c) => c.t.set(100),
        _ => unreachable!(),
    }
    tree.perform_hydrate_dirty();
    assert_eq!(leaf_val(&tree.children[0].children[0]), 101);
}

#[test]
fn events_reach_every_node_and_feed_the_dirty_pass() {
    let mut tree = ViewTree::new(bag_desc(&[(1, 10), (2, 20)]));
    tree.layout(quill::Constraint::new(80, 24));
    tree.set_offset(Offset::zero());
    tree.clean();

    // The two items sit at y = 0 and y = 1, one cell tall each; click the
    // second one.
    tree.event(&Event::MousePress(MouseButton::Left, 0, 1));
    assert_eq!(item_state(&tree.children[0]), 0);
    assert_eq!(item_state(&tree.children[1]), 1);
    assert!(tree.children[1].view.is_dirty());

    // The next dirty-only pass folds the click into the leaf.
    tree.perform_hydrate_dirty();
    assert_eq!(leaf_val(&tree.children[1].children[0]), 21);
}

#[test]
fn layout_stacks_items_and_caches_sizes() {
    let mut tree = ViewTree::new(bag_desc(&[(1, 10), (2, 20), (3, 30)]));
    tree.layout(quill::Constraint::new(80, 24));
    // Each item adopts its leaf's fixed 4 by 1 size; the bag stacks them.
    assert_eq!(tree.size, Size { width: 4, height: 3 });
    assert_eq!(tree.children[0].size, Size { width: 4, height: 1 });
    tree.set_offset(Offset { x: 2, y: 5 });
    assert_eq!(tree.children[0].offset, Offset { x: 2, y: 5 });
    assert_eq!(tree.children[1].offset, Offset { x: 2, y: 6 });
    assert_eq!(tree.children[2].offset, Offset { x: 2, y: 7 });
    // The leaves inherit their item's position.
    assert_eq!(tree.children[2].children[0].offset, Offset { x: 2, y: 7 });
}

#[test]
fn flatten_lists_preorder() {
    let mut tree = ViewTree::new(bag_desc(&[(1, 10), (2, 20)]));
    tree.layout(quill::Constraint::new(80, 24));
    tree.set_offset(Offset::zero());
    let flat = tree.flatten();
    // Bag, item 1, its leaf, item 2, its leaf.
    assert_eq!(flat.len(), 5);
    assert!(matches!(flat[0].view, AppView::Bag(_)));
    assert!(matches!(flat[1].view, AppView::Item(_)));
    assert!(matches!(flat[2].view, AppView::Leaf(_)));
    assert!(matches!(flat[3].view, AppView::Item(_)));
    assert!(matches!(flat[4].view, AppView::Leaf(_)));
    assert_eq!(flat[3].offset, Offset { x: 0, y: 1 });
}
