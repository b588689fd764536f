// The built-in node kinds, the geometry primitives, state cells, keys, the
// raw keyed diff, and the debug dump.

use quill::BasicView;
use quill::Counter;
use quill::Event;
use quill::MouseButton;
use quill::Constraint;
use quill::EmptyView;
use quill::Key;
use quill::Keyed;
use quill::Offset;
use quill::Size;
use quill::Stack;
use quill::State;
use quill::Text;
use quill::ViewTree;

fn text_view(s: &str) -> BasicView {
    BasicView::Text(Text::new(s.to_string()))
}

fn stack_of(items: &[(u32, &str)]) -> BasicView {
    let mut stack = Stack::new();
    for (k, s) in items.iter() {
        stack.push(Key::new(*k), text_view(s));
    }
    BasicView::Stack(stack)
}

fn text_of(v: &BasicView) -> &str {
    match v {
        BasicView::Text(t) => t.text.as_str(),
        other => panic!("expected text, found {:?}", other),
    }
}

#[test]
fn state_cell_tracks_dirtiness() {
    let mut s: State<u32> = State::new(5);
    assert_eq!(s.get(), 5);
    assert!(s.is_dirty());
    s.clean();
    assert!(!s.is_dirty());
    assert_eq!(s.get(), 5);
    s.set(9);
    assert_eq!(s.get(), 9);
    assert!(s.is_dirty());
}

#[test]
fn keys_are_ordered_numbers() {
    let a = Key::new(3);
    let b = Key::new(7);
    assert_eq!(a, Key(3));
    assert!(a < b);
    assert_ne!(a, b);
}

#[test]
fn constraints_shrink_and_clamp() {
    let mut c = Constraint::new(10, 8);
    assert_eq!(c.min_width, 0);
    assert_eq!(c.max_width, 10);
    c.sub_width(4);
    assert_eq!(c.max_width, 6);
    c.sub_width(100);
    assert_eq!(c.max_width, 0);
    c.sub_height(3);
    assert_eq!(c.max_height, 5);

    let mut floored = Constraint { min_width: 2, max_width: 9, min_height: 1, max_height: 7 };
    floored.sub_width(8);
    assert_eq!(floored.max_width, 2);
    floored.sub_height(100);
    assert_eq!(floored.max_height, 1);
}

#[test]
fn zero_size_and_offset() {
    assert_eq!(Size::zero(), Size { width: 0, height: 0 });
    assert_eq!(Offset::zero(), Offset { x: 0, y: 0 });
}

#[test]
fn stack_lays_out_top_aligned() {
    let mut tree = ViewTree::new(Keyed {
        key: Key::new(0),
        view: stack_of(&[(1, "hello"), (2, "world!!")]),
    });
    tree.layout(Constraint::new(80, 24));
    assert_eq!(tree.size, Size { width: 7, height: 2 });
    assert_eq!(tree.children[0].size, Size { width: 5, height: 1 });
    assert_eq!(tree.children[1].size, Size { width: 7, height: 1 });

    tree.set_offset(Offset { x: 1, y: 1 });
    assert_eq!(tree.children[0].offset, Offset { x: 1, y: 1 });
    assert_eq!(tree.children[1].offset, Offset { x: 1, y: 2 });

    let flat = tree.flatten();
    assert_eq!(flat.len(), 3);
    assert_eq!(text_of(&flat[2].view), "world!!");
    assert_eq!(flat[2].offset, Offset { x: 1, y: 2 });
}

#[test]
fn empty_view_has_zero_size() {
    let mut tree = ViewTree::new(Keyed { key: Key::new(0), view: BasicView::Empty });
    tree.layout(Constraint::new(80, 24));
    assert_eq!(tree.size, Size { width: 0, height: 0 });
    assert!(tree.children.is_empty());

    let mut leaf = ViewTree::new(Keyed { key: Key::new(0), view: EmptyView });
    leaf.layout(Constraint::new(80, 24));
    assert_eq!(leaf.size, Size { width: 0, height: 0 });
}

#[test]
fn stack_keeps_first_of_colliding_keys() {
    let tree = ViewTree::new(Keyed {
        key: Key::new(0),
        view: stack_of(&[(1, "first"), (1, "second")]),
    });
    assert_eq!(tree.children.len(), 1);
    assert_eq!(text_of(&tree.children[0].view), "first");
}

#[test]
fn hydrate_copies_text_forward() {
    let mut tree = ViewTree::new(Keyed { key: Key::new(0), view: stack_of(&[(1, "x")]) });
    tree.perform_hydrate(Keyed { key: Key::new(0), view: stack_of(&[(1, "y")]) });
    assert_eq!(tree.children.len(), 1);
    assert_eq!(text_of(&tree.children[0].view), "y");

    // A description the view reports as the same leaves the tree alone.
    tree.perform_hydrate(Keyed { key: Key::new(0), view: stack_of(&[(1, "y")]) });
    assert_eq!(text_of(&tree.children[0].view), "y");
}

#[test]
fn stack_children_reconcile_by_key() {
    let mut tree = ViewTree::new(Keyed {
        key: Key::new(0),
        view: stack_of(&[(1, "a"), (2, "b"), (3, "c")]),
    });
    tree.perform_hydrate(Keyed {
        key: Key::new(0),
        view: stack_of(&[(1, "a"), (3, "c2"), (4, "d")]),
    });
    assert_eq!(tree.children.len(), 3);
    assert_eq!(tree.children[0].key, Key::new(1));
    assert_eq!(tree.children[1].key, Key::new(3));
    assert_eq!(tree.children[2].key, Key::new(4));
    assert_eq!(text_of(&tree.children[1].view), "c2");
    assert_eq!(text_of(&tree.children[2].view), "d");
}

#[test]
fn diff_classifies_by_key() {
    let views: Vec<Keyed<BasicView>> = vec![
        Keyed { key: Key::new(1), view: text_view("one") },
        Keyed { key: Key::new(3), view: text_view("three") },
        Keyed { key: Key::new(4), view: text_view("four") },
    ];
    let children: Vec<ViewTree<BasicView>> = vec![1u32, 2, 3]
        .into_iter()
        .map(|k| ViewTree {
            key: Key::new(k),
            view: text_view("old"),
            size: Size { width: 0, height: 0 },
            offset: Offset { x: 0, y: 0 },
            children: Vec::new(),
        })
        .collect();

    let (new, del, upd) = ViewTree::diff(views, children);
    assert_eq!(new.len(), 1);
    assert_eq!(new[0].key, Key::new(4));
    assert_eq!(del.len(), 1);
    assert_eq!(del[0].key, Key::new(2));
    assert_eq!(upd.len(), 2);
    assert_eq!(upd[0].0.key, Key::new(1));
    assert_eq!(upd[0].1.key, Key::new(1));
    assert_eq!(upd[1].0.key, Key::new(3));
    assert_eq!(upd[1].1.key, Key::new(3));
}

#[test]
fn debug_dump_mirrors_the_tree() {
    let tree = ViewTree::new(Keyed {
        key: Key::new(0),
        view: stack_of(&[(1, "hello"), (2, "world")]),
    });
    let dump = tree.tree();
    assert_eq!(dump.children.len(), 2);
    assert_eq!(dump.children[0].children.len(), 0);
    assert!(dump.text.contains("Stack"));
    assert!(dump.children[0].text.contains("hello"));
    assert!(dump.children[1].text.contains("world"));
}

#[test]
fn counter_state_survives_hydration() {
    let mut stack = Stack::new();
    stack.push(Key::new(1), BasicView::Counter(Counter::new(0, 2)));
    let mut tree = ViewTree::new(Keyed { key: Key::new(0), view: BasicView::Stack(stack) });
    tree.layout(Constraint::new(80, 24));
    tree.set_offset(Offset::zero());
    tree.clean();

    // A press on the counter's cell raises it by its step and dirties it; a
    // press elsewhere does nothing.
    tree.event(&Event::MousePress(MouseButton::Left, 0, 0));
    tree.event(&Event::MousePress(MouseButton::Left, 5, 5));
    match &tree.children[0].view {
        BasicView::Counter(c) => {
            assert_eq!(c.count.get(), 2);
            assert!(c.count.is_dirty());
        }
        other => panic!("expected counter, found {:?}", other),
    }

    // Reconciling a fresh description copies the step forward but keeps the
    // accumulated count.
    let mut desc = Stack::new();
    desc.push(Key::new(1), BasicView::Counter(Counter::new(0, 5)));
    tree.perform_hydrate(Keyed { key: Key::new(0), view: BasicView::Stack(desc) });
    match &tree.children[0].view {
        BasicView::Counter(c) => {
            assert_eq!(c.count.get(), 2);
            assert_eq!(c.step, 5);
        }
        other => panic!("expected counter, found {:?}", other),
    }
}

#[test]
fn mismatched_kind_under_same_key_is_discarded() {
    let mut tree = ViewTree::new(Keyed { key: Key::new(0), view: stack_of(&[(1, "keep")]) });
    // The new description reuses key 1 for a different kind of node; the
    // hydrate call no-ops and the retained text stays.
    let mut desc = Stack::new();
    desc.push(Key::new(1), BasicView::Counter(Counter::new(9, 1)));
    tree.perform_hydrate(Keyed { key: Key::new(0), view: BasicView::Stack(desc) });
    assert_eq!(tree.children.len(), 1);
    assert_eq!(text_of(&tree.children[0].view), "keep");
}

#[test]
fn soft_narrowing_answers_nothing_across_kinds() {
    let text = text_view("abc");
    assert_eq!(text.as_text().map(|t| t.text.as_str()), Some("abc"));
    assert!(text.as_stack().is_none());
    assert!(text.as_counter().is_none());
    let counter = BasicView::Counter(Counter::new(3, 1));
    assert_eq!(counter.as_counter().map(|c| c.count.get()), Some(3));
    assert!(counter.as_text().is_none());
}

#[test]
fn nested_stacks_accumulate_heights() {
    let mut inner = Stack::new();
    inner.push(Key::new(1), text_view("aa"));
    inner.push(Key::new(2), text_view("bbb"));
    let mut outer = Stack::new();
    outer.push(Key::new(1), text_view("top"));
    outer.push(Key::new(2), BasicView::Stack(inner));
    let mut tree = ViewTree::new(Keyed { key: Key::new(0), view: BasicView::Stack(outer) });
    tree.layout(Constraint::new(80, 24));
    assert_eq!(tree.size, Size { width: 3, height: 3 });
    assert_eq!(tree.children[1].size, Size { width: 3, height: 2 });
    tree.set_offset(Offset::zero());
    // The inner stack starts below the first text and stacks its own rows.
    assert_eq!(tree.children[1].offset, Offset { x: 0, y: 1 });
    assert_eq!(tree.children[1].children[0].offset, Offset { x: 0, y: 1 });
    assert_eq!(tree.children[1].children[1].offset, Offset { x: 0, y: 2 });
}
