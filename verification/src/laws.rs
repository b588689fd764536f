//! The guarantees the reconciler gives its callers, stated once and proved
//! from the relations in [`crate::tree`] and [`crate::passes`]: state is
//! never lost nor attributed to the wrong node, clean subtrees are never
//! touched, and the clean pass arms the fast path for the next cycle.

use vstd::prelude::*;
use vstd::view::View as VstdView;

use crate::key::Key;
use crate::passes::cleaned;
use crate::passes::event_applied;
use crate::passes::is_laid;
use crate::passes::is_laid_column;
use crate::passes::is_placed;
use crate::passes::is_placed_column;
use crate::passes::tree_dirty;
use crate::tree::keys_sorted;
use crate::tree::ViewTree;
use crate::tree::child_built;
use crate::tree::dirty_hydrated;
use crate::tree::has_desc_key;
use crate::tree::has_tree_key;
use crate::tree::hydrated;
use crate::tree::reconciled;
use crate::view::Keyed;
use crate::view::View;

verus! {

/// The trees `t` and `r` hold the same data: equal at every node, with
/// children equal in order.  (The vectors holding the children may be
/// distinct allocations; their contents are what matters.)
pub open spec fn same_tree<V>(t: ViewTree<V>, r: ViewTree<V>) -> bool
    decreases t,
{
    &&& r.key == t.key
    &&& r.view == t.view
    &&& r.size == t.size
    &&& r.offset == t.offset
    &&& r.children@.len() == t.children@.len()
    &&& forall|i: int|
        0 <= i < t.children@.len() ==> same_tree(#[trigger] t.children@[i], r.children@[i])
}

/// The dirty-only pass leaves a subtree with no dirty state cell exactly as
/// it was: no node is replaced, no child list re-derived.  This is the fast
/// path that spares untouched siblings when state changes elsewhere.
pub proof fn lemma_dirty_pass_clean_identity<V: View>(t: ViewTree<V>, r: ViewTree<V>)
    requires
        dirty_hydrated(t, r),
        !tree_dirty(t),
    ensures
        same_tree(t, r),
    decreases t,
{
    assert forall|i: int| 0 <= i < t.children@.len() implies same_tree(
        #[trigger] t.children@[i],
        r.children@[i],
    ) by {
        assert(!tree_dirty(t.children@[i]));
        lemma_dirty_pass_clean_identity(t.children@[i], r.children@[i]);
    }
}

/// Hydrate-idempotence: reconciling a subtree none of whose state cells is
/// dirty with a description its view reports as the same leaves the whole
/// subtree — state cells, values and children — exactly as it was.  No
/// subtree is rebuilt.
pub proof fn lemma_hydrate_clean_same_identity<V: View>(
    t: ViewTree<V>,
    d: Keyed<V>,
    r: ViewTree<V>,
)
    requires
        hydrated(t, d, r),
        !tree_dirty(t),
        t.view.spec_same(d.view),
    ensures
        same_tree(t, r),
{
    assert forall|i: int| 0 <= i < t.children@.len() implies same_tree(
        #[trigger] t.children@[i],
        r.children@[i],
    ) by {
        assert(!tree_dirty(t.children@[i]));
        lemma_dirty_pass_clean_identity(t.children@[i], r.children@[i]);
    }
}

/// State survives hydration: a retained node's view is only ever transformed
/// by its own hydrate — which copies non-state fields and leaves state cells
/// untouched — or kept verbatim on the fast path.  It is never replaced by
/// the fresh description, and it keeps its key.
pub proof fn lemma_hydrate_preserves_node<V: View>(t: ViewTree<V>, d: Keyed<V>, r: ViewTree<V>)
    requires
        hydrated(t, d, r),
    ensures
        r.view == t.view || r.view == t.view.spec_hydrate(d.view),
        r.key == t.key,
{
}

/// Keyed matching: in a reconciled child list, a child whose key was already
/// retained evolves from the retained child carrying that key and the
/// description carrying that key — state is matched by key, never by
/// position in the list.
pub proof fn lemma_reconcile_matches_by_key<V: View>(
    ds: Seq<Keyed<V>>,
    olds: Seq<ViewTree<V>>,
    rs: Seq<ViewTree<V>>,
    i: int,
)
    requires
        reconciled(ds, olds, rs),
        0 <= i < rs.len(),
        has_tree_key(olds, rs[i].key),
    ensures
        exists|j: int, m: int|
            0 <= j < olds.len() && 0 <= m < ds.len() && (#[trigger] olds[j]).key == rs[i].key && (
            #[trigger] ds[m]).key == rs[i].key && hydrated(olds[j], ds[m], rs[i]),
{
}

/// Insertion: a reconciled child whose key no retained child carried is a
/// fresh build of the description with that key, with its state cells newly
/// initialised.
pub proof fn lemma_reconcile_builds_fresh<V: View>(
    ds: Seq<Keyed<V>>,
    olds: Seq<ViewTree<V>>,
    rs: Seq<ViewTree<V>>,
    i: int,
)
    requires
        reconciled(ds, olds, rs),
        0 <= i < rs.len(),
        !has_tree_key(olds, rs[i].key),
    ensures
        child_built(ds, rs[i]),
{
}

/// Removal: the reconciled child list carries exactly the described keys, so
/// a retained key that vanished from the derived descriptions is dropped —
/// and its state with it — while no undescribed key survives.
pub proof fn lemma_reconcile_keys_exact<V: View>(
    ds: Seq<Keyed<V>>,
    olds: Seq<ViewTree<V>>,
    rs: Seq<ViewTree<V>>,
)
    requires
        reconciled(ds, olds, rs),
    ensures
        forall|k: Key|
            #![trigger has_tree_key(rs, k)]
            #![trigger has_desc_key(ds, k)]
            has_tree_key(rs, k) <==> has_desc_key(ds, k),
{
}

/// Dirty propagation: a node whose own state cells are dirty re-derives its
/// child list — its retained view untouched — and reconciles it against the
/// retained children by key.
pub proof fn lemma_dirty_pass_rederives<V: View>(t: ViewTree<V>, r: ViewTree<V>)
    requires
        dirty_hydrated(t, r),
        t.view.spec_dirty(),
    ensures
        r.view == t.view,
        reconciled(t.view.spec_children(), t.children@, r.children@),
{
}

/// After the clean pass no state cell anywhere in the tree is dirty, so
/// reconciling an unchanged description next cycle takes the fast path.
pub proof fn lemma_clean_tree_not_dirty<V: View>(t: ViewTree<V>, r: ViewTree<V>)
    requires
        cleaned(t, r),
    ensures
        !tree_dirty(r),
    decreases t,
{
    t.view.lemma_clean_clears_dirty();
    assert forall|i: int| 0 <= i < r.children@.len() implies !tree_dirty(
        #[trigger] r.children@[i],
    ) by {
        lemma_clean_tree_not_dirty(t.children@[i], r.children@[i]);
    }
}

/// A laid-out stack keeps its children's keys and well-formedness, in order.
proof fn lemma_laid_column_keeps_wf<V: View>(
    cs: Seq<ViewTree<V>>,
    c: crate::geometry::Constraint,
    rs: Seq<ViewTree<V>>,
)
    requires
        is_laid_column(cs, c, rs),
    ensures
        rs.len() == cs.len(),
        forall|i: int| 0 <= i < cs.len() ==> (#[trigger] rs[i]).key == cs[i].key,
        forall|i: int| 0 <= i < cs.len() ==> ((#[trigger] cs[i]).wf() ==> rs[i].wf()),
    decreases cs, 0int,
{
    if cs.len() > 0 {
        lemma_laid_keeps_wf_inner(cs[0], c, rs[0]);
        lemma_laid_column_keeps_wf(
            cs.drop_first(),
            crate::passes::shrunk_height(c, rs[0].size.height),
            rs.drop_first(),
        );
        assert forall|i: int| 0 <= i < cs.len() implies (#[trigger] rs[i]).key == cs[i].key by {
            if i == 0 {
                assert(is_laid(cs[0], c, rs[0]));
            } else {
                assert(rs.drop_first()[i - 1].key == cs.drop_first()[i - 1].key);
            }
        }
        assert forall|i: int| 0 <= i < cs.len() implies ((#[trigger] cs[i]).wf()
            ==> rs[i].wf()) by {
            if i > 0 {
                assert(cs.drop_first()[i - 1].wf() ==> rs.drop_first()[i - 1].wf());
            }
        }
    }
}

/// One laid-out node keeps its key structure.
proof fn lemma_laid_keeps_wf_inner<V: View>(
    t: ViewTree<V>,
    c: crate::geometry::Constraint,
    r: ViewTree<V>,
)
    requires
        is_laid(t, c, r),
    ensures
        t.wf() ==> r.wf(),
    decreases t, 1int,
{
    match t.view.spec_layout_mode() {
        crate::view::LayoutMode::Fixed(_) => {
        },
        crate::view::LayoutMode::Adopt => {
            if t.children@.len() == 1 {
                lemma_laid_keeps_wf_inner(t.children@[0], c, r.children@[0]);
            }
        },
        crate::view::LayoutMode::Column => {
            lemma_laid_column_keeps_wf(t.children@, c, r.children@);
            if t.wf() {
                assert forall|i: int, j: int| 0 <= i < j < r.children@.len() implies (
                #[trigger] r.children@[i]).key.0 < (#[trigger] r.children@[j]).key.0 by {
                    assert(r.children@[i].key == t.children@[i].key);
                    assert(r.children@[j].key == t.children@[j].key);
                }
                assert forall|i: int| 0 <= i < r.children@.len() implies (
                #[trigger] r.children@[i]).wf() by {
                    assert(t.children@[i].wf());
                }
            }
        },
    }
}

/// The layout pass keeps the tree well formed: keys, order and structure are
/// untouched, so the next cycle's merge-join precondition still holds.
pub proof fn lemma_layout_keeps_wf<V: View>(
    t: ViewTree<V>,
    c: crate::geometry::Constraint,
    r: ViewTree<V>,
)
    requires
        is_laid(t, c, r),
        t.wf(),
    ensures
        r.wf(),
{
    lemma_laid_keeps_wf_inner(t, c, r);
}

/// A placed stack keeps its children's keys and well-formedness, in order.
proof fn lemma_placed_column_keeps_wf<V: View>(
    cs: Seq<ViewTree<V>>,
    o: crate::geometry::Offset,
    rs: Seq<ViewTree<V>>,
)
    requires
        is_placed_column(cs, o, rs),
    ensures
        rs.len() == cs.len(),
        forall|i: int| 0 <= i < cs.len() ==> (#[trigger] rs[i]).key == cs[i].key,
        forall|i: int| 0 <= i < cs.len() ==> ((#[trigger] cs[i]).wf() ==> rs[i].wf()),
    decreases cs, 0int,
{
    if cs.len() > 0 {
        lemma_placed_keeps_wf_inner(cs[0], o, rs[0]);
        lemma_placed_column_keeps_wf(
            cs.drop_first(),
            crate::geometry::Offset { x: o.x, y: crate::geometry::sat_add(o.y, cs[0].size.height) },
            rs.drop_first(),
        );
        assert forall|i: int| 0 <= i < cs.len() implies (#[trigger] rs[i]).key == cs[i].key by {
            if i == 0 {
                assert(is_placed(cs[0], o, rs[0]));
            } else {
                assert(rs.drop_first()[i - 1].key == cs.drop_first()[i - 1].key);
            }
        }
        assert forall|i: int| 0 <= i < cs.len() implies ((#[trigger] cs[i]).wf()
            ==> rs[i].wf()) by {
            if i > 0 {
                assert(cs.drop_first()[i - 1].wf() ==> rs.drop_first()[i - 1].wf());
            }
        }
    }
}

/// One placed node keeps its key structure.
proof fn lemma_placed_keeps_wf_inner<V: View>(
    t: ViewTree<V>,
    o: crate::geometry::Offset,
    r: ViewTree<V>,
)
    requires
        is_placed(t, o, r),
    ensures
        t.wf() ==> r.wf(),
    decreases t, 1int,
{
    if t.view.spec_layout_mode() is Column {
        lemma_placed_column_keeps_wf(t.children@, o, r.children@);
        if t.wf() {
            assert forall|i: int, j: int| 0 <= i < j < r.children@.len() implies (
            #[trigger] r.children@[i]).key.0 < (#[trigger] r.children@[j]).key.0 by {
                assert(r.children@[i].key == t.children@[i].key);
                assert(r.children@[j].key == t.children@[j].key);
            }
            assert forall|i: int| 0 <= i < r.children@.len() implies (
            #[trigger] r.children@[i]).wf() by {
                assert(t.children@[i].wf());
            }
        }
    } else {
        assert forall|i: int| 0 <= i < t.children@.len() implies ((
        #[trigger] t.children@[i]).wf() ==> r.children@[i].wf()) by {
            lemma_placed_keeps_wf_inner(t.children@[i], o, r.children@[i]);
        }
        if t.wf() {
            assert forall|i: int, j: int| 0 <= i < j < r.children@.len() implies (
            #[trigger] r.children@[i]).key.0 < (#[trigger] r.children@[j]).key.0 by {
                assert(is_placed(t.children@[i], o, r.children@[i]));
                assert(is_placed(t.children@[j], o, r.children@[j]));
            }
            assert forall|i: int| 0 <= i < r.children@.len() implies (
            #[trigger] r.children@[i]).wf() by {
                assert(t.children@[i].wf());
            }
        }
    }
}

/// The placement pass keeps the tree well formed.
pub proof fn lemma_place_keeps_wf<V: View>(
    t: ViewTree<V>,
    o: crate::geometry::Offset,
    r: ViewTree<V>,
)
    requires
        is_placed(t, o, r),
        t.wf(),
    ensures
        r.wf(),
{
    lemma_placed_keeps_wf_inner(t, o, r);
}

/// Event dispatch keeps the tree well formed: it only transforms views.
pub proof fn lemma_event_keeps_wf<V: View>(t: ViewTree<V>, e: crate::view::Event, r: ViewTree<V>)
    requires
        event_applied(t, e, r),
        t.wf(),
    ensures
        r.wf(),
    decreases t,
{
    assert forall|i: int| 0 <= i < r.children@.len() implies (#[trigger] r.children@[i]).wf() by {
        lemma_event_keeps_wf(t.children@[i], e, r.children@[i]);
    }
    assert forall|i: int, j: int| 0 <= i < j < r.children@.len() implies (
    #[trigger] r.children@[i]).key.0 < (#[trigger] r.children@[j]).key.0 by {
        assert(event_applied(t.children@[i], e, r.children@[i]));
        assert(event_applied(t.children@[j], e, r.children@[j]));
    }
}

/// The clean pass keeps the tree well formed: it only clears dirty flags.
pub proof fn lemma_clean_keeps_wf<V: View>(t: ViewTree<V>, r: ViewTree<V>)
    requires
        cleaned(t, r),
        t.wf(),
    ensures
        r.wf(),
    decreases t,
{
    assert forall|i: int| 0 <= i < r.children@.len() implies (#[trigger] r.children@[i]).wf() by {
        lemma_clean_keeps_wf(t.children@[i], r.children@[i]);
    }
    assert forall|i: int, j: int| 0 <= i < j < r.children@.len() implies (
    #[trigger] r.children@[i]).key.0 < (#[trigger] r.children@[j]).key.0 by {
        assert(cleaned(t.children@[i], r.children@[i]));
        assert(cleaned(t.children@[j], r.children@[j]));
    }
}

} // verus!
