//! The reconciler: a persistent tree of views and the hydrate/diff algorithm
//! that aligns it with freshly derived descriptions.
//!
//! A [`ViewTree`] node owns one view value, the key it was introduced under,
//! its cached size and offset from the latest layout passes, and its child
//! nodes, kept sorted by key.  The tree is the single source of truth for
//! what is currently on screen and which state is alive: a node is created
//! when a description with a new key first appears, hydrated in place while
//! its key stays, and destroyed — with its state — when its key vanishes
//! from the derived child list.

use vstd::prelude::*;
use vstd::view::View as VstdView;

use crate::geometry::Offset;
use crate::geometry::Size;
use crate::key::Key;
use crate::seqs::lemma_insert_contains;
use crate::seqs::lemma_push_contains;
use crate::seqs::lemma_take_succ_contains;
use crate::seqs::lemma_remove_first_contains;
use crate::seqs::lemma_take_contains;
use crate::view::Keyed;
use crate::view::View;
use crate::view::unique_keys;

verus! {

/// One node of the retained tree.
#[derive(Debug)]
#[verifier::ext_equal]
pub struct ViewTree<V> {
    /// The key this node was introduced under; stable for the node's life.
    pub key: Key,
    /// The retained view value.
    pub view: V,
    /// The size computed by the latest layout pass.
    pub size: Size,
    /// The position assigned by the latest placement pass.
    pub offset: Offset,
    /// The retained subtrees, sorted by key.
    pub children: Vec<ViewTree<V>>,
}

/// Some retained sibling carries the key `k`.
pub open spec fn has_tree_key<V>(cs: Seq<ViewTree<V>>, k: Key) -> bool {
    exists|i: int| 0 <= i < cs.len() && (#[trigger] cs[i]).key == k
}

/// Some description in `ds` carries the key `k`.
pub open spec fn has_desc_key<V>(ds: Seq<Keyed<V>>, k: Key) -> bool {
    exists|m: int| 0 <= m < ds.len() && (#[trigger] ds[m]).key == k
}

/// Retained siblings in strictly ascending key order.
pub open spec fn keys_sorted<V>(cs: Seq<ViewTree<V>>) -> bool {
    forall|i: int, j: int|
        0 <= i < j < cs.len() ==> (#[trigger] cs[i]).key.0 < (#[trigger] cs[j]).key.0
}

/// Descriptions in strictly ascending key order.
pub open spec fn desc_keys_sorted<V>(ds: Seq<Keyed<V>>) -> bool {
    forall|i: int, j: int|
        0 <= i < j < ds.len() ==> (#[trigger] ds[i]).key.0 < (#[trigger] ds[j]).key.0
}

impl<V: View> ViewTree<V> {
    /// Every node's children are sorted by key, all the way down.  This is
    /// the precondition of the merge-join diff, and every pass restores it.
    pub open spec fn wf(self) -> bool
        decreases self,
    {
        &&& keys_sorted(self.children@)
        &&& forall|i: int| 0 <= i < self.children@.len() ==> (#[trigger] self.children@[i]).wf()
    }
}

/// The tree `t` is a fresh build of the description `d`: the node holds
/// exactly the described view under the described key with nothing laid out
/// yet, and its children are fresh builds of the view's derived child
/// descriptions, one per key, sorted by key.
pub open spec fn built_from<V: View>(d: Keyed<V>, t: ViewTree<V>) -> bool
    decreases t, 0int,
{
    &&& t.key == d.key
    &&& t.view == d.view
    &&& t.size == (Size { width: 0, height: 0 })
    &&& t.offset == (Offset { x: 0, y: 0 })
    &&& keys_sorted(t.children@)
    &&& forall|k: Key|
        #![trigger has_tree_key(t.children@, k)]
        #![trigger has_desc_key(d.view.spec_children(), k)]
        has_tree_key(t.children@, k) <==> has_desc_key(d.view.spec_children(), k)
    &&& forall|i: int|
        0 <= i < t.children@.len() ==> child_built(
            d.view.spec_children(),
            #[trigger] t.children@[i],
        )
}

/// The subtree `c` is a fresh build of the description in `ds` that carries
/// `c`'s key.
pub open spec fn child_built<V: View>(ds: Seq<Keyed<V>>, c: ViewTree<V>) -> bool
    decreases c, 1int,
{
    exists|m: int| 0 <= m < ds.len() && (#[trigger] ds[m]).key == c.key && built_from(ds[m], c)
}

/// Sorts freshly derived descriptions into ascending key order, so the keyed
/// diff can merge them against the retained children.
fn sort_descs<V: View>(input: Vec<Keyed<V>>) -> (out: Vec<Keyed<V>>)
    requires
        unique_keys(input@),
    ensures
        out@.len() == input@.len(),
        desc_keys_sorted(out@),
        forall|x: Keyed<V>| #[trigger] out@.contains(x) <==> input@.contains(x),
{
    let ghost all = input@;
    let mut rest = input;
    let mut out: Vec<Keyed<V>> = Vec::new();
    while rest.len() > 0
        invariant
            out@.len() + rest@.len() == all.len(),
            desc_keys_sorted(out@),
            forall|x: Keyed<V>| #[trigger] all.contains(x) <==> (out@.contains(x)
                || rest@.contains(x)),
            forall|x: Keyed<V>| #[trigger] out@.contains(x) ==> all.contains(x),
            forall|x: Keyed<V>| #[trigger] rest@.contains(x) ==> all.contains(x),
            forall|i: int, j: int|
                0 <= i < out@.len() && 0 <= j < rest@.len() ==> (#[trigger] out@[i]).key != (
                #[trigger] rest@[j]).key,
            forall|i: int, j: int|
                0 <= i < j < rest@.len() ==> (#[trigger] rest@[i]).key != (
                #[trigger] rest@[j]).key,
        decreases rest@.len(),
    {
        let ghost old_rest = rest@;
        let ghost old_out = out@;
        let x = rest.remove(0);
        proof {
            lemma_remove_first_contains(old_rest);
        }
        let mut pos: usize = 0;
        while pos < out.len() && out[pos].key.0 < x.key.0
            invariant
                0 <= pos <= out@.len(),
                forall|i: int| 0 <= i < pos ==> (#[trigger] out@[i]).key.0 < x.key.0,
            decreases out@.len() - pos,
        {
            pos = pos + 1;
        }
        proof {
            assert forall|i: int| pos <= i < out@.len() implies x.key.0 < (
            #[trigger] out@[i]).key.0 by {
                assert(out@[i].key != x.key);
                if i > pos {
                    assert(out@[pos as int].key.0 < out@[i].key.0);
                }
            }
        }
        out.insert(pos, x);
        proof {
            lemma_insert_contains(old_out, pos as int, x);
        }
    }
    out
}

impl<V: View> ViewTree<V> {
    /// Builds the persistent tree for a root description: the node takes the
    /// described view, and its subtrees are built from the view's derived
    /// children, sorted by key.  Nothing is laid out yet; sizes and offsets
    /// start at zero.
    pub fn new(root: Keyed<V>) -> (t: ViewTree<V>)
        ensures
            built_from(root, t),
            t.wf(),
        decreases root.view.spec_height(),
    {
        let ghost groot = root;
        let descs = root.view.children();
        proof {
            root.view.lemma_children_wf();
        }
        let mut descs = sort_descs(descs);
        let ghost all = descs@;
        proof {
            assert forall|i: int| 0 <= i < all.len() implies (
            #[trigger] all[i]).view.spec_height() < groot.view.spec_height() by {
                assert(all.contains(all[i]));
                assert(groot.view.spec_children().contains(all[i]));
                let m = choose|m: int|
                    0 <= m < groot.view.spec_children().len() && groot.view.spec_children()[m]
                        == all[i];
                assert(groot.view.spec_children()[m].view.spec_height()
                    < groot.view.spec_height());
            }
        }
        let mut children: Vec<ViewTree<V>> = Vec::new();
        while descs.len() > 0
            invariant
                children@.len() + descs@.len() == all.len(),
                descs@ == all.skip(children@.len() as int),
                forall|i: int|
                    0 <= i < children@.len() ==> (#[trigger] children@[i]).key == all[i].key
                        && built_from(all[i], children@[i]) && children@[i].wf(),
            decreases descs@.len(),
        {
            let kd = descs.remove(0);
            proof {
                let ghost idx = children@.len() as int;
                assert(kd == all[idx]);
            }
            let sub = ViewTree::new(kd);
            children.push(sub);
            proof {
                assert(descs@ =~= all.skip(children@.len() as int));
            }
        }
        let Keyed { key, view } = root;
        let t = ViewTree { key, view, size: Size::zero(), offset: Offset::zero(), children };
        proof {
            assert(t.view == groot.view);
            assert forall|i: int, j: int| 0 <= i < j < t.children@.len() implies (
            #[trigger] t.children@[i]).key.0 < (#[trigger] t.children@[j]).key.0 by {
                assert(t.children@[i].key == all[i].key);
                assert(t.children@[j].key == all[j].key);
            }
            assert forall|i: int| 0 <= i < t.children@.len() implies child_built(
                groot.view.spec_children(),
                #[trigger] t.children@[i],
            ) by {
                assert(all.contains(all[i]));
                assert(groot.view.spec_children().contains(all[i]));
                let m = choose|m: int|
                    0 <= m < groot.view.spec_children().len() && groot.view.spec_children()[m]
                        == all[i];
                assert(groot.view.spec_children()[m].key == t.children@[i].key);
                assert(built_from(groot.view.spec_children()[m], t.children@[i]));
            }
            assert forall|k: Key|
                has_tree_key(t.children@, k) <==> has_desc_key(
                    groot.view.spec_children(),
                    k,
                ) by {
                if has_tree_key(t.children@, k) {
                    let i = choose|i: int|
                        0 <= i < t.children@.len() && (#[trigger] t.children@[i]).key == k;
                    assert(all.contains(all[i]));
                    assert(groot.view.spec_children().contains(all[i]));
                    let m = choose|m: int|
                        0 <= m < groot.view.spec_children().len()
                            && groot.view.spec_children()[m] == all[i];
                    assert(has_desc_key(groot.view.spec_children(), k));
                }
                if has_desc_key(groot.view.spec_children(), k) {
                    let m = choose|m: int|
                        0 <= m < groot.view.spec_children().len() && (
                        #[trigger] groot.view.spec_children()[m]).key == k;
                    assert(all.contains(groot.view.spec_children()[m]));
                    let i = choose|i: int|
                        0 <= i < all.len() && all[i] == groot.view.spec_children()[m];
                    assert(t.children@[i].key == k);
                    assert(has_tree_key(t.children@, k));
                }
            }
            assert(built_from(groot, t));
        }
        t
    }
}

/// Matched pairs in strictly ascending key order.
pub open spec fn upd_keys_sorted<V>(ps: Seq<(Keyed<V>, ViewTree<V>)>) -> bool {
    forall|i: int, j: int|
        0 <= i < j < ps.len() ==> (#[trigger] ps[i]).0.key.0 < (#[trigger] ps[j]).0.key.0
}

/// Some matched pair updates the description `x`.
pub open spec fn upd_covers_view<V>(upd: Seq<(Keyed<V>, ViewTree<V>)>, x: Keyed<V>) -> bool {
    exists|p: (Keyed<V>, ViewTree<V>)| #[trigger] upd.contains(p) && p.0 == x
}

/// Some matched pair carries the retained child `t` forward.
pub open spec fn upd_covers_child<V>(upd: Seq<(Keyed<V>, ViewTree<V>)>, t: ViewTree<V>) -> bool {
    exists|p: (Keyed<V>, ViewTree<V>)| #[trigger] upd.contains(p) && p.1 == t
}

/// The running state of the keyed diff after consuming the first `vi`
/// descriptions and the first `ci` retained children: everything consumed is
/// classified, outputs are in ascending key order, and consumed keys sit
/// below all unconsumed ones.
#[verifier::opaque]
pub open spec fn diff_inv<V: View>(
    vall: Seq<Keyed<V>>,
    call: Seq<ViewTree<V>>,
    vi: int,
    ci: int,
    new: Seq<Keyed<V>>,
    del: Seq<ViewTree<V>>,
    upd: Seq<(Keyed<V>, ViewTree<V>)>,
) -> bool {
    &&& 0 <= vi <= vall.len()
    &&& 0 <= ci <= call.len()
    &&& forall|j: int, m: int|
        0 <= j < ci && vi <= m < vall.len() ==> (#[trigger] call[j]).key.0 < (
        #[trigger] vall[m]).key.0
    &&& forall|m: int, j: int|
        0 <= m < vi && ci <= j < call.len() ==> (#[trigger] vall[m]).key.0 < (
        #[trigger] call[j]).key.0
    &&& forall|x: Keyed<V>| #[trigger]
        new.contains(x) ==> vall.take(vi).contains(x) && !has_tree_key(call, x.key)
    &&& forall|x: Keyed<V>| #[trigger]
        vall.take(vi).contains(x) && !has_tree_key(call, x.key) ==> new.contains(x)
    &&& forall|t: ViewTree<V>| #[trigger]
        del.contains(t) ==> call.take(ci).contains(t) && !has_desc_key(vall, t.key)
    &&& forall|t: ViewTree<V>| #[trigger]
        call.take(ci).contains(t) && !has_desc_key(vall, t.key) ==> del.contains(t)
    &&& forall|p: (Keyed<V>, ViewTree<V>)| #[trigger]
        upd.contains(p) ==> vall.take(vi).contains(p.0) && call.take(ci).contains(p.1) && p.0.key
            == p.1.key
    &&& forall|x: Keyed<V>| #[trigger]
        vall.take(vi).contains(x) && has_tree_key(call, x.key) ==> upd_covers_view(upd, x)
    &&& forall|t: ViewTree<V>| #[trigger]
        call.take(ci).contains(t) && has_desc_key(vall, t.key) ==> upd_covers_child(upd, t)
    &&& desc_keys_sorted(new)
    &&& keys_sorted(del)
    &&& upd_keys_sorted(upd)
    &&& forall|i: int, m: int|
        0 <= i < new.len() && vi <= m < vall.len() ==> (#[trigger] new[i]).key.0 < (
        #[trigger] vall[m]).key.0
    &&& forall|i: int, j: int|
        0 <= i < del.len() && ci <= j < call.len() ==> (#[trigger] del[i]).key.0 < (
        #[trigger] call[j]).key.0
    &&& forall|i: int, m: int|
        0 <= i < upd.len() && vi <= m < vall.len() ==> (#[trigger] upd[i]).0.key.0 < (
        #[trigger] vall[m]).key.0
}

/// Matching step: equal keys at the front of both lists join `upd`.
proof fn lemma_diff_step_upd<V: View>(
    vall: Seq<Keyed<V>>,
    call: Seq<ViewTree<V>>,
    vi: int,
    ci: int,
    new: Seq<Keyed<V>>,
    del: Seq<ViewTree<V>>,
    upd: Seq<(Keyed<V>, ViewTree<V>)>,
)
    requires
        desc_keys_sorted(vall),
        keys_sorted(call),
        diff_inv(vall, call, vi, ci, new, del, upd),
        vi < vall.len(),
        ci < call.len(),
        vall[vi].key == call[ci].key,
    ensures
        diff_inv(vall, call, vi + 1, ci + 1, new, del, upd.push((vall[vi], call[ci]))),
{
    reveal(diff_inv);
    let x = vall[vi];
    let c = call[ci];
    let upd2 = upd.push((x, c));
    lemma_push_contains(upd, (x, c));
    lemma_take_succ_contains(vall, vi);
    lemma_take_succ_contains(call, ci);
    assert forall|y: Keyed<V>| #[trigger]
        vall.take(vi + 1).contains(y) && has_tree_key(call, y.key) implies upd_covers_view(
        upd2,
        y,
    ) by {
        if y == x {
            assert(upd2.contains((x, c)));
        } else {
            assert(vall.take(vi).contains(y));
            assert(upd_covers_view(upd, y));
            let p = choose|p: (Keyed<V>, ViewTree<V>)| #[trigger] upd.contains(p) && p.0 == y;
            assert(upd2.contains(p));
        }
    }
    assert forall|t: ViewTree<V>| #[trigger]
        call.take(ci + 1).contains(t) && has_desc_key(vall, t.key) implies upd_covers_child(
        upd2,
        t,
    ) by {
        if t == c {
            assert(upd2.contains((x, c)));
        } else {
            assert(call.take(ci).contains(t));
            assert(upd_covers_child(upd, t));
            let p = choose|p: (Keyed<V>, ViewTree<V>)| #[trigger] upd.contains(p) && p.1 == t;
            assert(upd2.contains(p));
        }
    }
    assert forall|y: Keyed<V>| #[trigger]
        vall.take(vi + 1).contains(y) && !has_tree_key(call, y.key) implies new.contains(y) by {
        assert(has_tree_key(call, x.key));
        assert(y != x);
        assert(vall.take(vi).contains(y));
    }
    assert forall|t: ViewTree<V>| #[trigger]
        call.take(ci + 1).contains(t) && !has_desc_key(vall, t.key) implies del.contains(t) by {
        assert(has_desc_key(vall, c.key));
        assert(t != c);
        assert(call.take(ci).contains(t));
    }
}

/// Insertion step: the front description's key is below every retained key
/// still unconsumed, so no retained child can match it and it is new.
proof fn lemma_diff_step_new<V: View>(
    vall: Seq<Keyed<V>>,
    call: Seq<ViewTree<V>>,
    vi: int,
    ci: int,
    new: Seq<Keyed<V>>,
    del: Seq<ViewTree<V>>,
    upd: Seq<(Keyed<V>, ViewTree<V>)>,
)
    requires
        desc_keys_sorted(vall),
        keys_sorted(call),
        diff_inv(vall, call, vi, ci, new, del, upd),
        vi < vall.len(),
        ci == call.len() || vall[vi].key.0 < call[ci].key.0,
    ensures
        diff_inv(vall, call, vi + 1, ci, new.push(vall[vi]), del, upd),
{
    reveal(diff_inv);
    let x = vall[vi];
    let new2 = new.push(x);
    lemma_push_contains(new, x);
    lemma_take_succ_contains(vall, vi);
    assert forall|j: int| 0 <= j < call.len() implies (#[trigger] call[j]).key != x.key by {
        if j < ci {
            assert(call[j].key.0 < vall[vi].key.0);
        } else {
            if j > ci {
                assert(call[ci].key.0 < call[j].key.0);
            }
            assert(call[j].key.0 > x.key.0);
        }
    }
    assert(!has_tree_key(call, x.key));
    assert forall|y: Keyed<V>| #[trigger]
        vall.take(vi + 1).contains(y) && has_tree_key(call, y.key) implies upd_covers_view(
        upd,
        y,
    ) by {
        assert(y != x);
        assert(vall.take(vi).contains(y));
    }
}

/// Deletion step: the front retained child's key is below every description
/// key still unconsumed, so no description can match it and it is stale.
proof fn lemma_diff_step_del<V: View>(
    vall: Seq<Keyed<V>>,
    call: Seq<ViewTree<V>>,
    vi: int,
    ci: int,
    new: Seq<Keyed<V>>,
    del: Seq<ViewTree<V>>,
    upd: Seq<(Keyed<V>, ViewTree<V>)>,
)
    requires
        desc_keys_sorted(vall),
        keys_sorted(call),
        diff_inv(vall, call, vi, ci, new, del, upd),
        ci < call.len(),
        vi == vall.len() || call[ci].key.0 < vall[vi].key.0,
    ensures
        diff_inv(vall, call, vi, ci + 1, new, del.push(call[ci]), upd),
{
    reveal(diff_inv);
    let c = call[ci];
    let del2 = del.push(c);
    lemma_push_contains(del, c);
    lemma_take_succ_contains(call, ci);
    assert forall|m: int| 0 <= m < vall.len() implies (#[trigger] vall[m]).key != c.key by {
        if m < vi {
            assert(vall[m].key.0 < call[ci].key.0);
        } else {
            if m > vi {
                assert(vall[vi].key.0 < vall[m].key.0);
            }
            assert(vall[m].key.0 > c.key.0);
        }
    }
    assert(!has_desc_key(vall, c.key));
    assert forall|t: ViewTree<V>| #[trigger]
        call.take(ci + 1).contains(t) && has_desc_key(vall, t.key) implies upd_covers_child(
        upd,
        t,
    ) by {
        assert(t != c);
        assert(call.take(ci).contains(t));
    }
}


/// The diff invariant holds before anything is consumed.
proof fn lemma_diff_init<V: View>(vall: Seq<Keyed<V>>, call: Seq<ViewTree<V>>)
    ensures
        diff_inv(
            vall,
            call,
            0,
            0,
            Seq::<Keyed<V>>::empty(),
            Seq::<ViewTree<V>>::empty(),
            Seq::<(Keyed<V>, ViewTree<V>)>::empty(),
        ),
{
    reveal(diff_inv);
    assert(vall.take(0) =~= Seq::<Keyed<V>>::empty());
    assert(call.take(0) =~= Seq::<ViewTree<V>>::empty());
}

/// Once both lists are consumed, the invariant yields the diff's contract.
proof fn lemma_diff_final<V: View>(
    vall: Seq<Keyed<V>>,
    call: Seq<ViewTree<V>>,
    new: Seq<Keyed<V>>,
    del: Seq<ViewTree<V>>,
    upd: Seq<(Keyed<V>, ViewTree<V>)>,
)
    requires
        diff_inv(vall, call, vall.len() as int, call.len() as int, new, del, upd),
    ensures
        forall|x: Keyed<V>| #[trigger]
            new.contains(x) ==> vall.contains(x) && !has_tree_key(call, x.key),
        forall|x: Keyed<V>| #[trigger]
            vall.contains(x) && !has_tree_key(call, x.key) ==> new.contains(x),
        forall|t: ViewTree<V>| #[trigger]
            del.contains(t) ==> call.contains(t) && !has_desc_key(vall, t.key),
        forall|t: ViewTree<V>| #[trigger]
            call.contains(t) && !has_desc_key(vall, t.key) ==> del.contains(t),
        forall|p: (Keyed<V>, ViewTree<V>)| #[trigger]
            upd.contains(p) ==> vall.contains(p.0) && call.contains(p.1) && p.0.key == p.1.key,
        forall|x: Keyed<V>| #[trigger]
            vall.contains(x) && has_tree_key(call, x.key) ==> upd_covers_view(upd, x),
        forall|t: ViewTree<V>| #[trigger]
            call.contains(t) && has_desc_key(vall, t.key) ==> upd_covers_child(upd, t),
        desc_keys_sorted(new),
        keys_sorted(del),
        upd_keys_sorted(upd),
{
    reveal(diff_inv);
    assert(vall.take(vall.len() as int) =~= vall);
    assert(call.take(call.len() as int) =~= call);
    assert forall|x: Keyed<V>| #[trigger]
        vall.contains(x) && has_tree_key(call, x.key) implies upd_covers_view(upd, x) by {
        assert(vall.take(vall.len() as int).contains(x));
    }
    assert forall|t: ViewTree<V>| #[trigger]
        call.contains(t) && has_desc_key(vall, t.key) implies upd_covers_child(upd, t) by {
        assert(call.take(call.len() as int).contains(t));
    }
    assert forall|x: Keyed<V>| #[trigger]
        vall.contains(x) && !has_tree_key(call, x.key) implies new.contains(x) by {
        assert(vall.take(vall.len() as int).contains(x));
    }
    assert forall|t: ViewTree<V>| #[trigger]
        call.contains(t) && !has_desc_key(vall, t.key) implies del.contains(t) by {
        assert(call.take(call.len() as int).contains(t));
    }
    assert forall|x: Keyed<V>| #[trigger] new.contains(x) implies vall.contains(x)
        && !has_tree_key(call, x.key) by {
        lemma_take_contains(vall, vall.len() as int);
    }
    assert forall|t: ViewTree<V>| #[trigger] del.contains(t) implies call.contains(t)
        && !has_desc_key(vall, t.key) by {
        lemma_take_contains(call, call.len() as int);
    }
    assert forall|p: (Keyed<V>, ViewTree<V>)| #[trigger] upd.contains(p) implies vall.contains(
        p.0,
    ) && call.contains(p.1) && p.0.key == p.1.key by {
        lemma_take_contains(vall, vall.len() as int);
        lemma_take_contains(call, call.len() as int);
    }
}

impl<V: View> ViewTree<V> {
    /// The keyed diff: a two-pointer merge of the freshly derived
    /// descriptions against the previously retained children, both sorted by
    /// key.  A description whose key no retained child carries is classified
    /// as new; a retained child whose key no description carries is stale
    /// and dropped, together with its state; equal keys are matched into an
    /// update pair.  Matching goes by key alone, never by position.
    pub fn diff(views: Vec<Keyed<V>>, children: Vec<ViewTree<V>>) -> (r: (
        Vec<Keyed<V>>,
        Vec<ViewTree<V>>,
        Vec<(Keyed<V>, ViewTree<V>)>,
    ))
        requires
            desc_keys_sorted(views@),
            keys_sorted(children@),
        ensures
            forall|x: Keyed<V>| #[trigger]
                r.0@.contains(x) ==> views@.contains(x) && !has_tree_key(children@, x.key),
            forall|x: Keyed<V>| #[trigger]
                views@.contains(x) && !has_tree_key(children@, x.key) ==> r.0@.contains(x),
            forall|t: ViewTree<V>| #[trigger]
                r.1@.contains(t) ==> children@.contains(t) && !has_desc_key(views@, t.key),
            forall|t: ViewTree<V>| #[trigger]
                children@.contains(t) && !has_desc_key(views@, t.key) ==> r.1@.contains(t),
            forall|p: (Keyed<V>, ViewTree<V>)| #[trigger]
                r.2@.contains(p) ==> views@.contains(p.0) && children@.contains(p.1) && p.0.key
                    == p.1.key,
            forall|x: Keyed<V>| #[trigger]
                views@.contains(x) && has_tree_key(children@, x.key) ==> upd_covers_view(
                    r.2@,
                    x,
                ),
            forall|t: ViewTree<V>| #[trigger]
                children@.contains(t) && has_desc_key(views@, t.key) ==> upd_covers_child(
                    r.2@,
                    t,
                ),
            desc_keys_sorted(r.0@),
            keys_sorted(r.1@),
            upd_keys_sorted(r.2@),
    {
        let ghost vall = views@;
        let ghost call = children@;
        let mut views = views;
        let mut children = children;
        let mut new: Vec<Keyed<V>> = Vec::new();
        let mut del: Vec<ViewTree<V>> = Vec::new();
        let mut upd: Vec<(Keyed<V>, ViewTree<V>)> = Vec::new();
        let ghost mut vi: int = 0;
        let ghost mut ci: int = 0;
        proof {
            lemma_diff_init(vall, call);
        }
        while views.len() > 0 || children.len() > 0
            invariant
                0 <= vi <= vall.len(),
                0 <= ci <= call.len(),
                views@ == vall.skip(vi),
                children@ == call.skip(ci),
                diff_inv(vall, call, vi, ci, new@, del@, upd@),
            decreases views@.len() + children@.len(),
        {
            let matched = views.len() > 0 && children.len() > 0 && views[0].key.0
                == children[0].key.0;
            let take_view = if children.len() == 0 {
                true
            } else if views.len() == 0 {
                false
            } else {
                views[0].key.0 <= children[0].key.0
            };
            if matched {
                let x = views.remove(0);
                let c = children.remove(0);
                proof {
                    assert(x == vall[vi]);
                    assert(c == call[ci]);
                    lemma_diff_step_upd(vall, call, vi, ci, new@, del@, upd@);
                    vi = vi + 1;
                    ci = ci + 1;
                    assert(views@ =~= vall.skip(vi));
                    assert(children@ =~= call.skip(ci));
                }
                upd.push((x, c));
            } else if take_view {
                let x = views.remove(0);
                proof {
                    assert(x == vall[vi]);
                    lemma_diff_step_new(vall, call, vi, ci, new@, del@, upd@);
                    vi = vi + 1;
                    assert(views@ =~= vall.skip(vi));
                }
                new.push(x);
            } else {
                let c = children.remove(0);
                proof {
                    assert(c == call[ci]);
                    lemma_diff_step_del(vall, call, vi, ci, new@, del@, upd@);
                    ci = ci + 1;
                    assert(children@ =~= call.skip(ci));
                }
                del.push(c);
            }
        }
        proof {
            lemma_diff_final(vall, call, new@, del@, upd@);
        }
        (new, del, upd)
    }
}

/// Retained siblings carry pairwise distinct keys.
pub open spec fn tree_keys_unique<V>(cs: Seq<ViewTree<V>>) -> bool {
    forall|i: int, j: int|
        0 <= i < j < cs.len() ==> (#[trigger] cs[i]).key != (#[trigger] cs[j]).key
}

/// The tree `r` is the result of running the dirty-only pass over the
/// retained tree `t`: no new description was supplied, so no view is
/// hydrated.  A node whose own state cells are dirty re-derives its child
/// descriptions and reconciles them against its retained children; a node
/// whose own cells are clean is left as it is and the walk continues into
/// its children, so that dirty state deep in the tree is still found.  (The
/// walk deliberately continues below clean nodes: a dirty descendant under a
/// clean ancestor is re-derived rather than skipped.)
pub open spec fn dirty_hydrated<V: View>(t: ViewTree<V>, r: ViewTree<V>) -> bool
    decreases t, 2int,
{
    &&& r.key == t.key
    &&& r.view == t.view
    &&& r.size == t.size
    &&& r.offset == t.offset
    &&& if t.view.spec_dirty() {
        reconciled(t.view.spec_children(), t.children@, r.children@)
    } else {
        &&& r.children@.len() == t.children@.len()
        &&& forall|i: int|
            0 <= i < t.children@.len() ==> dirty_hydrated(
                #[trigger] t.children@[i],
                r.children@[i],
            )
    }
}

/// The tree `r` is the result of reconciling the retained tree `t` with the
/// fresh description `d`.  If the node's own state is clean and `d` is the
/// same as the retained view, nothing is replaced and the children are
/// walked by the dirty-only pass; otherwise the view is hydrated in place
/// (its state cells untouched) and the hydrated view's derived children are
/// aligned against the retained child list by the keyed diff.
pub open spec fn hydrated<V: View>(t: ViewTree<V>, d: Keyed<V>, r: ViewTree<V>) -> bool
    decreases t, 2int,
{
    &&& r.key == t.key
    &&& r.size == t.size
    &&& r.offset == t.offset
    &&& if !t.view.spec_dirty() && t.view.spec_same(d.view) {
        &&& r.view == t.view
        &&& r.children@.len() == t.children@.len()
        &&& forall|i: int|
            0 <= i < t.children@.len() ==> dirty_hydrated(
                #[trigger] t.children@[i],
                r.children@[i],
            )
    } else {
        &&& r.view == t.view.spec_hydrate(d.view)
        &&& reconciled(r.view.spec_children(), t.children@, r.children@)
    }
}

/// The child list `rs` is the reconciliation of the derived descriptions
/// `ds` against the previously retained children `olds`: sorted by key, one
/// child per described key, each one either the hydration of the retained
/// child with the same key or a fresh build where no retained child matches.
pub open spec fn reconciled<V: View>(
    ds: Seq<Keyed<V>>,
    olds: Seq<ViewTree<V>>,
    rs: Seq<ViewTree<V>>,
) -> bool
    decreases olds, 1int,
{
    &&& keys_sorted(rs)
    &&& forall|k: Key|
        #![trigger has_tree_key(rs, k)]
        #![trigger has_desc_key(ds, k)]
        has_tree_key(rs, k) <==> has_desc_key(ds, k)
    &&& forall|i: int|
        0 <= i < rs.len() ==> child_reconciled(ds, olds, #[trigger] rs[i])
}

/// The subtree `c` is accounted for by the descriptions `ds`: where some
/// retained child carried `c`'s key, `c` is its hydration with the matching
/// description — state is attributed by key, never by position — and
/// otherwise `c` is a fresh build of the matching description.
pub open spec fn child_reconciled<V: View>(
    ds: Seq<Keyed<V>>,
    olds: Seq<ViewTree<V>>,
    c: ViewTree<V>,
) -> bool
    decreases olds, 0int,
{
    if has_tree_key(olds, c.key) {
        exists|j: int, m: int|
            0 <= j < olds.len() && 0 <= m < ds.len() && (#[trigger] olds[j]).key == c.key && (
            #[trigger] ds[m]).key == c.key && hydrated(olds[j], ds[m], c)
    } else {
        child_built(ds, c)
    }
}

/// Sorts rebuilt children back into ascending key order, restoring the
/// merge-join precondition for the next cycle.
fn sort_trees<V: View>(input: Vec<ViewTree<V>>) -> (out: Vec<ViewTree<V>>)
    requires
        tree_keys_unique(input@),
    ensures
        out@.len() == input@.len(),
        keys_sorted(out@),
        forall|x: ViewTree<V>| #[trigger] out@.contains(x) <==> input@.contains(x),
{
    let ghost all = input@;
    let mut rest = input;
    let mut out: Vec<ViewTree<V>> = Vec::new();
    while rest.len() > 0
        invariant
            out@.len() + rest@.len() == all.len(),
            keys_sorted(out@),
            forall|x: ViewTree<V>| #[trigger] all.contains(x) <==> (out@.contains(x)
                || rest@.contains(x)),
            forall|x: ViewTree<V>| #[trigger] out@.contains(x) ==> all.contains(x),
            forall|x: ViewTree<V>| #[trigger] rest@.contains(x) ==> all.contains(x),
            forall|i: int, j: int|
                0 <= i < out@.len() && 0 <= j < rest@.len() ==> (#[trigger] out@[i]).key != (
                #[trigger] rest@[j]).key,
            forall|i: int, j: int|
                0 <= i < j < rest@.len() ==> (#[trigger] rest@[i]).key != (
                #[trigger] rest@[j]).key,
        decreases rest@.len(),
    {
        let ghost old_rest = rest@;
        let ghost old_out = out@;
        let x = rest.remove(0);
        proof {
            lemma_remove_first_contains(old_rest);
        }
        let mut pos: usize = 0;
        while pos < out.len() && out[pos].key.0 < x.key.0
            invariant
                0 <= pos <= out@.len(),
                forall|i: int| 0 <= i < pos ==> (#[trigger] out@[i]).key.0 < x.key.0,
            decreases out@.len() - pos,
        {
            pos = pos + 1;
        }
        proof {
            assert forall|i: int| pos <= i < out@.len() implies x.key.0 < (
            #[trigger] out@[i]).key.0 by {
                assert(out@[i].key != x.key);
                if i > pos {
                    assert(out@[pos as int].key.0 < out@[i].key.0);
                }
            }
        }
        out.insert(pos, x);
        proof {
            lemma_insert_contains(old_out, pos as int, x);
        }
    }
    out
}

/// Builds fresh subtrees for the descriptions the diff classified as new,
/// in order.
fn build_new_subtrees<V: View>(news: Vec<Keyed<V>>) -> (out: Vec<ViewTree<V>>)
    ensures
        out@.len() == news@.len(),
        forall|i: int|
            0 <= i < out@.len() ==> (#[trigger] out@[i]).key == news@[i].key && built_from(
                news@[i],
                out@[i],
            ) && out@[i].wf(),
{
    let ghost all = news@;
    let mut rest = news;
    let mut out: Vec<ViewTree<V>> = Vec::new();
    while rest.len() > 0
        invariant
            out@.len() + rest@.len() == all.len(),
            rest@ == all.skip(out@.len() as int),
            forall|i: int|
                0 <= i < out@.len() ==> (#[trigger] out@[i]).key == all[i].key && built_from(
                    all[i],
                    out@[i],
                ) && out@[i].wf(),
        decreases rest@.len(),
    {
        let d = rest.remove(0);
        proof {
            assert(d == all[out@.len() as int]);
        }
        let sub = ViewTree::new(d);
        out.push(sub);
        proof {
            assert(rest@ =~= all.skip(out@.len() as int));
        }
    }
    out
}

/// The rebuilt children — fresh builds first, then the hydrated matches —
/// carry pairwise distinct keys, because new keys match no retained child
/// while matched keys each match exactly one.
proof fn lemma_merged_keys_unique<V: View>(
    olds: Seq<ViewTree<V>>,
    news: Seq<Keyed<V>>,
    upds: Seq<(Keyed<V>, ViewTree<V>)>,
    built: Seq<ViewTree<V>>,
    hyds: Seq<ViewTree<V>>,
)
    requires
        desc_keys_sorted(news),
        upd_keys_sorted(upds),
        forall|x: Keyed<V>| #[trigger] news.contains(x) ==> !has_tree_key(olds, x.key),
        forall|p: (Keyed<V>, ViewTree<V>)| #[trigger]
            upds.contains(p) ==> olds.contains(p.1) && p.0.key == p.1.key,
        built.len() == news.len(),
        forall|i: int| 0 <= i < built.len() ==> (#[trigger] built[i]).key == news[i].key,
        hyds.len() == upds.len(),
        forall|i: int| 0 <= i < hyds.len() ==> (#[trigger] hyds[i]).key == upds[i].0.key,
    ensures
        tree_keys_unique(built + hyds),
{
    let merged = built + hyds;
    assert forall|i: int, j: int| 0 <= i < j < merged.len() implies (#[trigger] merged[i]).key
        != (#[trigger] merged[j]).key by {
        let bn = built.len() as int;
        if i < bn && j < bn {
            assert(news[i].key.0 < news[j].key.0);
        } else if i >= bn && j >= bn {
            assert(upds[i - bn].0.key.0 < upds[j - bn].0.key.0);
        } else {
            assert(news.contains(news[i]));
            assert(!has_tree_key(olds, news[i].key));
            assert(upds.contains(upds[j - bn]));
            let pc = upds[j - bn];
            assert(olds.contains(pc.1));
            let w = choose|w: int| 0 <= w < olds.len() && olds[w] == pc.1;
            assert(olds[w].key == pc.1.key);
            assert(has_tree_key(olds, pc.1.key));
            assert(merged[i].key != merged[j].key);
        }
    }
}

/// After sorting, the rebuilt children are exactly the reconciliation of the
/// derived descriptions against the retained children.
proof fn lemma_assemble_reconciled<V: View>(
    ds: Seq<Keyed<V>>,
    dsorted: Seq<Keyed<V>>,
    olds: Seq<ViewTree<V>>,
    news: Seq<Keyed<V>>,
    upds: Seq<(Keyed<V>, ViewTree<V>)>,
    built: Seq<ViewTree<V>>,
    hyds: Seq<ViewTree<V>>,
    outs: Seq<ViewTree<V>>,
)
    requires
        forall|x: Keyed<V>| #[trigger] dsorted.contains(x) <==> ds.contains(x),
        forall|x: Keyed<V>| #[trigger]
            news.contains(x) ==> dsorted.contains(x) && !has_tree_key(olds, x.key),
        forall|x: Keyed<V>| #[trigger]
            dsorted.contains(x) && !has_tree_key(olds, x.key) ==> news.contains(x),
        forall|p: (Keyed<V>, ViewTree<V>)| #[trigger]
            upds.contains(p) ==> dsorted.contains(p.0) && olds.contains(p.1) && p.0.key
                == p.1.key,
        forall|x: Keyed<V>| #[trigger]
            dsorted.contains(x) && has_tree_key(olds, x.key) ==> upd_covers_view(upds, x),
        built.len() == news.len(),
        forall|i: int|
            0 <= i < built.len() ==> (#[trigger] built[i]).key == news[i].key && built_from(
                news[i],
                built[i],
            ) && built[i].wf(),
        hyds.len() == upds.len(),
        forall|i: int|
            0 <= i < hyds.len() ==> (#[trigger] hyds[i]).key == upds[i].0.key && hydrated(
                upds[i].1,
                upds[i].0,
                hyds[i],
            ) && hyds[i].wf(),
        keys_sorted(outs),
        forall|x: ViewTree<V>| #[trigger] outs.contains(x) <==> (built + hyds).contains(x),
    ensures
        reconciled(ds, olds, outs),
        forall|i: int| 0 <= i < outs.len() ==> (#[trigger] outs[i]).wf(),
{
    let merged = built + hyds;
    let bn = built.len() as int;
    assert forall|i: int| 0 <= i < merged.len() implies child_reconciled(
        ds,
        olds,
        #[trigger] merged[i],
    ) && merged[i].wf() by {
        if i < bn {
            let c = merged[i];
            assert(c == built[i]);
            assert(news.contains(news[i]));
            assert(!has_tree_key(olds, c.key));
            assert(dsorted.contains(news[i]));
            assert(ds.contains(news[i]));
            let m = choose|m: int| 0 <= m < ds.len() && ds[m] == news[i];
            assert((#[trigger] ds[m]).key == c.key && built_from(ds[m], c));
            assert(child_built(ds, c));
        } else {
            let c = merged[i];
            assert(c == hyds[i - bn]);
            let pr = upds[i - bn];
            assert(upds.contains(pr));
            assert(olds.contains(pr.1));
            let j = choose|j: int| 0 <= j < olds.len() && olds[j] == pr.1;
            assert(dsorted.contains(pr.0));
            assert(ds.contains(pr.0));
            let m = choose|m: int| 0 <= m < ds.len() && ds[m] == pr.0;
            assert(olds[j].key == c.key);
            assert(has_tree_key(olds, c.key));
            assert((#[trigger] olds[j]).key == c.key && (#[trigger] ds[m]).key == c.key
                && hydrated(olds[j], ds[m], c));
        }
    }
    assert forall|i: int| 0 <= i < outs.len() implies child_reconciled(
        ds,
        olds,
        #[trigger] outs[i],
    ) && outs[i].wf() by {
        assert(outs.contains(outs[i]));
        assert(merged.contains(outs[i]));
        let w = choose|w: int| 0 <= w < merged.len() && merged[w] == outs[i];
        assert(child_reconciled(ds, olds, merged[w]) && merged[w].wf());
    }
    assert forall|k: Key|
        has_tree_key(outs, k) <==> has_desc_key(ds, k) by {
        if has_tree_key(outs, k) {
            let i = choose|i: int| 0 <= i < outs.len() && (#[trigger] outs[i]).key == k;
            assert(outs.contains(outs[i]));
            assert(merged.contains(outs[i]));
            let w = choose|w: int| 0 <= w < merged.len() && merged[w] == outs[i];
            if w < bn {
                assert(merged[w].key == news[w].key);
                assert(news.contains(news[w]));
                assert(dsorted.contains(news[w]));
                assert(ds.contains(news[w]));
                let m = choose|m: int| 0 <= m < ds.len() && ds[m] == news[w];
                assert(ds[m].key == k);
                assert(has_desc_key(ds, k));
            } else {
                let pr = upds[w - bn];
                assert(upds.contains(pr));
                assert(dsorted.contains(pr.0));
                assert(ds.contains(pr.0));
                let m = choose|m: int| 0 <= m < ds.len() && ds[m] == pr.0;
                assert(ds[m].key == k);
                assert(has_desc_key(ds, k));
            }
        }
        if has_desc_key(ds, k) {
            let m = choose|m: int| 0 <= m < ds.len() && (#[trigger] ds[m]).key == k;
            assert(ds.contains(ds[m]));
            assert(dsorted.contains(ds[m]));
            let x = ds[m];
            if has_tree_key(olds, x.key) {
                assert(upd_covers_view(upds, x));
                let p = choose|p: (Keyed<V>, ViewTree<V>)| #[trigger]
                    upds.contains(p) && p.0 == x;
                let u = choose|u: int| 0 <= u < upds.len() && upds[u] == p;
                assert(hyds[u].key == k);
                assert(merged[bn + u] == hyds[u]);
                assert(merged.contains(merged[bn + u]));
                assert(outs.contains(merged[bn + u]));
                let o = choose|o: int| 0 <= o < outs.len() && outs[o] == merged[bn + u];
                assert(has_tree_key(outs, k));
            } else {
                assert(news.contains(x));
                let nw = choose|nw: int| 0 <= nw < news.len() && news[nw] == x;
                assert(built[nw].key == k);
                assert(merged[nw] == built[nw]);
                assert(merged.contains(merged[nw]));
                assert(outs.contains(merged[nw]));
                let o = choose|o: int| 0 <= o < outs.len() && outs[o] == merged[nw];
                assert(has_tree_key(outs, k));
            }
        }
    }
}

impl<V: View> ViewTree<V> {
    /// Re-derives this node's children from its current view and aligns them
    /// against the retained child list: matched keys are hydrated in place,
    /// new keys are built fresh, stale keys are dropped with their state,
    /// and the result is re-sorted by key.
    fn realign_children(&mut self)
        requires
            old(self).wf(),
        ensures
            final(self).key == old(self).key,
            final(self).view == old(self).view,
            final(self).size == old(self).size,
            final(self).offset == old(self).offset,
            reconciled(old(self).view.spec_children(), old(self).children@, final(self).children@),
            final(self).wf(),
        decreases old(self).children@, 0int,
    {
        let ghost ds = self.view.spec_children();
        let ghost olds = self.children@;
        let descs = self.view.children();
        proof {
            self.view.lemma_children_wf();
        }
        let descs = sort_descs(descs);
        let ghost dsorted = descs@;
        let mut prev: Vec<ViewTree<V>> = Vec::new();
        core::mem::swap(&mut self.children, &mut prev);
        let (news, _stale, upds) = ViewTree::diff(descs, prev);
        let ghost gnews = news@;
        let ghost gupds = upds@;
        let built = build_new_subtrees(news);
        let ghost gbuilt = built@;
        let mut rest = upds;
        let mut hyds: Vec<ViewTree<V>> = Vec::new();
        while rest.len() > 0
            invariant
                hyds@.len() + rest@.len() == gupds.len(),
                rest@ == gupds.skip(hyds@.len() as int),
                forall|i: int|
                    0 <= i < hyds@.len() ==> (#[trigger] hyds@[i]).key == gupds[i].0.key
                        && hydrated(gupds[i].1, gupds[i].0, hyds@[i]) && hyds@[i].wf(),
            decreases rest@.len(),
        {
            let ghost idx = hyds@.len() as int;
            let (d, mut oldt) = rest.remove(0);
            proof {
                assert(gupds[idx].0 == d && gupds[idx].1 == oldt);
                assert(gupds.contains(gupds[idx]));
                assert(olds.contains(oldt));
                let w = choose|w: int| 0 <= w < olds.len() && olds[w] == oldt;
                assert(olds[w].wf());
            }
            oldt.perform_hydrate(d);
            hyds.push(oldt);
            proof {
                assert(hyds@[idx].key == gupds[idx].1.key);
                assert(rest@ =~= gupds.skip(hyds@.len() as int));
            }
        }
        let ghost ghyds = hyds@;
        let mut merged = built;
        let mut hyds = hyds;
        merged.append(&mut hyds);
        proof {
            assert(merged@ == gbuilt + ghyds);
            assert forall|i: int| 0 <= i < ghyds.len() implies (#[trigger] ghyds[i]).key
                == gupds[i].0.key by {
                assert(ghyds[i].key == gupds[i].1.key);
                assert(gupds.contains(gupds[i]));
            }
            lemma_merged_keys_unique(olds, gnews, gupds, gbuilt, ghyds);
        }
        let out = sort_trees(merged);
        self.children = out;
        proof {
            lemma_assemble_reconciled(
                ds,
                dsorted,
                olds,
                gnews,
                gupds,
                gbuilt,
                ghyds,
                self.children@,
            );
        }
    }

    /// Walks the dirty-only pass into each retained child in place.
    fn walk_children_dirty(&mut self)
        requires
            old(self).wf(),
        ensures
            final(self).key == old(self).key,
            final(self).view == old(self).view,
            final(self).size == old(self).size,
            final(self).offset == old(self).offset,
            final(self).children@.len() == old(self).children@.len(),
            forall|i: int|
                0 <= i < old(self).children@.len() ==> dirty_hydrated(
                    #[trigger] old(self).children@[i],
                    final(self).children@[i],
                ),
            final(self).wf(),
        decreases old(self).children@, 0int,
    {
        let n = self.children.len();
        let mut i: usize = 0;
        while i < n
            invariant
                n == self.children.len(),
                n == old(self).children.len(),
                self.key == old(self).key,
                self.view == old(self).view,
                self.size == old(self).size,
                self.offset == old(self).offset,
                forall|j: int| i <= j < n ==> self.children@[j] == old(self).children@[j],
                forall|j: int|
                    0 <= j < i ==> dirty_hydrated(
                        old(self).children@[j],
                        #[trigger] self.children@[j],
                    ) && self.children@[j].wf(),
            decreases n - i,
        {
            proof {
                assert(self.children@[i as int] == old(self).children@[i as int]);
                assert(old(self).children@[i as int].wf());
                assert(decreases_to!(old(self).children@ => old(self).children@[i as int]));
            }
            self.children[i].perform_hydrate_dirty();
            i = i + 1;
        }
        proof {
            assert forall|a: int, b: int| 0 <= a < b < self.children@.len() implies (
            #[trigger] self.children@[a]).key.0 < (#[trigger] self.children@[b]).key.0 by {
                assert(self.children@[a].key == old(self).children@[a].key);
                assert(self.children@[b].key == old(self).children@[b].key);
            }
        }
    }

    /// The dirty-only pass, run when no new description was derived for this
    /// subtree.  A node whose own state cells are dirty re-derives its child
    /// list and reconciles it; a clean node is left untouched and the walk
    /// continues into its children, so that a dirty descendant under a clean
    /// ancestor is still re-derived.  Continuing below clean nodes is a
    /// deliberate choice: the fast path checks the dirtiness of all
    /// descendants rather than silently skipping a dirty subtree.
    pub fn perform_hydrate_dirty(&mut self)
        requires
            old(self).wf(),
        ensures
            dirty_hydrated(*old(self), *final(self)),
            final(self).wf(),
        decreases *old(self), 1int,
    {
        proof {
            assert(decreases_to!(*old(self) => old(self).children));
            assert(decreases_to!(old(self).children => old(self).children@));
        }
        if self.view.is_dirty() {
            self.realign_children();
        } else {
            self.walk_children_dirty();
        }
    }

    /// Reconciles this subtree with a freshly derived description of it.  If
    /// the node's own state is clean and the description is the same as the
    /// retained view, nothing is replaced and the children are walked by the
    /// dirty-only pass; otherwise the view is hydrated in place — its state
    /// cells untouched — and its freshly derived children are aligned
    /// against the retained child list by the keyed diff.
    pub fn perform_hydrate(&mut self, root: Keyed<V>)
        requires
            old(self).wf(),
        ensures
            hydrated(*old(self), root, *final(self)),
            final(self).wf(),
        decreases *old(self), 1int,
    {
        proof {
            assert(decreases_to!(*old(self) => old(self).children));
            assert(decreases_to!(old(self).children => old(self).children@));
        }
        let clean_same = !self.view.is_dirty() && self.view.is_same(&root.view);
        if clean_same {
            self.walk_children_dirty();
        } else {
            self.view.hydrate(&root.view);
            self.realign_children();
        }
    }
}

} // verus!
