//! What holds of every flattened array: its pre-order layout and the
//! agreement of parent and children indexes.
use vstd::prelude::*;
use crate::trace::{Trace, tree_size, subs_size};
use crate::flat::{FlatRecord, flat_spec, flat_block, subs_flat, child_pos, lemma_flat_len, lemma_subs_flat_len,
    lemma_subs_size_mono};

verus! {

/// Start of the `k`-th child subtree, relative to its parent's position.
pub open spec fn sub_offset(t: Trace, k: nat) -> nat {
    1 + subs_size(t, k)
}

proof fn lemma_subs_flat_slice(start: nat, t: Trace, k: nat, m: nat)
    requires
        k < m <= t.subs@.len(),
    ensures
        subs_flat(start, t, m).subrange(subs_size(t, k) as int, subs_size(t, k + 1) as int)
            == flat_spec(Some(start), child_pos(start, t, k), t.subs@[k as int]),
    decreases m,
{
    lemma_subs_flat_len(start, t, (m - 1) as nat);
    lemma_flat_len(Some(start), child_pos(start, t, (m - 1) as nat), t.subs@[m - 1]);
    if k + 1 == m {
        assert(subs_flat(start, t, m).subrange(subs_size(t, k) as int, subs_size(t, k + 1) as int)
            =~= flat_spec(Some(start), child_pos(start, t, k), t.subs@[k as int]));
    } else {
        lemma_subs_flat_slice(start, t, k, (m - 1) as nat);
        lemma_subs_size_mono(t, k + 1, (m - 1) as nat);
        assert(subs_flat(start, t, m).subrange(subs_size(t, k) as int, subs_size(t, k + 1) as int)
            =~= subs_flat(start, t, (m - 1) as nat).subrange(subs_size(t, k) as int, subs_size(t, k + 1) as int));
    }
}

/// The subtree of the `k`-th child starts at sub_offset(t, k).
proof fn lemma_locate(t: Trace, j: nat, m: nat) -> (k: nat)
    requires
        m <= t.subs@.len(),
        j < subs_size(t, m),
    ensures
        k < m,
        subs_size(t, k) <= j < subs_size(t, k + 1),
    decreases m,
{
    if j < subs_size(t, (m - 1) as nat) {
        lemma_locate(t, j, (m - 1) as nat)
    } else {
        (m - 1) as nat
    }
}

/// Flattening lays a tree out in pre-order: the node's own record comes
/// first, with the node's parent, depth, action and result, and is followed
/// by the flattened subtree of each child in source order, each one
/// contiguous and placed right after the previous one. The array holds one
/// record per node of the tree.
pub proof fn lemma_pre_order(parent: Option<nat>, start: nat, t: Trace)
    ensures
        flat_spec(parent, start, t).len() == tree_size(t),
        tree_size(t) == sub_offset(t, t.subs@.len()),
        flat_spec(parent, start, t)[0].parent == parent,
        flat_spec(parent, start, t)[0].depth == t.depth,
        flat_spec(parent, start, t)[0].action == t.action,
        flat_spec(parent, start, t)[0].result == t.result,
        flat_spec(parent, start, t)[0].children.len() == t.subs@.len(),
        forall|k: nat| k < t.subs@.len() ==> {
            &&& #[trigger] flat_spec(parent, start, t)[0].children[k as int] == start + sub_offset(t, k)
            &&& sub_offset(t, k) + tree_size(t.subs@[k as int]) == sub_offset(t, k + 1)
            &&& flat_spec(parent, start, t).subrange(sub_offset(t, k) as int, sub_offset(t, k + 1) as int)
                == flat_spec(Some(start), start + sub_offset(t, k), t.subs@[k as int])
        },
{
    lemma_flat_len(parent, start, t);
    let n = t.subs@.len();
    let s = flat_spec(parent, start, t);
    assert forall|k: nat| k < n implies {
        &&& #[trigger] s[0].children[k as int] == start + sub_offset(t, k)
        &&& sub_offset(t, k) + tree_size(t.subs@[k as int]) == sub_offset(t, k + 1)
        &&& s.subrange(sub_offset(t, k) as int, sub_offset(t, k + 1) as int)
            == flat_spec(Some(start), start + sub_offset(t, k), t.subs@[k as int])
    } by {
        lemma_subs_flat_slice(start, t, k, n);
        lemma_subs_size_mono(t, k + 1, n);
        let sf = subs_flat(start, t, n);
        assert(s.subrange(sub_offset(t, k) as int, sub_offset(t, k + 1) as int)
            =~= sf.subrange(subs_size(t, k) as int, subs_size(t, k + 1) as int));
    }
}

/// The record at `p` (not the first) names a parent placed before it,
/// and that parent lists it among its children.
pub open spec fn parent_linked(s: Seq<FlatRecord>, start: nat, p: int) -> bool {
    &&& s[p].parent is Some
    &&& start <= s[p].parent->0 < start + p
    &&& s[s[p].parent->0 - start].children.contains((start + p) as nat)
}

/// The children of the record at `p` are placed after it and inside the
/// array, in increasing order, and each of them names it as its parent.
pub open spec fn children_linked(s: Seq<FlatRecord>, start: nat, p: int) -> bool {
    &&& forall|a: int| 0 <= a < s[p].children.len() ==> {
        &&& start + p < #[trigger] s[p].children[a] < start + s.len()
        &&& s[s[p].children[a] - start].parent == Some((start + p) as nat)
    }
    &&& forall|a: int, b: int| 0 <= a < b < s[p].children.len()
        ==> #[trigger] s[p].children[a] < #[trigger] s[p].children[b]
}

proof fn lemma_links(parent: Option<nat>, start: nat, t: Trace)
    ensures
        forall|p: int| 0 < p < flat_spec(parent, start, t).len()
            ==> #[trigger] parent_linked(flat_spec(parent, start, t), start, p),
        forall|p: int| 0 <= p < flat_spec(parent, start, t).len()
            ==> #[trigger] children_linked(flat_spec(parent, start, t), start, p),
    decreases t,
{
    let n = t.subs@.len();
    let s = flat_spec(parent, start, t);
    let l = tree_size(t);
    lemma_pre_order(parent, start, t);
    lemma_subs_size_mono(t, n, n);
    assert forall|k: nat| k < n implies #[trigger] sub_offset(t, k + 1) <= l by {
        lemma_subs_size_mono(t, k + 1, n);
    }
    // the root's own children
    assert forall|a: int| 0 <= a < s[0].children.len() implies {
        &&& start + 0 < #[trigger] s[0].children[a] < start + s.len()
        &&& s[s[0].children[a] - start].parent == Some((start + 0) as nat)
    } by {
        let k = a as nat;
        let sub = t.subs@[a];
        let f = flat_spec(Some(start), start + sub_offset(t, k), sub);
        lemma_pre_order(Some(start), start + sub_offset(t, k), sub);
        assert(s.subrange(sub_offset(t, k) as int, sub_offset(t, k + 1) as int)[0] == f[0]);
    }
    assert forall|a: int, b: int| 0 <= a < b < s[0].children.len()
        implies #[trigger] s[0].children[a] < #[trigger] s[0].children[b] by {
        lemma_subs_size_mono(t, (a + 1) as nat, b as nat);
        assert(s[0].children[a as nat as int] == start + sub_offset(t, a as nat));
        assert(s[0].children[b as nat as int] == start + sub_offset(t, b as nat));
    }
    assert(children_linked(s, start, 0));
    // every other record lies in the subtree of one child
    assert forall|p: int| 0 < p < s.len() implies parent_linked(s, start, p) && children_linked(s, start, p) by {
        let k = lemma_locate(t, (p - 1) as nat, n);
        let off = sub_offset(t, k);
        let end = sub_offset(t, k + 1);
        let sub = t.subs@[k as int];
        let st = start + off;
        let f = flat_spec(Some(start), st, sub);
        lemma_pre_order(Some(start), st, sub);
        assert(decreases_to!(t.subs@ => t.subs@[k as int]));
        assert(decreases_to!(t.subs => t.subs@)) by {
            broadcast use vstd::std_specs::vec::axiom_vec_decreases_to_view;
        }
        lemma_links(Some(start), st, sub);
        assert(s[0].children[k as int] == start + off);
        assert forall|x: int| off <= x < end implies s[x] == f[x - off] by {
            assert(s.subrange(off as int, end as int)[x - off] == s[x]);
        }
        let pp = p - off;
        assert(s[p] == f[pp]);
        if pp == 0 {
            assert(s[0].children[k as int] == start + p);
        } else {
            assert(parent_linked(f, st, pp));
            let q = f[pp].parent->0;
            assert(s[q - start] == f[q - st]);
        }
        assert(children_linked(f, st, pp));
        assert forall|a: int| 0 <= a < s[p].children.len() implies {
            &&& start + p < #[trigger] s[p].children[a] < start + s.len()
            &&& s[s[p].children[a] - start].parent == Some((start + p) as nat)
        } by {
            let c = f[pp].children[a];
            assert(s[c - start] == f[c - st]);
        }
    }
}

/// The array holds one record per node of the tree: one for the root, and
/// for each child as many as its subtree holds.
pub proof fn lemma_size_law(parent: Option<nat>, start: nat, t: Trace)
    ensures
        flat_spec(parent, start, t).len() == tree_size(t),
        tree_size(t) == 1 + subs_size(t, t.subs@.len()),
        forall|k: nat| k < t.subs@.len() ==>
            #[trigger] subs_size(t, k + 1) == subs_size(t, k) + tree_size(t.subs@[k as int]),
{
    lemma_flat_len(parent, start, t);
}

/// In a transaction's array, each record with a parent comes after that
/// parent, and the parent lists it among its children.
pub proof fn lemma_parent_index(t: Trace)
    ensures
        forall|p: int| 0 <= p < flat_spec(None, 0, t).len()
            && (#[trigger] flat_spec(None, 0, t)[p]).parent is Some ==> {
            &&& flat_spec(None, 0, t)[p].parent->0 < p
            &&& flat_spec(None, 0, t)[flat_spec(None, 0, t)[p].parent->0 as int].children.contains(p as nat)
        },
{
    lemma_links(None, 0, t);
    lemma_pre_order(None, 0, t);
    let s = flat_spec(None, 0, t);
    assert forall|p: int| 0 <= p < s.len() && (#[trigger] s[p]).parent is Some implies {
        &&& s[p].parent->0 < p
        &&& s[s[p].parent->0 as int].children.contains(p as nat)
    } by {
        assert(parent_linked(s, 0, p));
    }
}

/// In a transaction's array, the children listed at a position are exactly
/// the positions whose record names it as parent, listed in increasing
/// order, which is the order of the array.
pub proof fn lemma_children_complete(t: Trace)
    ensures
        forall|p: int| 0 <= p < flat_spec(None, 0, t).len() ==> {
            &&& (#[trigger] flat_spec(None, 0, t)[p]).children.to_set()
                == Set::new(|c: nat| c < flat_spec(None, 0, t).len()
                    && flat_spec(None, 0, t)[c as int].parent == Some(p as nat))
            &&& forall|a: int, b: int| 0 <= a < b < flat_spec(None, 0, t)[p].children.len()
                ==> flat_spec(None, 0, t)[p].children[a] < flat_spec(None, 0, t)[p].children[b]
        },
{
    lemma_links(None, 0, t);
    lemma_pre_order(None, 0, t);
    let s = flat_spec(None, 0, t);
    assert forall|p: int| 0 <= p < s.len() implies {
        &&& (#[trigger] s[p]).children.to_set()
            == Set::new(|c: nat| c < s.len() && s[c as int].parent == Some(p as nat))
        &&& forall|a: int, b: int| 0 <= a < b < s[p].children.len() ==> s[p].children[a] < s[p].children[b]
    } by {
        assert(children_linked(s, 0, p));
        let lhs = s[p].children.to_set();
        let rhs = Set::new(|c: nat| c < s.len() && s[c as int].parent == Some(p as nat));
        assert forall|c: nat| lhs.contains(c) implies rhs.contains(c) by {
            let a = s[p].children.index_of(c);
            assert(s[p].children[a] == c);
        }
        assert forall|c: nat| rhs.contains(c) implies lhs.contains(c) by {
            assert(c != 0);
            assert(parent_linked(s, 0, c as int));
        }
        assert(lhs =~= rhs);
        assert forall|a: int, b: int| 0 <= a < b < s[p].children.len() implies s[p].children[a] < s[p].children[b] by {
            assert(s[p].children[a] < s[p].children[b]);
        }
    }
}

/// In a transaction's array exactly one record has no parent: the root,
/// at position zero.
pub proof fn lemma_single_root(t: Trace)
    ensures
        forall|p: int| 0 <= p < flat_spec(None, 0, t).len() ==>
            ((#[trigger] flat_spec(None, 0, t)[p]).parent is None <==> p == 0),
{
    lemma_links(None, 0, t);
    lemma_pre_order(None, 0, t);
    let s = flat_spec(None, 0, t);
    assert forall|p: int| 0 <= p < s.len() implies ((#[trigger] s[p]).parent is None <==> p == 0) by {
        if p != 0 {
            assert(parent_linked(s, 0, p));
        }
    }
}

/// A tree of one node flattens to one record, with no parent and no children.
pub proof fn lemma_leaf(t: Trace)
    requires
        t.subs@.len() == 0,
    ensures
        flat_spec(None, 0, t).len() == 1,
        flat_spec(None, 0, t)[0].parent is None,
        flat_spec(None, 0, t)[0].children.len() == 0,
{
    lemma_pre_order(None, 0, t);
}

/// Every index in a transaction's array points into that same array.
pub open spec fn self_contained(s: Seq<FlatRecord>) -> bool {
    forall|p: int| 0 <= p < s.len() ==> {
        &&& ((#[trigger] s[p]).parent is Some ==> s[p].parent->0 < s.len())
        &&& forall|a: int| 0 <= a < s[p].children.len() ==> #[trigger] s[p].children[a] < s.len()
    }
}

/// Each transaction of a block is flattened on its own: its array is the
/// one that flattening that transaction alone gives, it starts at position
/// zero, and none of its indexes points outside it.
pub proof fn lemma_transactions_independent(b: Seq<Trace>, i: int)
    requires
        0 <= i < b.len(),
    ensures
        flat_block(b).len() == b.len(),
        flat_block(b)[i] == flat_block(seq![b[i]])[0],
        flat_block(b)[i][0].parent is None,
        self_contained(flat_block(b)[i]),
{
    let t = b[i];
    let s = flat_spec(None, 0, t);
    lemma_links(None, 0, t);
    lemma_pre_order(None, 0, t);
    assert forall|p: int| 0 <= p < s.len() implies {
        &&& ((#[trigger] s[p]).parent is Some ==> s[p].parent->0 < s.len())
        &&& forall|a: int| 0 <= a < s[p].children.len() ==> #[trigger] s[p].children[a] < s.len()
    } by {
        assert(children_linked(s, 0, p));
        if p > 0 {
            assert(parent_linked(s, 0, p));
        }
    }
}

} // verus!
