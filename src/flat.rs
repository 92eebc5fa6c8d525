//! Traces of a transaction laid out in pre-order, with parent and children
//! given as positions in the same array.
use vstd::prelude::*;
use crate::trace::{Action, Res, Trace, BlockTraces, tree_size, subs_size};

verus! {

/// Trace localized in the vector of traces produced by a single transaction.
///
/// Parent and children indexes refer to positions in this vector.
pub struct FlatTrace {
    /// Index of the parent trace within the same transaction.
    pub parent: Option<usize>,
    /// Indexes of child traces within the same transaction.
    pub children: Vec<usize>,
    /// VM depth.
    pub depth: usize,
    /// Type of action performed by a transaction.
    pub action: Action,
    /// Result of this action.
    pub result: Res,
}

/// A flat trace seen as mathematical values.
pub struct FlatRecord {
    pub parent: Option<nat>,
    pub children: Seq<nat>,
    pub depth: usize,
    pub action: Action,
    pub result: Res,
}

pub open spec fn opt_nat(o: Option<usize>) -> Option<nat> {
    match o {
        Some(i) => Some(i as nat),
        None => None,
    }
}

impl FlatTrace {
    pub open spec fn view(&self) -> FlatRecord {
        FlatRecord {
            parent: opt_nat(self.parent),
            children: self.children@.map_values(|c: usize| c as nat),
            depth: self.depth,
            action: self.action,
            result: self.result,
        }
    }
}

/// The records of a sequence of flat traces.
pub open spec fn records(v: Seq<FlatTrace>) -> Seq<FlatRecord> {
    v.map_values(|f: FlatTrace| f@)
}

/// Position of the `k`-th child of a node placed at `start`.
pub open spec fn child_pos(start: nat, t: Trace, k: nat) -> nat {
    start + 1 + subs_size(t, k)
}

/// Positions of the first `k` children of a node placed at `start`.
pub open spec fn child_positions(start: nat, t: Trace, k: nat) -> Seq<nat> {
    Seq::new(k, |i: int| child_pos(start, t, i as nat))
}

/// Pre-order records of the tree `t`, whose root is placed at `start`
/// under the parent `parent`.
pub open spec fn flat_spec(parent: Option<nat>, start: nat, t: Trace) -> Seq<FlatRecord>
    decreases t, 1nat, 0nat,
{
    seq![
        FlatRecord {
            parent: parent,
            children: child_positions(start, t, t.subs@.len()),
            depth: t.depth,
            action: t.action,
            result: t.result,
        },
    ] + subs_flat(start, t, t.subs@.len())
}

/// Pre-order records of the first `k` child subtrees of a node placed at `start`.
pub open spec fn subs_flat(start: nat, t: Trace, k: nat) -> Seq<FlatRecord>
    decreases t, 0nat, k,
{
    if k == 0 || k > t.subs@.len() {
        seq![]
    } else {
        subs_flat(start, t, (k - 1) as nat)
            + flat_spec(Some(start), child_pos(start, t, (k - 1) as nat), t.subs@[k - 1])
    }
}

/// The arrays of a block: each transaction's tree flattened on its own,
/// starting at position zero, in transaction order.
pub open spec fn flat_block(b: Seq<Trace>) -> Seq<Seq<FlatRecord>> {
    b.map_values(|t: Trace| flat_spec(None, 0, t))
}

/// The first `i` child subtrees, then the `i`-th, fit in the first `j`.
pub proof fn lemma_subs_size_mono(t: Trace, i: nat, j: nat)
    requires
        i <= j <= t.subs@.len(),
    ensures
        subs_size(t, i) <= subs_size(t, j),
        i < j ==> subs_size(t, i) + tree_size(t.subs@[i as int]) <= subs_size(t, j),
    decreases j - i,
{
    if i < j {
        lemma_subs_size_mono(t, i, (j - 1) as nat);
    }
}

pub proof fn lemma_flat_len(parent: Option<nat>, start: nat, t: Trace)
    ensures
        flat_spec(parent, start, t).len() == tree_size(t),
    decreases t, 1nat, 0nat,
{
    lemma_subs_flat_len(start, t, t.subs@.len());
}

pub proof fn lemma_subs_flat_len(start: nat, t: Trace, k: nat)
    ensures
        subs_flat(start, t, k).len() == subs_size(t, k),
    decreases t, 0nat, k,
{
    if k > 0 && k <= t.subs@.len() {
        lemma_subs_flat_len(start, t, (k - 1) as nat);
        lemma_flat_len(Some(start), child_pos(start, t, (k - 1) as nat), t.subs@[k - 1]);
    }
}

/// The items of `v` in reverse order, so that popping yields them in order.
fn reversed<T>(v: Vec<T>) -> (r: Vec<T>)
    ensures
        r@.len() == v@.len(),
        forall|j: int| 0 <= j < r@.len() ==> #[trigger] r@[j] == v@[v@.len() - 1 - j],
{
    let ghost n = v@.len();
    let mut pending = v;
    let mut r: Vec<T> = Vec::new();
    while pending.len() > 0
        invariant
            pending@ =~= v@.subrange(0, pending@.len() as int),
            r@.len() + pending@.len() == n,
            n == v@.len(),
            forall|j: int| 0 <= j < r@.len() ==> #[trigger] r@[j] == v@[n - 1 - j],
        decreases pending@.len(),
    {
        let x = pending.pop().unwrap();
        r.push(x);
    }
    r
}

/// Represents all traces produced by a single transaction.
pub struct FlatTransactionTraces(pub Vec<FlatTrace>);

impl FlatTransactionTraces {
    /// The traces of one transaction, flattened from the root of its tree.
    pub fn from(trace: Trace) -> (r: FlatTransactionTraces)
        requires
            tree_size(trace) <= usize::MAX,
        ensures
            records(r.0@) == flat_spec(None, 0, trace),
    {
        FlatTransactionTraces(FlatBlockTraces::flatten(None, 0, trace))
    }

    pub fn into(self) -> (r: Vec<FlatTrace>)
        ensures
            r@ == self.0@,
    {
        self.0
    }
}

/// Represents all traces produced by transactions in a single block.
pub struct FlatBlockTraces(pub Vec<FlatTransactionTraces>);

impl FlatBlockTraces {
    /// Flattens the trace tree of each transaction of `block` on its own,
    /// each into an array that starts at position zero, in transaction order.
    pub fn from(block: BlockTraces) -> (r: FlatBlockTraces)
        requires
            forall|i: int| 0 <= i < block.0@.len() ==> tree_size(#[trigger] block.0@[i]) <= usize::MAX,
        ensures
            r.0@.len() == block.0@.len(),
            forall|i: int| 0 <= i < r.0@.len() ==> #[trigger] records(r.0@[i].0@) == flat_block(block.0@)[i],
    {
        let ghost b = block.0@;
        let mut stack = reversed(block.into());
        let mut ordered: Vec<FlatTransactionTraces> = Vec::new();
        while stack.len() > 0
            invariant
                ordered@.len() + stack@.len() == b.len(),
                forall|j: int| 0 <= j < stack@.len() ==> #[trigger] stack@[j] == b[b.len() - 1 - j],
                forall|j: int| 0 <= j < b.len() ==> tree_size(#[trigger] b[j]) <= usize::MAX,
                forall|j: int| 0 <= j < ordered@.len() ==> #[trigger] records(ordered@[j].0@) == flat_spec(None, 0, b[j]),
            decreases stack@.len(),
        {
            let trace = stack.pop().unwrap();
            assert(trace == b[ordered@.len() as int]);
            ordered.push(FlatTransactionTraces::from(trace));
        }
        FlatBlockTraces(ordered)
    }

    pub fn into(self) -> (r: Vec<FlatTransactionTraces>)
        ensures
            r@ == self.0@,
    {
        self.0
    }

    /// Flattens the tree `trace`, whose root goes to position `len` under
    /// `parent_index`, into its records in pre-order.
    pub fn flatten(parent_index: Option<usize>, len: usize, trace: Trace) -> (r: Vec<FlatTrace>)
        requires
            len + tree_size(trace) <= usize::MAX,
        ensures
            records(r@) == flat_spec(opt_nat(parent_index), len as nat, trace),
        decreases trace,
    {
        let ghost t = trace;
        let Trace { depth, action, result, subs } = trace;
        let ghost n = subs@.len();
        assert(subs@ == t.subs@);
        let mut stack = reversed(subs);
        let mut children: Vec<usize> = Vec::new();
        let mut all_subs: Vec<FlatTrace> = Vec::new();
        let mut next_index: usize = len + 1;
        let ghost mut i: nat = 0;
        proof {
            lemma_subs_size_mono(t, 0, n);
        }
        while stack.len() > 0
            invariant
                i + stack@.len() == n,
                t == trace,
                n == t.subs@.len(),
                forall|j: int| 0 <= j < stack@.len() ==> #[trigger] stack@[j] == t.subs@[n - 1 - j],
                len + tree_size(t) <= usize::MAX,
                tree_size(t) == 1 + subs_size(t, n),
                next_index == child_pos(len as nat, t, i),
                children@.len() == i,
                forall|j: int| 0 <= j < i ==> #[trigger] children@[j] as nat == child_pos(len as nat, t, j as nat),
                records(all_subs@) == subs_flat(len as nat, t, i),
            decreases stack@.len(),
        {
            let sub = stack.pop().unwrap();
            proof {
                lemma_subs_size_mono(t, i, n);
                assert(sub == t.subs@[i as int]);
                assert(decreases_to!(t.subs@ => t.subs@[i as int]));
                assert(decreases_to!(t.subs => t.subs@)) by {
                    broadcast use vstd::std_specs::vec::axiom_vec_decreases_to_view;
                }
                assert(decreases_to!(t => t.subs));
                assert(decreases_to!(t => sub));
                lemma_flat_len(Some(len as nat), next_index as nat, sub);
            }
            let mut subs = FlatBlockTraces::flatten(Some(len), next_index, sub);
            children.push(next_index);
            next_index = next_index + subs.len();
            all_subs.append(&mut subs);
            proof {
                i = i + 1;
            }
            assert(records(all_subs@) =~= subs_flat(len as nat, t, i));
        }
        assert(children@.map_values(|c: usize| c as nat) =~= child_positions(len as nat, t, n));
        let ordered = FlatTrace { parent: parent_index, children, depth, action, result };
        let mut result = vec![ordered];
        result.append(&mut all_subs);
        assert(records(result@) =~= flat_spec(opt_nat(parent_index), len as nat, t));
        result
    }
}

} // verus!
