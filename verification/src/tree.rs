//! Trees of values, flattened to their leaves in depth-first order.

use vstd::prelude::*;

verus! {

broadcast use vstd::seq::axiom_seq_index_decreases, vstd::std_specs::vec::axiom_vec_index_decreases, vstd::std_specs::vec::axiom_vec_decreases_to_view;

/// The mathematical form of a tree: a leaf value, or a list of subtrees.
pub enum TreeNodeV<L> {
    Leaf(L),
    Node(Seq<TreeNodeV<L>>),
}

/// A tree of values: a leaf, or a list of subtrees.
#[derive(Debug)]
pub enum TreeNode<L> {
    Leaf(L),
    Node(Vec<TreeNode<L>>),
}

impl<L> TreeNode<L> {
    /// The mathematical form of this tree.
    pub open spec fn view_spec(self) -> TreeNodeV<L>
        decreases self, 0int,
    {
        match self {
            TreeNode::Leaf(l) => TreeNodeV::Leaf(l),
            TreeNode::Node(ts) => TreeNodeV::Node(
                Seq::new(
                    ts.len() as nat,
                    |i: int|
                        if 0 <= i < ts.len() {
                            ts[i].view_spec()
                        } else {
                            TreeNodeV::Node(Seq::empty())
                        },
                ),
            ),
        }
    }
}

/// The leaves of a tree, leftmost first.
pub open spec fn leaves_of<L>(t: TreeNodeV<L>) -> Seq<L>
    decreases t, 0int,
{
    match t {
        TreeNodeV::Leaf(l) => seq![l],
        TreeNodeV::Node(ts) => leaves_of_list(ts, ts.len() as int),
    }
}

/// The leaves of the first `k` subtrees, in order.
pub open spec fn leaves_of_list<L>(ts: Seq<TreeNodeV<L>>, k: int) -> Seq<L>
    decreases ts, k,
{
    if k <= 0 || k > ts.len() {
        Seq::empty()
    } else {
        leaves_of_list(ts, k - 1) + leaves_of(ts[k - 1])
    }
}

/// Appends a tree's leaves to `out`, depth first, leftmost first.
fn flatten_into<L: Copy>(t: &TreeNode<L>, out: &mut Vec<L>)
    ensures
        final(out)@ == old(out)@ + leaves_of(t.view_spec()),
    decreases *t, 0int,
{
    match t {
        TreeNode::Leaf(l) => {
            out.push(*l);
            proof {
                assert(final(out)@ =~= old(out)@ + leaves_of(t.view_spec()));
            }
        },
        TreeNode::Node(ts) => {
            let ghost tsv = t.view_spec()->Node_0;
            let mut i: usize = 0;
            while i < ts.len()
                invariant
                    i <= ts.len(),
                    t is Node,
                    t->Node_0 == *ts,
                    tsv == t.view_spec()->Node_0,
                    t.view_spec() matches TreeNodeV::Node(g) && g == tsv,
                    tsv.len() == ts.len(),
                    out@ == old(out)@ + leaves_of_list(tsv, i as int),
                decreases ts.len() - i,
            {
                proof {
                    assert(decreases_to!(*t => t->Node_0));
                    assert(t->Node_0 == *ts);
                    assert(decreases_to!(t->Node_0 => ts@));
                    assert(decreases_to!(ts@ => ts@[i as int]));
                    assert(decreases_to!(*t => ts@[i as int]));
                    assert(tsv[i as int] == ts@[i as int].view_spec());
                }
                flatten_into(&ts[i], out);
                i = i + 1;
                proof {
                    assert(out@ =~= old(out)@ + leaves_of_list(tsv, i as int));
                }
            }
        },
    }
}

/// The leaves of a whole list of trees, in order.
pub open spec fn leaves_of_seed<L>(seed: Seq<TreeNode<L>>, k: int) -> Seq<L>
    decreases k,
{
    if k <= 0 || k > seed.len() {
        Seq::empty()
    } else {
        leaves_of_seed(seed, k - 1) + leaves_of(seed[k - 1].view_spec())
    }
}

/// A depth-first cursor over the leaves of a list of trees.
#[derive(Debug)]
pub struct TreeIter<L> {
    pub leaves: Vec<L>,
    pub pos: usize,
}

impl<L: Copy> TreeIter<L> {
    /// A cursor positioned before the first leaf of `seed`.
    pub fn new(seed: &Vec<TreeNode<L>>) -> (r: Self)
        ensures
            r.pos == 0,
            r.leaves@ == leaves_of_seed(seed@, seed@.len() as int),
    {
        let mut leaves: Vec<L> = Vec::new();
        let mut i: usize = 0;
        while i < seed.len()
            invariant
                i <= seed.len(),
                leaves@ == leaves_of_seed(seed@, i as int),
            decreases seed.len() - i,
        {
            flatten_into(&seed[i], &mut leaves);
            i = i + 1;
            proof {
                assert(leaves@ =~= leaves_of_seed(seed@, i as int));
            }
        }
        TreeIter { leaves, pos: 0 }
    }

    /// The next leaf in depth-first order, if one is left.
    pub fn next(&mut self) -> (r: Option<L>)
        ensures
            final(self).leaves == old(self).leaves,
            old(self).pos < old(self).leaves.len() ==> r == Some(
                old(self).leaves@[old(self).pos as int],
            ) && final(self).pos == old(self).pos + 1,
            old(self).pos >= old(self).leaves.len() ==> r is None && final(self).pos == old(
                self,
            ).pos,
    {
        if self.pos < self.leaves.len() {
            let v = self.leaves[self.pos];
            self.pos = self.pos + 1;
            Some(v)
        } else {
            None
        }
    }
}

} // verus!
