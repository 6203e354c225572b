//! Order on walks and the ordering invariant of a search tree.
use vstd::prelude::*;
use crate::node::{in_order, NodeCell};

verus! {

/// No value of the sequence is followed by a smaller one.
pub open spec fn non_decreasing(walk: Seq<i32>) -> bool {
    forall|i: int, j: int| 0 <= i <= j < walk.len() ==> walk[i] <= walk[j]
}

/// No value of `low` is greater than a value of `high`.
pub open spec fn not_above(low: Seq<i32>, high: Seq<i32>) -> bool {
    forall|i: int, j: int| 0 <= i < low.len() && 0 <= j < high.len() ==> low[i] <= high[j]
}

/// Every value of `low` is smaller than every value of `high`.
pub open spec fn strictly_below(low: Seq<i32>, high: Seq<i32>) -> bool {
    forall|i: int, j: int| 0 <= i < low.len() && 0 <= j < high.len() ==> low[i] < high[j]
}

/// The ordering invariant of a search tree: at every node, each value of the
/// left subtree is smaller than the node's value, and each value of the
/// right subtree is greater than or equal to it.
pub open spec fn is_search_tree(tree: NodeCell) -> bool
    decreases tree,
{
    match tree {
        None => true,
        Some(node) => {
            &&& is_search_tree(node.left)
            &&& is_search_tree(node.right)
            &&& strictly_below(in_order(node.left), seq![node.value])
            &&& not_above(seq![node.value], in_order(node.right))
        },
    }
}

/// A concatenation is non-decreasing exactly when both parts are and no
/// value of the first part is greater than a value of the second.
pub proof fn lemma_concat_non_decreasing(low: Seq<i32>, high: Seq<i32>)
    ensures
        non_decreasing(low + high) <==> non_decreasing(low) && non_decreasing(high) && not_above(
            low,
            high,
        ),
{
    let both = low + high;
    let n = low.len() as int;
    if non_decreasing(both) {
        assert forall|i: int, j: int| 0 <= i <= j < low.len() implies low[i] <= low[j] by {
            assert(both[i] == low[i] && both[j] == low[j]);
        }
        assert forall|i: int, j: int| 0 <= i <= j < high.len() implies high[i] <= high[j] by {
            assert(both[n + i] == high[i] && both[n + j] == high[j]);
        }
        assert forall|i: int, j: int| 0 <= i < low.len() && 0 <= j < high.len() implies low[i]
            <= high[j] by {
            assert(both[i] == low[i] && both[n + j] == high[j]);
        }
    }
    if non_decreasing(low) && non_decreasing(high) && not_above(low, high) {
        assert forall|i: int, j: int| 0 <= i <= j < both.len() implies both[i] <= both[j] by {
            if j < n {
                assert(both[i] == low[i] && both[j] == low[j]);
            } else if i < n {
                assert(both[i] == low[i] && both[j] == high[j - n]);
            } else {
                assert(both[i] == high[i - n] && both[j] == high[j - n]);
            }
        }
    }
}

/// The walk of a search tree is non-decreasing.
pub proof fn lemma_search_tree_walk_non_decreasing(tree: NodeCell)
    requires
        is_search_tree(tree),
    ensures
        non_decreasing(in_order(tree)),
    decreases tree,
{
    if let Some(node) = tree {
        lemma_search_tree_walk_non_decreasing(node.left);
        lemma_search_tree_walk_non_decreasing(node.right);
        let left = in_order(node.left);
        let right = in_order(node.right);
        let root = seq![node.value];
        assert(left.push(node.value) =~= left + root);
        assert(root[0] == node.value);
        lemma_concat_non_decreasing(left, root);
        assert(not_above(left + root, right)) by {
            assert forall|i: int, j: int|
                0 <= i < (left + root).len() && 0 <= j < right.len() implies (left + root)[i]
                <= right[j] by {
                assert(root[0] <= right[j]);
                if i < left.len() {
                    assert(left[i] < root[0]);
                }
            }
        }
        lemma_concat_non_decreasing(left + root, right);
    }
}

} // verus!
