//! What holds of every join.
use vstd::prelude::*;
use vstd::seq_lib::lemma_multiset_commutative;
use crate::merge::{
    merge__using_mem_swap_forget, merge__using_naive_assignment, merge__using_replace_with, merged,
};
use crate::node::{branch, in_order, node_count, values, Node, NodeCell};
use crate::order::{
    is_search_tree, lemma_concat_non_decreasing, lemma_search_tree_walk_non_decreasing,
    non_decreasing, not_above, strictly_below,
};

verus! {

/// Joining a tree with an empty tree, on either side, gives the tree back.
pub proof fn lemma_merged_absent_identity(tree: NodeCell)
    ensures
        merged(None, tree) == tree,
        merged(tree, None) == tree,
{
}

/// Which root stays on top of a join of two non-empty trees: the root of
/// `lower` where its value is the smaller one, the root of `greater` on a
/// tie and where its value is the smaller one. The root that stays keeps its
/// outer subtree untouched.
pub proof fn lemma_merged_root(lower: Box<Node>, greater: Box<Node>)
    ensures
        lower.value < greater.value ==> merged(Some(lower), Some(greater)) == branch(
            lower.value,
            lower.left,
            merged(lower.right, Some(greater)),
        ),
        lower.value >= greater.value ==> merged(Some(lower), Some(greater)) == branch(
            greater.value,
            merged(Some(lower), greater.left),
            greater.right,
        ),
{
}

/// The walk of a join is the walk of `lower` followed by the walk of
/// `greater`.
pub proof fn lemma_merged_in_order(lower: NodeCell, greater: NodeCell)
    ensures
        in_order(merged(lower, greater)) == in_order(lower) + in_order(greater),
    decreases lower, greater,
{
    match (lower, greater) {
        (None, _) => {},
        (_, None) => {},
        (Some(l), Some(g)) => {
            if l.value < g.value {
                lemma_merged_in_order(l.right, greater);
            } else {
                lemma_merged_in_order(lower, g.left);
            }
        },
    }
}

/// A join owns as many nodes as the two trees together: none is made and
/// none is lost.
pub proof fn lemma_merged_node_count(lower: NodeCell, greater: NodeCell)
    ensures
        node_count(merged(lower, greater)) == node_count(lower) + node_count(greater),
    decreases lower, greater,
{
    match (lower, greater) {
        (None, _) => {},
        (_, None) => {},
        (Some(l), Some(g)) => {
            if l.value < g.value {
                lemma_merged_node_count(l.right, greater);
            } else {
                lemma_merged_node_count(lower, g.left);
            }
        },
    }
}

/// A join holds the values of both trees, each as often as the two trees
/// hold it together.
pub proof fn lemma_merged_values(lower: NodeCell, greater: NodeCell)
    ensures
        values(merged(lower, greater)) == values(lower).add(values(greater)),
{
    lemma_merged_in_order(lower, greater);
    lemma_multiset_commutative(in_order(lower), in_order(greater));
}

/// Where both walks are non-decreasing and no value of `lower` is greater
/// than a value of `greater`, the walk of the join is non-decreasing and
/// holds exactly the values of both trees, none of them collapsed.
pub proof fn lemma_merged_walk_non_decreasing(lower: NodeCell, greater: NodeCell)
    requires
        non_decreasing(in_order(lower)),
        non_decreasing(in_order(greater)),
        not_above(in_order(lower), in_order(greater)),
    ensures
        non_decreasing(in_order(merged(lower, greater))),
        values(merged(lower, greater)) == values(lower).add(values(greater)),
{
    lemma_merged_in_order(lower, greater);
    lemma_merged_values(lower, greater);
    lemma_concat_non_decreasing(in_order(lower), in_order(greater));
}

/// For two search trees with no value of `lower` greater than a value of
/// `greater`, the walk of the join is non-decreasing and holds exactly the
/// values of both trees.
pub proof fn lemma_merged_search_trees_walk(lower: NodeCell, greater: NodeCell)
    requires
        is_search_tree(lower),
        is_search_tree(greater),
        not_above(in_order(lower), in_order(greater)),
    ensures
        non_decreasing(in_order(merged(lower, greater))),
        values(merged(lower, greater)) == values(lower).add(values(greater)),
{
    lemma_search_tree_walk_non_decreasing(lower);
    lemma_search_tree_walk_non_decreasing(greater);
    lemma_merged_walk_non_decreasing(lower, greater);
}

/// The walk of a join is non-decreasing on those inputs only: both walks
/// non-decreasing, and no value of `lower` greater than a value of `greater`.
pub proof fn lemma_merged_walk_non_decreasing_only_if(lower: NodeCell, greater: NodeCell)
    requires
        non_decreasing(in_order(merged(lower, greater))),
    ensures
        non_decreasing(in_order(lower)),
        non_decreasing(in_order(greater)),
        not_above(in_order(lower), in_order(greater)),
{
    lemma_merged_in_order(lower, greater);
    lemma_concat_non_decreasing(in_order(lower), in_order(greater));
}

/// The join of two search trees is a search tree where every value of
/// `lower` is smaller than every value of `greater`. Smaller, not merely
/// not greater: a value of `lower` that equals the root of `greater` ends up
/// on that root's left.
pub proof fn lemma_merged_search_tree(lower: NodeCell, greater: NodeCell)
    requires
        is_search_tree(lower),
        is_search_tree(greater),
        strictly_below(in_order(lower), in_order(greater)),
    ensures
        is_search_tree(merged(lower, greater)),
    decreases lower, greater,
{
    match (lower, greater) {
        (None, _) => {},
        (_, None) => {},
        (Some(l), Some(g)) => {
            let low = in_order(lower);
            let high = in_order(greater);
            let at_l = in_order(l.left).len() as int;
            let at_g = in_order(g.left).len() as int;
            assert(low[at_l] == l.value);
            assert(high[at_g] == g.value);
            assert(l.value < g.value);
            let right = in_order(l.right);
            assert forall|i: int, j: int| 0 <= i < right.len() && 0 <= j < high.len() implies right[i]
                < high[j] by {
                assert(low[at_l + 1 + i] == right[i]);
            }
            lemma_merged_search_tree(l.right, greater);
            lemma_merged_in_order(l.right, greater);
            let joined = in_order(merged(l.right, greater));
            let root = seq![l.value];
            assert forall|i: int, j: int| 0 <= i < root.len() && 0 <= j < joined.len() implies root[i]
                <= joined[j] by {
                if j < right.len() {
                    assert(joined[j] == right[j]);
                    assert(root[0] <= right[j]);
                } else {
                    assert(joined[j] == high[j - right.len()]);
                    assert(low[at_l] < high[j - right.len()]);
                }
            }
        },
    }
}

/// Joining is deterministic: two calls on equal trees return equal trees,
/// whichever of the three joins each call goes to, and that tree is
/// `merged(lower, greater)`.
pub proof fn lemma_merge_deterministic(
    lower: NodeCell,
    greater: NodeCell,
    first: NodeCell,
    second: NodeCell,
)
    requires
        call_ensures(merge__using_naive_assignment, (lower, greater), first) || call_ensures(
            merge__using_mem_swap_forget,
            (lower, greater),
            first,
        ) || call_ensures(merge__using_replace_with, (lower, greater), first),
        call_ensures(merge__using_naive_assignment, (lower, greater), second) || call_ensures(
            merge__using_mem_swap_forget,
            (lower, greater),
            second,
        ) || call_ensures(merge__using_replace_with, (lower, greater), second),
    ensures
        first == second,
        first == merged(lower, greater),
{
}

/// On equal root values the root of `greater` stays on top, above the whole
/// of `lower`, and both values are kept.
pub proof fn lemma_merged_tie(lower: Box<Node>, greater: Box<Node>)
    requires
        lower.value == greater.value,
    ensures
        merged(Some(lower), Some(greater)) == branch(
            greater.value,
            merged(Some(lower), greater.left),
            greater.right,
        ),
        values(merged(Some(lower), Some(greater))).count(lower.value) == values(Some(lower)).count(
            lower.value,
        ) + values(Some(greater)).count(lower.value),
        values(merged(Some(lower), Some(greater))).count(lower.value) >= 2,
{
    lemma_merged_values(Some(lower), Some(greater));
    let low = in_order(Some(lower));
    let high = in_order(Some(greater));
    assert(low[in_order(lower.left).len() as int] == lower.value);
    assert(high[in_order(greater.left).len() as int] == greater.value);
    assert(low.contains(lower.value));
    assert(high.contains(lower.value));
    low.to_multiset_ensures();
    high.to_multiset_ensures();
}

} // verus!
