//! The join of two trees, and three ways of threading a subtree through it.
//!
//! The three functions compute the same tree. They differ in how the slot of
//! a child is emptied before the recursive call and filled again after it.
use vstd::prelude::*;
use crate::laws::{
    lemma_merged_in_order, lemma_merged_node_count, lemma_merged_search_tree, lemma_merged_values,
};
use crate::node::{in_order, node_count, values, Node, NodeCell};
use crate::option_ext::OptionExt;
use crate::order::{
    is_search_tree, lemma_concat_non_decreasing, non_decreasing, not_above, strictly_below,
};

verus! {

/// `std::mem::forget` takes ownership of a value and returns without running
/// its destructor. Nothing is claimed of it beyond that it returns.
pub assume_specification<T>[ core::mem::forget::<T> ](t: T);

/// The tree that joining `lower` with `greater` gives.
///
/// An empty side gives the other side back. Otherwise the smaller root stays
/// on top and keeps its left subtree, and its right subtree is joined with
/// the whole of `greater`; on a tie, or when the root of `greater` is the
/// smaller one, the root of `greater` stays on top and keeps its right
/// subtree, and the whole of `lower` is joined with its left subtree.
pub open spec fn merged(lower: NodeCell, greater: NodeCell) -> NodeCell
    decreases lower, greater,
{
    match (lower, greater) {
        (None, _) => greater,
        (_, None) => lower,
        (Some(l), Some(g)) => if l.value < g.value {
            Some(Box::new(Node { value: l.value, left: l.left, right: merged(l.right, greater) }))
        } else {
            Some(Box::new(Node { value: g.value, left: merged(lower, g.left), right: g.right }))
        },
    }
}

/// What the three joins promise besides the shape of the result.
proof fn lemma_merged_facts(lower: NodeCell, greater: NodeCell)
    ensures
        lower is None ==> merged(lower, greater) == greater,
        greater is None ==> merged(lower, greater) == lower,
        in_order(merged(lower, greater)) == in_order(lower) + in_order(greater),
        values(merged(lower, greater)) == values(lower).add(values(greater)),
        node_count(merged(lower, greater)) == node_count(lower) + node_count(greater),
        non_decreasing(in_order(merged(lower, greater))) <==> non_decreasing(in_order(lower))
            && non_decreasing(in_order(greater)) && not_above(in_order(lower), in_order(greater)),
        is_search_tree(lower) && is_search_tree(greater) && strictly_below(
            in_order(lower),
            in_order(greater),
        ) ==> is_search_tree(merged(lower, greater)),
{
    lemma_merged_in_order(lower, greater);
    lemma_merged_values(lower, greater);
    lemma_merged_node_count(lower, greater);
    lemma_concat_non_decreasing(in_order(lower), in_order(greater));
    if is_search_tree(lower) && is_search_tree(greater) && strictly_below(
        in_order(lower),
        in_order(greater),
    ) {
        lemma_merged_search_tree(lower, greater);
    }
}

/// Joins two trees, putting each joined subtree back by plain assignment.
///
/// Both trees are consumed and every node of them is moved into the result.
pub fn merge__using_naive_assignment(lower: NodeCell, greater: NodeCell) -> (result: NodeCell)
    ensures
        result == merged(lower, greater),
        lower is None ==> result == greater,
        greater is None ==> result == lower,
        in_order(result) == in_order(lower) + in_order(greater),
        values(result) == values(lower).add(values(greater)),
        node_count(result) == node_count(lower) + node_count(greater),
        non_decreasing(in_order(result)) <==> non_decreasing(in_order(lower)) && non_decreasing(
            in_order(greater),
        ) && not_above(in_order(lower), in_order(greater)),
        is_search_tree(lower) && is_search_tree(greater) && strictly_below(
            in_order(lower),
            in_order(greater),
        ) ==> is_search_tree(result),
    decreases node_count(lower) + node_count(greater),
{
    proof {
        lemma_merged_facts(lower, greater);
    }
    match (lower, greater) {
        (None, greater) => greater,
        (lower, None) => lower,
        (Some(mut lower_node), Some(mut greater_node)) => {
            if lower_node.value < greater_node.value {
                lower_node.right =
                    merge__using_naive_assignment(lower_node.right.take(), Some(greater_node));
                Some(lower_node)
            } else {
                greater_node.left =
                    merge__using_naive_assignment(Some(lower_node), greater_node.left.take());
                Some(greater_node)
            }
        },
    }
}

/// Joins two trees, swapping each subtree out of its slot for an empty
/// placeholder and swapping the joined subtree back in.
///
/// Both trees are consumed and every node of them is moved into the result.
pub fn merge__using_mem_swap_forget(lower: NodeCell, greater: NodeCell) -> (result: NodeCell)
    ensures
        result == merged(lower, greater),
        lower is None ==> result == greater,
        greater is None ==> result == lower,
        in_order(result) == in_order(lower) + in_order(greater),
        values(result) == values(lower).add(values(greater)),
        node_count(result) == node_count(lower) + node_count(greater),
        non_decreasing(in_order(result)) <==> non_decreasing(in_order(lower)) && non_decreasing(
            in_order(greater),
        ) && not_above(in_order(lower), in_order(greater)),
        is_search_tree(lower) && is_search_tree(greater) && strictly_below(
            in_order(lower),
            in_order(greater),
        ) ==> is_search_tree(result),
    decreases node_count(lower) + node_count(greater),
{
    proof {
        lemma_merged_facts(lower, greater);
    }
    match (lower, greater) {
        (None, greater) => greater,
        (lower, None) => lower,
        (Some(mut lower_node), Some(mut greater_node)) => {
            // After the second swap `joined` holds the placeholder.
            if lower_node.value < greater_node.value {
                let mut node: NodeCell = None;
                std::mem::swap(&mut lower_node.right, &mut node);
                let mut joined = merge__using_mem_swap_forget(node, Some(greater_node));
                std::mem::swap(&mut lower_node.right, &mut joined);
                std::mem::forget(joined);
                Some(lower_node)
            } else {
                let mut node: NodeCell = None;
                std::mem::swap(&mut greater_node.left, &mut node);
                let mut joined = merge__using_mem_swap_forget(Some(lower_node), node);
                std::mem::swap(&mut greater_node.left, &mut joined);
                std::mem::forget(joined);
                Some(greater_node)
            }
        },
    }
}

/// Joins two trees, letting the slot of each subtree replace its own value
/// by the join.
///
/// Both trees are consumed and every node of them is moved into the result.
pub fn merge__using_replace_with(lower: NodeCell, greater: NodeCell) -> (result: NodeCell)
    ensures
        result == merged(lower, greater),
        lower is None ==> result == greater,
        greater is None ==> result == lower,
        in_order(result) == in_order(lower) + in_order(greater),
        values(result) == values(lower).add(values(greater)),
        node_count(result) == node_count(lower) + node_count(greater),
        non_decreasing(in_order(result)) <==> non_decreasing(in_order(lower)) && non_decreasing(
            in_order(greater),
        ) && not_above(in_order(lower), in_order(greater)),
        is_search_tree(lower) && is_search_tree(greater) && strictly_below(
            in_order(lower),
            in_order(greater),
        ) ==> is_search_tree(result),
    decreases node_count(lower) + node_count(greater),
{
    proof {
        lemma_merged_facts(lower, greater);
    }
    match (lower, greater) {
        (None, greater) => greater,
        (lower, None) => lower,
        (Some(mut lower_node), Some(mut greater_node)) => {
            if lower_node.value < greater_node.value {
                let ghost right = lower_node.right;
                let join_right = |node: NodeCell| -> (joined: NodeCell)
                    requires
                        node == right,
                    ensures
                        joined == merged(node, Some(greater_node)),
                    {
                        merge__using_replace_with(node, Some(greater_node))
                    };
                lower_node.right.replace_with(join_right);
                Some(lower_node)
            } else {
                let ghost left = greater_node.left;
                let join_left = |node: NodeCell| -> (joined: NodeCell)
                    requires
                        node == left,
                    ensures
                        joined == merged(Some(lower_node), node),
                    {
                        merge__using_replace_with(Some(lower_node), node)
                    };
                greater_node.left.replace_with(join_left);
                Some(greater_node)
            }
        },
    }
}

} // verus!
