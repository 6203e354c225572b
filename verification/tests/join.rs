use bst_merge::fixture::setup_nodes;
use bst_merge::merge::{
    merge__using_mem_swap_forget, merge__using_naive_assignment, merge__using_replace_with,
};
use bst_merge::node::{Node, NodeCell};

fn leaf(value: i32) -> NodeCell {
    Some(Box::new(Node::new(value)))
}

fn branch(value: i32, left: NodeCell, right: NodeCell) -> NodeCell {
    let mut node = Node::new(value);
    node.left = left;
    node.right = right;
    Some(Box::new(node))
}

fn walk_into(tree: &NodeCell, out: &mut Vec<i32>) {
    if let Some(node) = tree {
        walk_into(&node.left, out);
        out.push(node.value);
        walk_into(&node.right, out);
    }
}

fn walk(tree: &NodeCell) -> Vec<i32> {
    let mut out = Vec::new();
    walk_into(tree, &mut out);
    out
}

fn count(tree: &NodeCell) -> usize {
    match tree {
        None => 0,
        Some(node) => 1 + count(&node.left) + count(&node.right),
    }
}

fn sorted(values: &[i32]) -> bool {
    values.windows(2).all(|pair| pair[0] <= pair[1])
}

fn right_chain(from: i32, to: i32) -> NodeCell {
    let mut tree: NodeCell = None;
    let mut value = to;
    while value >= from {
        tree = branch(value, None, tree);
        value -= 1;
    }
    tree
}

fn left_chain(from: i32, to: i32) -> NodeCell {
    let mut tree: NodeCell = None;
    let mut value = from;
    while value <= to {
        tree = branch(value, tree, None);
        value += 1;
    }
    tree
}

fn joined_sample() -> NodeCell {
    branch(10, leaf(5), branch(15, None, branch(20, leaf(16), None)))
}

#[test]
fn new_node_owns_no_subtree() {
    let node = Node::new(42);
    assert_eq!(node.value, 42);
    assert!(node.left.is_none());
    assert!(node.right.is_none());
}

#[test]
fn new_node_keeps_extreme_values() {
    assert_eq!(Node::new(i32::MIN).value, i32::MIN);
    assert_eq!(Node::new(i32::MAX).value, i32::MAX);
}

#[test]
fn setup_nodes_builds_the_two_sample_trees() {
    let (lower, greater) = setup_nodes();
    assert_eq!(lower, branch(10, leaf(5), leaf(15)));
    assert_eq!(greater, branch(20, leaf(16), None));
    assert_eq!(walk(&lower), vec![5, 10, 15]);
    assert_eq!(walk(&greater), vec![16, 20]);
}

#[test]
fn setup_nodes_builds_fresh_trees_each_time() {
    let (lower_a, greater_a) = setup_nodes();
    let (lower_b, greater_b) = setup_nodes();
    assert_eq!(lower_a, lower_b);
    assert_eq!(greater_a, greater_b);
}

#[test]
fn naive_assignment_joins_the_sample_trees() {
    let (lower, greater) = setup_nodes();
    let result = merge__using_naive_assignment(lower, greater);
    assert_eq!(result, joined_sample());
    assert_eq!(walk(&result), vec![5, 10, 15, 16, 20]);
}

#[test]
fn mem_swap_forget_joins_the_sample_trees() {
    let (lower, greater) = setup_nodes();
    let result = merge__using_mem_swap_forget(lower, greater);
    assert_eq!(result, joined_sample());
    assert_eq!(walk(&result), vec![5, 10, 15, 16, 20]);
}

#[test]
fn replace_with_joins_the_sample_trees() {
    let (lower, greater) = setup_nodes();
    let result = merge__using_replace_with(lower, greater);
    assert_eq!(result, joined_sample());
    assert_eq!(walk(&result), vec![5, 10, 15, 16, 20]);
}

#[test]
fn sample_join_has_the_described_shape() {
    let (lower, greater) = setup_nodes();
    let root = merge__using_naive_assignment(lower, greater).unwrap();
    assert_eq!(root.value, 10);
    assert_eq!(root.left, leaf(5));
    let below = root.right.unwrap();
    assert_eq!(below.value, 15);
    assert!(below.left.is_none());
    let last = below.right.unwrap();
    assert_eq!(last.value, 20);
    assert_eq!(last.left, leaf(16));
    assert!(last.right.is_none());
}

#[test]
fn both_absent_gives_absent() {
    assert_eq!(merge__using_naive_assignment(None, None), None);
    assert_eq!(merge__using_mem_swap_forget(None, None), None);
    assert_eq!(merge__using_replace_with(None, None), None);
}

#[test]
fn absent_lower_gives_greater_back() {
    assert_eq!(merge__using_naive_assignment(None, setup_nodes().1), setup_nodes().1);
    assert_eq!(merge__using_mem_swap_forget(None, setup_nodes().1), setup_nodes().1);
    assert_eq!(merge__using_replace_with(None, setup_nodes().1), setup_nodes().1);
}

#[test]
fn absent_greater_gives_lower_back() {
    assert_eq!(merge__using_naive_assignment(setup_nodes().0, None), setup_nodes().0);
    assert_eq!(merge__using_mem_swap_forget(setup_nodes().0, None), setup_nodes().0);
    assert_eq!(merge__using_replace_with(setup_nodes().0, None), setup_nodes().0);
}

#[test]
fn absent_side_keeps_an_unordered_tree_as_it_is() {
    let tree = branch(1, leaf(9), leaf(-4));
    assert_eq!(
        merge__using_naive_assignment(None, branch(1, leaf(9), leaf(-4))),
        tree
    );
    assert_eq!(
        merge__using_naive_assignment(branch(1, leaf(9), leaf(-4)), None),
        tree
    );
}

#[test]
fn equal_roots_put_greater_on_top_and_keep_both() {
    let result = merge__using_naive_assignment(leaf(7), leaf(7));
    assert_eq!(result, branch(7, leaf(7), None));
    assert_eq!(walk(&result), vec![7, 7]);
    assert_eq!(merge__using_mem_swap_forget(leaf(7), leaf(7)), branch(7, leaf(7), None));
    assert_eq!(merge__using_replace_with(leaf(7), leaf(7)), branch(7, leaf(7), None));
}

#[test]
fn equal_roots_keep_the_right_subtree_of_greater() {
    let lower = branch(7, leaf(3), None);
    let greater = branch(7, None, leaf(9));
    let result = merge__using_replace_with(lower, greater);
    assert_eq!(result, branch(7, branch(7, leaf(3), None), leaf(9)));
    assert_eq!(walk(&result), vec![3, 7, 7, 9]);
}

#[test]
fn smaller_lower_root_stays_on_top() {
    let result = merge__using_naive_assignment(leaf(1), leaf(2));
    assert_eq!(result, branch(1, None, leaf(2)));
}

#[test]
fn smaller_greater_root_stays_on_top() {
    let result = merge__using_naive_assignment(leaf(2), leaf(1));
    assert_eq!(result, branch(1, leaf(2), None));
    assert_eq!(walk(&result), vec![2, 1]);
}

#[test]
fn join_descends_the_left_spine_of_greater() {
    let lower = leaf(4);
    let greater = branch(4, branch(4, None, leaf(6)), leaf(8));
    let result = merge__using_mem_swap_forget(lower, greater);
    assert_eq!(
        result,
        branch(4, branch(4, leaf(4), leaf(6)), leaf(8))
    );
    assert_eq!(walk(&result), vec![4, 4, 6, 4, 8]);
}

#[test]
fn node_count_is_the_sum_of_both() {
    let result = merge__using_naive_assignment(right_chain(1, 40), left_chain(41, 75));
    assert_eq!(count(&result), 75);
    let result = merge__using_mem_swap_forget(left_chain(-9, 0), right_chain(1, 3));
    assert_eq!(count(&result), 13);
    let result = merge__using_replace_with(leaf(1), None);
    assert_eq!(count(&result), 1);
}

#[test]
fn walk_is_lower_followed_by_greater() {
    let lower = branch(10, leaf(2), leaf(30));
    let greater = branch(20, leaf(1), leaf(25));
    let mut expected = walk(&lower);
    expected.extend(walk(&greater));
    let result = merge__using_naive_assignment(lower, greater);
    assert_eq!(walk(&result), expected);
    assert_eq!(expected, vec![2, 10, 30, 1, 20, 25]);
}

#[test]
fn separated_sorted_trees_give_a_sorted_walk() {
    let result = merge__using_naive_assignment(left_chain(1, 20), left_chain(20, 45));
    let values = walk(&result);
    assert!(sorted(&values));
    let mut expected: Vec<i32> = (1..=20).collect();
    expected.extend(20..=45);
    assert_eq!(values, expected);
    assert_eq!(values.iter().filter(|v| **v == 20).count(), 2);
}

#[test]
fn overlapping_trees_give_an_unsorted_walk() {
    let lower = branch(10, None, leaf(15));
    let greater = leaf(12);
    let result = merge__using_naive_assignment(lower, greater);
    assert_eq!(result, branch(10, None, branch(12, leaf(15), None)));
    assert_eq!(walk(&result), vec![10, 15, 12]);
    assert!(!sorted(&walk(&result)));
}

#[test]
fn duplicates_are_not_collapsed() {
    let lower = branch(5, None, leaf(5));
    let greater = branch(5, None, leaf(5));
    let result = merge__using_replace_with(lower, greater);
    assert_eq!(walk(&result), vec![5, 5, 5, 5]);
    assert_eq!(count(&result), 4);
}

#[test]
fn repeated_joins_give_the_same_tree() {
    let first = merge__using_naive_assignment(right_chain(1, 10), right_chain(11, 20));
    let second = merge__using_naive_assignment(right_chain(1, 10), right_chain(11, 20));
    assert_eq!(first, second);
}

#[test]
fn the_three_joins_agree() {
    let naive = merge__using_naive_assignment(left_chain(1, 12), right_chain(6, 30));
    let swapped = merge__using_mem_swap_forget(left_chain(1, 12), right_chain(6, 30));
    let replaced = merge__using_replace_with(left_chain(1, 12), right_chain(6, 30));
    assert_eq!(naive, swapped);
    assert_eq!(naive, replaced);
    assert_eq!(count(&naive), 37);
}

#[test]
fn the_three_joins_agree_on_interleaved_chains() {
    let mut lower: NodeCell = None;
    let mut greater: NodeCell = None;
    let mut value = 19;
    while value >= 1 {
        lower = branch(value, None, lower);
        greater = branch(value + 1, greater, None);
        value -= 2;
    }
    let rebuild = |tree: &NodeCell| -> NodeCell {
        let mut copy: NodeCell = None;
        let mut values = walk(tree);
        values.reverse();
        for v in values {
            copy = branch(v, None, copy);
        }
        copy
    };
    let naive = merge__using_naive_assignment(rebuild(&lower), rebuild(&greater));
    let swapped = merge__using_mem_swap_forget(rebuild(&lower), rebuild(&greater));
    let replaced = merge__using_replace_with(rebuild(&lower), rebuild(&greater));
    assert_eq!(naive, swapped);
    assert_eq!(naive, replaced);
    assert_eq!(count(&naive), 20);
}

#[test]
fn extreme_values_are_ordered_as_integers() {
    let result = merge__using_naive_assignment(leaf(i32::MIN), leaf(i32::MAX));
    assert_eq!(result, branch(i32::MIN, None, leaf(i32::MAX)));
    let result = merge__using_naive_assignment(leaf(i32::MAX), leaf(i32::MIN));
    assert_eq!(result, branch(i32::MIN, leaf(i32::MAX), None));
}

#[test]
fn long_chains_are_joined_whole() {
    let result = merge__using_replace_with(right_chain(1, 500), left_chain(501, 1000));
    let values = walk(&result);
    assert_eq!(values.len(), 1000);
    assert!(sorted(&values));
    assert_eq!(values[0], 1);
    assert_eq!(values[999], 1000);
}
