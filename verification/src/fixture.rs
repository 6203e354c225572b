//! A pair of small trees to join.
use vstd::prelude::*;
use crate::merge::merged;
use crate::node::{branch, in_order, leaf, Node, NodeCell};
use crate::order::{is_search_tree, strictly_below};

verus! {

/// The first tree that [`setup_nodes`] builds: 10 above 5 and 15.
pub open spec fn sample_lower() -> NodeCell {
    branch(10, leaf(5), leaf(15))
}

/// The second tree that [`setup_nodes`] builds: 20 above 16 on its left.
pub open spec fn sample_greater() -> NodeCell {
    branch(20, leaf(16), None)
}

/// Builds two fresh search trees, every value of the first smaller than
/// every value of the second.
pub fn setup_nodes() -> (trees: (NodeCell, NodeCell))
    ensures
        trees.0 == sample_lower(),
        trees.1 == sample_greater(),
        in_order(trees.0) == seq![5i32, 10, 15],
        in_order(trees.1) == seq![16i32, 20],
        is_search_tree(trees.0),
        is_search_tree(trees.1),
        strictly_below(in_order(trees.0), in_order(trees.1)),
{
    let mut lower = Node::new(10);
    lower.left = Some(Box::new(Node::new(5)));
    lower.right = Some(Box::new(Node::new(15)));
    let mut greater = Node::new(20);
    greater.left = Some(Box::new(Node::new(16)));
    proof {
        lemma_sample_walks();
    }
    (Some(Box::new(lower)), Some(Box::new(greater)))
}

/// The walks of the two sample trees, and that both are search trees with
/// the first wholly below the second.
pub proof fn lemma_sample_walks()
    ensures
        in_order(sample_lower()) == seq![5i32, 10, 15],
        in_order(sample_greater()) == seq![16i32, 20],
        is_search_tree(sample_lower()),
        is_search_tree(sample_greater()),
        strictly_below(in_order(sample_lower()), in_order(sample_greater())),
{
    reveal_with_fuel(in_order, 3);
    reveal_with_fuel(is_search_tree, 3);
    assert(in_order(leaf(5)) =~= seq![5i32]);
    assert(in_order(leaf(15)) =~= seq![15i32]);
    assert(in_order(leaf(16)) =~= seq![16i32]);
    assert(in_order(sample_lower()) =~= seq![5i32, 10, 15]);
    assert(in_order(sample_greater()) =~= seq![16i32, 20]);
}

/// The join of the two sample trees keeps 10 on top with 5 on its left; on
/// its right stands 15, whose right subtree is the whole second tree.
pub proof fn lemma_sample_join()
    ensures
        merged(sample_lower(), sample_greater()) == branch(
            10,
            leaf(5),
            branch(15, None, sample_greater()),
        ),
        in_order(merged(sample_lower(), sample_greater())) == seq![5i32, 10, 15, 16, 20],
{
    reveal_with_fuel(merged, 3);
    reveal_with_fuel(in_order, 5);
    assert(in_order(leaf(5)) =~= seq![5i32]);
    assert(in_order(leaf(16)) =~= seq![16i32]);
    assert(in_order(sample_greater()) =~= seq![16i32, 20]);
    assert(in_order(branch(15, None, sample_greater())) =~= seq![15i32, 16, 20]);
    assert(in_order(branch(10, leaf(5), branch(15, None, sample_greater()))) =~= seq![
        5i32,
        10,
        15,
        16,
        20,
    ]);
}

} // verus!
