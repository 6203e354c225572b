//! The tree node and the mathematical reading of a tree.
use vstd::multiset::Multiset;
use vstd::prelude::*;

verus! {

/// A slot that is either empty or owns a whole subtree.
pub type NodeCell = Option<Box<Node>>;

/// One element of an ordered collection, with the subtrees it owns.
#[derive(Debug, PartialEq, Eq)]
pub struct Node {
    pub value: i32,
    pub left: NodeCell,
    pub right: NodeCell,
}

/// The values of a tree, read left subtree first, then the node, then the
/// right subtree.
pub open spec fn in_order(tree: NodeCell) -> Seq<i32>
    decreases tree,
{
    match tree {
        None => Seq::empty(),
        Some(node) => in_order(node.left).push(node.value) + in_order(node.right),
    }
}

/// The number of nodes that a tree owns.
pub open spec fn node_count(tree: NodeCell) -> nat
    decreases tree,
{
    match tree {
        None => 0,
        Some(node) => 1 + node_count(node.left) + node_count(node.right),
    }
}

/// The values of a tree with their multiplicities.
pub open spec fn values(tree: NodeCell) -> Multiset<i32> {
    in_order(tree).to_multiset()
}

/// The tree of one node that owns no subtree.
pub open spec fn leaf(value: i32) -> NodeCell {
    Some(Box::new(Node { value, left: None, right: None }))
}

/// The tree whose root holds `value` above the subtrees `left` and `right`.
pub open spec fn branch(value: i32, left: NodeCell, right: NodeCell) -> NodeCell {
    Some(Box::new(Node { value, left, right }))
}

/// A tree owns one node for each value of its walk.
pub proof fn lemma_node_count_is_walk_len(tree: NodeCell)
    ensures
        node_count(tree) == in_order(tree).len(),
        node_count(tree) == values(tree).len(),
    decreases tree,
{
    if let Some(node) = tree {
        lemma_node_count_is_walk_len(node.left);
        lemma_node_count_is_walk_len(node.right);
    }
    in_order(tree).to_multiset_ensures();
}

impl View for Node {
    type V = Seq<i32>;

    /// A node is viewed as the in-order walk of the tree below it.
    open spec fn view(&self) -> Seq<i32> {
        in_order(self.left).push(self.value) + in_order(self.right)
    }
}

impl Node {
    /// A node that holds `value` and owns no subtree.
    pub fn new(value: i32) -> (node: Self)
        ensures
            node == (Node { value, left: None, right: None }),
            node@ == seq![value],
    {
        Self { value, left: None, right: None }
    }
}

} // verus!
