//! Joining two binary search trees into one, in place.
//!
//! A tree is an optional, exclusively owned [`node::Node`]. The join threads
//! the tree with the smaller root into the other one: no node is allocated,
//! copied or freed, and the in-order walk of the result is the walk of the
//! first tree followed by the walk of the second.
#![allow(non_snake_case)]

pub mod fixture;
pub mod laws;
pub mod merge;
pub mod node;
pub mod option_ext;
pub mod order;
