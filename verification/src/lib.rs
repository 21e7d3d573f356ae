//! Two containers built from nodes that own what hangs below them: a singly
//! linked list and a binary search tree that keeps itself height-balanced
//! with rotations after every insertion.

pub mod construction;
pub mod height_bound;
pub mod insertion;
pub mod list;
pub mod list_traits;
pub mod order;
pub mod rebalancing;
pub mod sorted;
pub mod tree;
pub mod tree_traits;
