use crate::order::lemma_lt_transitive;
use crate::order::lemma_trichotomy;
use crate::order::eqv;
use crate::order::lt;
use crate::order::total_order;
use crate::rebalancing::lemma_rebalanced_balanced;
use crate::rebalancing::lemma_rebalanced_height;
use crate::rebalancing::lemma_rebalanced_order;
use crate::sorted::holds;
use crate::sorted::lemma_increasing_join;
use crate::sorted::lemma_placed_found;
use crate::sorted::lemma_placed_increasing;
use crate::sorted::lemma_placed_left;
use crate::sorted::lemma_placed_right;
use crate::sorted::placed;
use crate::tree::TreeNode;
use vstd::prelude::*;

verus! {

/// In a search tree the search for a value ends at a node exactly when some
/// node of the tree holds the value's place.
pub proof fn lemma_finds_held<T: Ord>(tree: TreeNode<T>, value: T)
    requires
        total_order::<T>(),
        tree.is_search_tree(),
    ensures
        tree.finds(value) == holds(tree@, value),
    decreases tree,
{
    match tree {
        TreeNode::Leaf => {},
        TreeNode::Node(current, left, right) => {
            let n = left@.len() as int;
            lemma_increasing_join(left@, current, right@);
            lemma_trichotomy(current, value);
            assert(tree@[n] == current);
            if lt(current, value) {
                lemma_finds_held(*right, value);
                if holds(right@, value) {
                    let k = choose|k: int| 0 <= k < right@.len() && #[trigger] eqv(right@[k], value);
                    assert(eqv(tree@[n + 1 + k], value));
                }
                if holds(tree@, value) {
                    let k = choose|k: int| 0 <= k < tree@.len() && #[trigger] eqv(tree@[k], value);
                    if k < n {
                        assert(lt(left@[k], current));
                        lemma_lt_transitive(left@[k], current, value);
                        lemma_trichotomy(left@[k], value);
                    } else {
                        assert(eqv(right@[k - n - 1], value));
                    }
                }
            } else if lt(value, current) {
                lemma_finds_held(*left, value);
                if holds(left@, value) {
                    let k = choose|k: int| 0 <= k < left@.len() && #[trigger] eqv(left@[k], value);
                    assert(eqv(tree@[k], value));
                }
                if holds(tree@, value) {
                    let k = choose|k: int| 0 <= k < tree@.len() && #[trigger] eqv(tree@[k], value);
                    if k > n {
                        assert(lt(current, right@[k - n - 1]));
                        lemma_lt_transitive(value, current, right@[k - n - 1]);
                        lemma_trichotomy(right@[k - n - 1], value);
                    } else {
                        assert(eqv(left@[k], value));
                    }
                }
            } else {
                assert(eqv(tree@[n], value));
            }
        },
    }
}

/// Read from left to right, a search tree after an insertion holds the values
/// it held with the new value placed among them.
pub proof fn lemma_inserted_order<T: Ord>(tree: TreeNode<T>, value: T)
    requires
        total_order::<T>(),
        tree.is_search_tree(),
    ensures
        tree.inserted(value)@ == placed(tree@, value),
        tree.inserted(value).is_search_tree(),
    decreases tree,
{
    lemma_placed_increasing(tree@, value);
    match tree {
        TreeNode::Leaf => {
            assert(tree.inserted(value)@ == seq![value]);
        },
        TreeNode::Node(current, left, right) => {
            lemma_increasing_join(left@, current, right@);
            lemma_trichotomy(current, value);
            if lt(current, value) {
                lemma_inserted_order(*right, value);
                lemma_placed_right(left@, current, right@, value);
                if !right.finds(value) {
                    let joined = TreeNode::Node(current, left, Box::new(right.grown(value)));
                    lemma_rebalanced_order(joined);
                    assert(joined@ == left@ + seq![current] + right.grown(value)@);
                }
            } else if lt(value, current) {
                lemma_inserted_order(*left, value);
                lemma_placed_left(left@, current, right@, value);
                if !left.finds(value) {
                    let joined = TreeNode::Node(current, Box::new(left.grown(value)), right);
                    lemma_rebalanced_order(joined);
                    assert(joined@ == left.grown(value)@ + seq![current] + right@);
                }
            } else {
                lemma_placed_found(left@, current, right@, value);
            }
        },
    }
}

/// An insertion into a height-balanced tree gives a height-balanced tree that
/// is as high as the tree was or higher by one.
pub proof fn lemma_inserted_balanced<T: Ord>(tree: TreeNode<T>, value: T)
    requires
        tree.is_height_balanced(),
    ensures
        tree.inserted(value).is_height_balanced(),
        tree.spec_height() <= tree.inserted(value).spec_height() <= tree.spec_height() + 1,
    decreases tree,
{
    match tree {
        TreeNode::Leaf => {
            reveal_with_fuel(TreeNode::spec_height, 2);
            reveal_with_fuel(TreeNode::is_height_balanced, 2);
        },
        TreeNode::Node(current, left, right) => {
            if lt(current, value) {
                lemma_inserted_balanced(*right, value);
                if !right.finds(value) {
                    let joined = TreeNode::Node(current, left, Box::new(right.grown(value)));
                    lemma_rebalanced_balanced(joined);
                    lemma_rebalanced_height(joined);
                }
            } else if lt(value, current) {
                lemma_inserted_balanced(*left, value);
                if !left.finds(value) {
                    let joined = TreeNode::Node(current, Box::new(left.grown(value)), right);
                    lemma_rebalanced_balanced(joined);
                    lemma_rebalanced_height(joined);
                }
            } else {
            }
        },
    }
}

/// An insertion into a valid tree gives a valid tree.
pub proof fn lemma_inserted_valid<T: Ord>(tree: TreeNode<T>, value: T)
    requires
        total_order::<T>(),
        tree.is_valid(),
    ensures
        tree.inserted(value).is_valid(),
{
    lemma_inserted_order(tree, value);
    lemma_inserted_balanced(tree, value);
}

} // verus!
