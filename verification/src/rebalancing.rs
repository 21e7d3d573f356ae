use crate::tree::TreeNode;
use vstd::prelude::*;

verus! {

/// A rotation keeps the values and their order from left to right.
pub proof fn lemma_rotation_keeps_order<T: Ord>(tree: TreeNode<T>)
    ensures
        tree.rotated_left()@ == tree@,
        tree.rotated_right()@ == tree@,
{
    reveal_with_fuel(TreeNode::in_order, 3);
    match tree {
        TreeNode::Node(value, left, right) => {
            match *right {
                TreeNode::Node(rvalue, rleft, rright) => {
                    assert((left@ + seq![value] + rleft@) + seq![rvalue] + rright@ == left@
                        + seq![value] + (rleft@ + seq![rvalue] + rright@));
                },
                TreeNode::Leaf => {},
            }
            match *left {
                TreeNode::Node(lvalue, lleft, lright) => {
                    assert(lleft@ + seq![lvalue] + (lright@ + seq![value] + right@) == (lleft@
                        + seq![lvalue] + lright@) + seq![value] + right@);
                },
                TreeNode::Leaf => {},
            }
        },
        TreeNode::Leaf => {},
    }
}

/// A rebalancing step keeps the values and their order from left to right.
pub proof fn lemma_rebalanced_order<T: Ord>(tree: TreeNode<T>)
    ensures
        tree.rebalanced()@ == tree@,
{
    match tree {
        TreeNode::Node(value, left, right) => {
            if tree.spec_balance_factor() > 1 {
                lemma_rotation_keeps_order(*left);
                let inner = if left.spec_balance_factor() < 0 {
                    left.rotated_left()
                } else {
                    *left
                };
                let turned = TreeNode::Node(value, Box::new(inner), right);
                assert(turned@ == tree@);
                lemma_rotation_keeps_order(turned);
            } else if tree.spec_balance_factor() < -1 {
                lemma_rotation_keeps_order(*right);
                let inner = if right.spec_balance_factor() > 0 {
                    right.rotated_right()
                } else {
                    *right
                };
                let turned = TreeNode::Node(value, left, Box::new(inner));
                assert(turned@ == tree@);
                lemma_rotation_keeps_order(turned);
            }
        },
        TreeNode::Leaf => {},
    }
}

/// A rebalancing step never makes a tree higher.
pub proof fn lemma_rebalanced_height<T: Ord>(tree: TreeNode<T>)
    ensures
        tree.rebalanced().spec_height() <= tree.spec_height(),
{
    reveal_with_fuel(TreeNode::spec_height, 4);
}

/// Where both subtrees are height-balanced and differ in height by at most two,
/// a rebalancing step gives a height-balanced tree that is as high as the tree
/// was or lower by one.
pub proof fn lemma_rebalanced_balanced<T: Ord>(tree: TreeNode<T>)
    requires
        tree matches TreeNode::Node(_, left, right) && left.is_height_balanced()
            && right.is_height_balanced(),
        -2 <= tree.spec_balance_factor() <= 2,
    ensures
        tree.rebalanced().is_height_balanced(),
        tree.spec_height() - 1 <= tree.rebalanced().spec_height() <= tree.spec_height(),
{
    reveal_with_fuel(TreeNode::spec_height, 4);
    reveal_with_fuel(TreeNode::is_height_balanced, 4);
}

/// A rotation to one side followed by a rotation to the other keeps the
/// values and their order, and gives the tree back as it was where the first
/// rotation had a child to promote.
pub proof fn lemma_rotations_undo<T: Ord>(tree: TreeNode<T>)
    ensures
        tree.rotated_left().rotated_right()@ == tree@,
        tree.rotated_right().rotated_left()@ == tree@,
        tree matches TreeNode::Node(_, _, right) && *right is Node
            ==> tree.rotated_left().rotated_right() == tree,
        tree matches TreeNode::Node(_, left, _) && *left is Node
            ==> tree.rotated_right().rotated_left() == tree,
{
    lemma_rotation_keeps_order(tree);
    lemma_rotation_keeps_order(tree.rotated_left());
    lemma_rotation_keeps_order(tree.rotated_right());
}

} // verus!
