use crate::height_bound::fib;
use crate::height_bound::lemma_balanced_count;
use crate::insertion::lemma_inserted_balanced;
use crate::insertion::lemma_inserted_order;
use crate::order::total_order;
use crate::sorted::comes_first;
use crate::sorted::first_at;
use crate::sorted::holds;
use crate::sorted::lemma_placed_all_first;
use crate::sorted::lemma_placed_all_holds;
use crate::sorted::lemma_placed_all_increasing;
use crate::sorted::placed_all;
use crate::sorted::strictly_increasing;
use crate::tree::TreeNode;
use vstd::prelude::*;

verus! {

impl<T: Ord> TreeNode<T> {
    /// The tree that grows from the empty tree when the values are inserted
    /// one after the other.
    pub open spec fn built(values: Seq<T>) -> Self
        decreases values.len(),
    {
        if values.len() == 0 {
            TreeNode::Leaf
        } else {
            Self::built(values.drop_last()).inserted(values.last())
        }
    }
}

/// A tree built by insertions is height-balanced, whatever the values.
pub proof fn lemma_built_balanced<T: Ord>(values: Seq<T>)
    ensures
        TreeNode::built(values).is_height_balanced(),
    decreases values.len(),
{
    if values.len() > 0 {
        lemma_built_balanced(values.drop_last());
        lemma_inserted_balanced(TreeNode::built(values.drop_last()), values.last());
    }
}

/// Read from left to right, a tree built by insertions holds the values
/// placed one after the other.
pub proof fn lemma_built_order<T: Ord>(values: Seq<T>)
    requires
        total_order::<T>(),
    ensures
        TreeNode::built(values)@ == placed_all(values),
        TreeNode::built(values).is_search_tree(),
    decreases values.len(),
{
    if values.len() > 0 {
        lemma_built_order(values.drop_last());
        lemma_inserted_order(TreeNode::built(values.drop_last()), values.last());
    }
}

/// Insertions into the empty tree give a valid tree after each of them: the
/// tree built from the first `k` values is valid, for every `k`.
pub proof fn lemma_built_valid<T: Ord>(values: Seq<T>, k: int)
    requires
        total_order::<T>(),
        0 <= k <= values.len(),
    ensures
        TreeNode::built(values.take(k)).is_valid(),
{
    lemma_built_balanced(values.take(k));
    lemma_built_order(values.take(k));
}

/// A tree of height `h` that was built by insertions holds at least
/// `fib(h + 2) - 1` values.
pub proof fn lemma_built_height<T: Ord>(values: Seq<T>)
    ensures
        fib(TreeNode::built(values).spec_height() + 2) <= TreeNode::built(values)@.len() + 1,
{
    lemma_built_balanced(values);
    lemma_balanced_count(TreeNode::built(values));
}

/// Building a tree from a sequence and reading it from left to right sorts
/// the sequence and drops what repeats: the result increases strictly, holds
/// the place of every value of the sequence, and each of its values is the
/// first of the sequence that holds its place.
pub proof fn lemma_round_trip<T: Ord>(values: Seq<T>)
    requires
        total_order::<T>(),
    ensures
        strictly_increasing(TreeNode::built(values)@),
        forall|i: int|
            0 <= i < values.len() ==> holds(TreeNode::built(values)@, #[trigger] values[i]),
        forall|j: int|
            0 <= j < TreeNode::built(values)@.len() ==> comes_first(
                values,
                #[trigger] TreeNode::built(values)@[j],
            ),
{
    let out = TreeNode::built(values)@;
    lemma_built_order(values);
    lemma_placed_all_increasing(values);
    assert forall|i: int| 0 <= i < values.len() implies holds(out, #[trigger] values[i]) by {
        lemma_placed_all_holds(values, i);
    }
    assert forall|j: int| 0 <= j < out.len() implies comes_first(values, #[trigger] out[j]) by {
        let i = lemma_placed_all_first(values, j);
        assert(first_at(values, i, out[j]));
    }
}

} // verus!
