use crate::tree::TreeNode;
use vstd::arithmetic::power2::lemma2_to64;
use vstd::arithmetic::power2::lemma_pow2_strictly_increases;
use vstd::arithmetic::power2::lemma_pow2_unfold;
use vstd::arithmetic::power2::pow2;
use vstd::prelude::*;

verus! {

/// The Fibonacci numbers 0, 1, 1, 2, 3, 5, 8, ...
pub open spec fn fib(n: nat) -> nat
    decreases n,
{
    if n == 0 {
        0
    } else if n == 1 {
        1
    } else {
        fib((n - 1) as nat) + fib((n - 2) as nat)
    }
}

/// The Fibonacci numbers never decrease.
pub proof fn lemma_fib_monotonic(i: nat, j: nat)
    requires
        i <= j,
    ensures
        fib(i) <= fib(j),
    decreases j,
{
    if i < j {
        lemma_fib_monotonic(i, (j - 1) as nat);
    }
}

/// Two steps further on, a Fibonacci number has at least doubled.
pub proof fn lemma_fib_doubles(k: nat)
    ensures
        pow2(k) <= fib(2 * k + 2),
    decreases k,
{
    if k == 0 {
        lemma2_to64();
        reveal_with_fuel(fib, 3);
    } else {
        lemma_fib_doubles((k - 1) as nat);
        lemma_pow2_unfold(k);
        lemma_fib_monotonic((2 * k) as nat, (2 * k + 1) as nat);
    }
}

/// A height-balanced tree of height `h` holds at least `fib(h + 2) - 1` values.
pub proof fn lemma_balanced_count<T: Ord>(tree: TreeNode<T>)
    requires
        tree.is_height_balanced(),
    ensures
        fib(tree.spec_height() + 2) <= tree@.len() + 1,
    decreases tree,
{
    match tree {
        TreeNode::Leaf => {
            reveal_with_fuel(fib, 3);
        },
        TreeNode::Node(_, left, right) => {
            lemma_balanced_count(*left);
            lemma_balanced_count(*right);
            let l = left.spec_height();
            let r = right.spec_height();
            if l >= r {
                lemma_fib_monotonic((l + 1) as nat, r + 2);
            } else {
                lemma_fib_monotonic((r + 1) as nat, l + 2);
            }
        },
    }
}

/// No height-balanced tree whose values can be counted in 64 bits is as high
/// as this.
pub const HEIGHT_LIMIT: usize = 130;

/// A height-balanced tree whose values can be counted in 64 bits is lower
/// than `HEIGHT_LIMIT`.
pub proof fn lemma_balanced_height_fits<T: Ord>(tree: TreeNode<T>)
    requires
        tree.is_height_balanced(),
        tree@.len() <= u64::MAX,
    ensures
        tree.spec_height() < HEIGHT_LIMIT,
{
    lemma_balanced_count(tree);
    if tree.spec_height() >= 130 {
        lemma_fib_doubles(65);
        lemma_fib_monotonic(132, tree.spec_height() + 2);
        lemma2_to64();
        lemma_pow2_strictly_increases(64, 65);
    }
}

} // verus!
