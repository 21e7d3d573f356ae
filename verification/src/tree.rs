use crate::insertion::lemma_finds_held;
use crate::insertion::lemma_inserted_order;
use crate::order::lemma_operators_agree;
use crate::order::lemma_trichotomy;
use crate::order::lt;
use crate::order::total_order;
use crate::rebalancing::lemma_rebalanced_balanced;
use crate::rebalancing::lemma_rebalanced_height;
use crate::rebalancing::lemma_rebalanced_order;
use crate::rebalancing::lemma_rotation_keeps_order;
use crate::sorted::holds;
use crate::sorted::lemma_within_join;
use crate::sorted::placed;
use crate::sorted::strictly_increasing;
use crate::sorted::within;
use vstd::prelude::*;

verus! {

/// A node of a binary tree that owns its two subtrees.
///
/// A tree is *valid* when it is a search tree (its values, read from left to
/// right, increase strictly) and height-balanced (at every node the heights of
/// the two subtrees differ by at most one).
#[derive(Debug)]
pub enum TreeNode<T: Ord> {
    Leaf,
    Node(T, Box<TreeNode<T>>, Box<TreeNode<T>>),
}

impl<T: Ord> TreeNode<T> {
    /// The values of the tree from left to right.
    pub open spec fn in_order(self) -> Seq<T>
        decreases self,
    {
        match self {
            TreeNode::Leaf => Seq::empty(),
            TreeNode::Node(value, left, right) => left.in_order() + seq![value] + right.in_order(),
        }
    }

    /// The number of nodes on the longest path from the root downwards.
    pub open spec fn spec_height(self) -> nat
        decreases self,
    {
        match self {
            TreeNode::Leaf => 0,
            TreeNode::Node(_, left, right) => {
                let l = left.spec_height();
                let r = right.spec_height();
                if l >= r {
                    l + 1
                } else {
                    r + 1
                }
            },
        }
    }

    /// Height of the left subtree minus height of the right subtree.
    pub open spec fn spec_balance_factor(self) -> int {
        match self {
            TreeNode::Leaf => 0,
            TreeNode::Node(_, left, right) => left.spec_height() - right.spec_height(),
        }
    }

    /// At this node and at every node below it the two subtrees differ in height
    /// by at most one.
    pub open spec fn is_height_balanced(self) -> bool
        decreases self,
    {
        match self {
            TreeNode::Leaf => true,
            TreeNode::Node(_, left, right) => {
                &&& -1 <= left.spec_height() - right.spec_height() <= 1
                &&& left.is_height_balanced()
                &&& right.is_height_balanced()
            },
        }
    }

    /// Read from left to right the values increase strictly.
    pub open spec fn is_search_tree(self) -> bool {
        strictly_increasing(self@)
    }

    /// Both invariants hold at every node.
    pub open spec fn is_valid(self) -> bool {
        self.is_search_tree() && self.is_height_balanced()
    }

    /// The tree after its right child has been promoted to the root. A tree
    /// without a right child stays as it is.
    pub open spec fn rotated_left(self) -> Self {
        match self {
            TreeNode::Node(value, left, right) => match *right {
                TreeNode::Node(rvalue, rleft, rright) => TreeNode::Node(
                    rvalue,
                    Box::new(TreeNode::Node(value, left, rleft)),
                    rright,
                ),
                TreeNode::Leaf => self,
            },
            TreeNode::Leaf => self,
        }
    }

    /// The tree after its left child has been promoted to the root. A tree
    /// without a left child stays as it is.
    pub open spec fn rotated_right(self) -> Self {
        match self {
            TreeNode::Node(value, left, right) => match *left {
                TreeNode::Node(lvalue, lleft, lright) => TreeNode::Node(
                    lvalue,
                    lleft,
                    Box::new(TreeNode::Node(value, lright, right)),
                ),
                TreeNode::Leaf => self,
            },
            TreeNode::Leaf => self,
        }
    }

    /// The tree after one rebalancing step at its root: a single or a double
    /// rotation towards the lighter side where the subtrees differ in height
    /// by more than one, and no change otherwise.
    pub open spec fn rebalanced(self) -> Self {
        match self {
            TreeNode::Node(value, left, right) => {
                if self.spec_balance_factor() > 1 {
                    let inner = if left.spec_balance_factor() < 0 {
                        left.rotated_left()
                    } else {
                        *left
                    };
                    TreeNode::Node(value, Box::new(inner), right).rotated_right()
                } else if self.spec_balance_factor() < -1 {
                    let inner = if right.spec_balance_factor() > 0 {
                        right.rotated_right()
                    } else {
                        *right
                    };
                    TreeNode::Node(value, left, Box::new(inner)).rotated_left()
                } else {
                    self
                }
            },
            TreeNode::Leaf => self,
        }
    }

    /// The tree itself where it is height-balanced, else the tree after one
    /// rebalancing step at its root.
    pub open spec fn restored(self) -> Self {
        if self.is_height_balanced() {
            self
        } else {
            self.rebalanced()
        }
    }

    /// The search for `value` from the root ends at a node that holds its place.
    pub open spec fn finds(self, value: T) -> bool
        decreases self,
    {
        match self {
            TreeNode::Leaf => false,
            TreeNode::Node(current, left, right) => {
                if lt(current, value) {
                    right.finds(value)
                } else if lt(value, current) {
                    left.finds(value)
                } else {
                    true
                }
            },
        }
    }

    /// The tree after `value` has become a new node where the search for it
    /// ends, and every node on the way back up has been restored.
    pub open spec fn grown(self, value: T) -> Self
        decreases self,
    {
        match self {
            TreeNode::Leaf => TreeNode::Node(
                value,
                Box::new(TreeNode::Leaf),
                Box::new(TreeNode::Leaf),
            ),
            TreeNode::Node(current, left, right) => {
                if lt(current, value) {
                    TreeNode::Node(current, left, Box::new(right.grown(value))).restored()
                } else if lt(value, current) {
                    TreeNode::Node(current, Box::new(left.grown(value)), right).restored()
                } else {
                    self
                }
            },
        }
    }

    /// The tree after the insertion of `value`: unchanged where the search
    /// finds it, grown by one node otherwise.
    pub open spec fn inserted(self, value: T) -> Self {
        if self.finds(value) {
            self
        } else {
            self.grown(value)
        }
    }

    /// Creates a tree with `value` at the root above `left` and `right`.
    pub fn node(value: T, left: TreeNode<T>, right: TreeNode<T>) -> (tree: TreeNode<T>)
        ensures
            tree == TreeNode::Node(value, Box::new(left), Box::new(right)),
    {
        TreeNode::Node(value, Box::new(left), Box::new(right))
    }

    /// Creates an empty tree.
    pub fn new() -> (tree: TreeNode<T>)
        ensures
            tree == TreeNode::<T>::Leaf,
    {
        TreeNode::Leaf
    }

    /// Counts the nodes on the longest path from the root downwards; an empty
    /// tree has height 0.
    pub fn height(&self) -> (h: usize)
        requires
            self.spec_height() <= usize::MAX,
        ensures
            h == self.spec_height(),
        decreases self,
    {
        match self {
            TreeNode::Leaf => 0,
            TreeNode::Node(_, left, right) => {
                let l: usize = left.height();
                let r: usize = right.height();
                if l >= r {
                    1 + l
                } else {
                    1 + r
                }
            },
        }
    }

    /// Tells whether the values of `tree` increase strictly from left to right
    /// and lie strictly between `min` and `max`, where these are given.
    fn is_bst_helper(tree: &TreeNode<T>, min: Option<&T>, max: Option<&T>) -> (ok: bool)
        ensures
            total_order::<T>() ==> ok == (strictly_increasing(tree@) && within(tree@, min, max)),
            *tree is Leaf ==> ok,
        decreases tree,
    {
        match tree {
            TreeNode::Leaf => true,
            TreeNode::Node(value, left, right) => {
                proof {
                    if total_order::<T>() {
                        lemma_operators_agree::<T>();
                        assert(tree@[left@.len() as int] == *value);
                        if let Some(m) = min {
                            lemma_trichotomy(*value, *m);
                        }
                        if let Some(m) = max {
                            lemma_trichotomy(*value, *m);
                        }
                    }
                }
                match min {
                    Some(m) => {
                        if *value <= *m {
                            return false;
                        }
                    },
                    None => {},
                }
                match max {
                    Some(m) => {
                        if *value >= *m {
                            return false;
                        }
                    },
                    None => {},
                }
                proof {
                    if total_order::<T>() {
                        lemma_within_join(left@, *value, right@, min, max);
                    }
                }
                Self::is_bst_helper(left, min, Some(value)) && Self::is_bst_helper(
                    right,
                    Some(value),
                    max,
                )
            },
        }
    }

    /// Tells whether the tree is a search tree.
    fn is_bst(&self) -> (ok: bool)
        ensures
            total_order::<T>() ==> ok == self.is_search_tree(),
            *self is Leaf ==> ok,
    {
        Self::is_bst_helper(self, None, None)
    }

    /// Tells whether the tree is height-balanced at every node.
    pub fn is_balanced(&self) -> (ok: bool)
        requires
            self.spec_height() <= usize::MAX,
        ensures
            ok == self.is_height_balanced(),
        decreases self,
    {
        match self {
            TreeNode::Leaf => true,
            TreeNode::Node(_, left, right) => {
                let l: usize = left.height();
                let r: usize = right.height();
                let diff: usize = if l >= r {
                    l - r
                } else {
                    r - l
                };
                diff <= 1 && left.is_balanced() && right.is_balanced()
            },
        }
    }

    /// Tells whether the tree is a height-balanced search tree.
    pub fn validate(&self) -> (ok: bool)
        requires
            self.spec_height() <= usize::MAX,
        ensures
            total_order::<T>() ==> ok == self.is_valid(),
            ok ==> self.is_height_balanced(),
            *self is Leaf ==> ok,
    {
        self.is_bst() && self.is_balanced()
    }

    /// Puts `value` into the tree, unless the search for it finds a node that
    /// holds its place: then the tree stays as it is. Every node between the
    /// new node and the root that is no longer height-balanced is rebalanced.
    ///
    /// The heights on the way are counted in an `i32`, so the tree has to be
    /// lower than `i32::MAX`.
    pub fn insert(&mut self, value: T)
        requires
            old(self).spec_height() < i32::MAX,
        ensures
            total_order::<T>() ==> *final(self) == old(self).inserted(value),
            total_order::<T>() && old(self).is_search_tree() ==> final(self).is_search_tree()
                && final(self)@ == placed(old(self)@, value),
            total_order::<T>() && old(self).is_search_tree() && holds(old(self)@, value)
                ==> *final(self) == *old(self),
            old(self).is_height_balanced() ==> final(self).is_height_balanced()
                && old(self).spec_height() <= final(self).spec_height(),
            final(self).spec_height() <= old(self).spec_height() + 1,
            old(self)@.len() <= final(self)@.len() <= old(self)@.len() + 1,
            *old(self) is Leaf ==> *final(self) == TreeNode::Node(
                value,
                Box::new(TreeNode::Leaf),
                Box::new(TreeNode::Leaf),
            ),
    {
        proof {
            if total_order::<T>() && self.is_search_tree() {
                lemma_inserted_order(*self, value);
                lemma_finds_held(*self, value);
            }
        }
        let _ = self.insert_node(value);
    }

    /// Does the work of `insert` and tells whether the tree has a new node.
    fn insert_node(&mut self, value: T) -> (grew: bool)
        requires
            old(self).spec_height() < i32::MAX,
        ensures
            total_order::<T>() ==> grew == !old(self).finds(value),
            total_order::<T>() ==> *final(self) == old(self).inserted(value),
            !grew ==> *final(self) == *old(self),
            final(self)@.len() == old(self)@.len() + if grew { 1int } else { 0int },
            final(self).spec_height() <= old(self).spec_height() + 1,
            old(self).is_height_balanced() ==> final(self).is_height_balanced()
                && old(self).spec_height() <= final(self).spec_height(),
            *old(self) is Leaf ==> *final(self) == TreeNode::Node(
                value,
                Box::new(TreeNode::Leaf),
                Box::new(TreeNode::Leaf),
            ),
        decreases *old(self),
    {
        let grew = match self {
            TreeNode::Leaf => {
                *self = TreeNode::Node(value, Box::new(TreeNode::Leaf), Box::new(TreeNode::Leaf));
                true
            },
            TreeNode::Node(current, left, right) => {
                proof {
                    if total_order::<T>() {
                        lemma_operators_agree::<T>();
                        lemma_trichotomy(*current, value);
                    }
                }
                if *current < value {
                    right.insert_node(value)
                } else if *current > value {
                    left.insert_node(value)
                } else {
                    false
                }
            },
        };
        if grew && !self.is_balanced() {
            proof {
                lemma_rebalanced_order(*self);
                lemma_rebalanced_height(*self);
                if old(self).is_height_balanced() {
                    lemma_rebalanced_balanced(*self);
                }
            }
            self.rebalance();
        }
        grew
    }

    /// Computes the height of the left subtree minus the height of the right
    /// subtree; 0 for an empty tree.
    fn balance_factor(&self) -> (bf: i32)
        requires
            self.spec_height() <= i32::MAX,
        ensures
            bf == self.spec_balance_factor(),
    {
        match self {
            TreeNode::Leaf => 0,
            TreeNode::Node(_, left, right) => {
                let l: usize = left.height();
                let r: usize = right.height();
                l as i32 - r as i32
            },
        }
    }

    /// Promotes the right child to the root; the old root becomes its left
    /// child and takes over the left subtree of the promoted node.
    pub fn left_rotate(&mut self)
        ensures
            *final(self) == old(self).rotated_left(),
            final(self)@ == old(self)@,
    {
        proof {
            lemma_rotation_keeps_order(*self);
        }
        if let TreeNode::Node(value, left, right) = self {
            let mut pivot = TreeNode::Leaf;
            core::mem::swap(&mut **right, &mut pivot);
            match pivot {
                TreeNode::Node(rvalue, rleft, rright) => {
                    let mut below = TreeNode::Leaf;
                    core::mem::swap(&mut **left, &mut below);
                    let mut top = rvalue;
                    core::mem::swap(value, &mut top);
                    **left = TreeNode::Node(top, Box::new(below), rleft);
                    *right = rright;
                },
                TreeNode::Leaf => {},
            }
        }
    }

    /// Promotes the left child to the root; the old root becomes its right
    /// child and takes over the right subtree of the promoted node.
    pub fn right_rotate(&mut self)
        ensures
            *final(self) == old(self).rotated_right(),
            final(self)@ == old(self)@,
    {
        proof {
            lemma_rotation_keeps_order(*self);
        }
        if let TreeNode::Node(value, left, right) = self {
            let mut pivot = TreeNode::Leaf;
            core::mem::swap(&mut **left, &mut pivot);
            match pivot {
                TreeNode::Node(lvalue, lleft, lright) => {
                    let mut below = TreeNode::Leaf;
                    core::mem::swap(&mut **right, &mut below);
                    let mut top = lvalue;
                    core::mem::swap(value, &mut top);
                    **right = TreeNode::Node(top, lright, Box::new(below));
                    *left = lleft;
                },
                TreeNode::Leaf => {},
            }
        }
    }

    /// Restores the balance at the root with a single or a double rotation
    /// where the two subtrees differ in height by more than one.
    fn rebalance(&mut self)
        requires
            old(self).spec_height() <= i32::MAX,
        ensures
            *final(self) == old(self).rebalanced(),
            final(self)@ == old(self)@,
    {
        proof {
            lemma_rebalanced_order(*self);
        }
        let bf = self.balance_factor();
        if bf > 1 {
            if let TreeNode::Node(_, left, _) = self {
                if left.balance_factor() < 0 {
                    left.left_rotate();
                }
            }
            self.right_rotate();
        } else if bf < -1 {
            if let TreeNode::Node(_, _, right) = self {
                if right.balance_factor() > 0 {
                    right.right_rotate();
                }
            }
            self.left_rotate();
        }
    }
}

impl<T: Ord> View for TreeNode<T> {
    type V = Seq<T>;

    open spec fn view(&self) -> Seq<T> {
        self.in_order()
    }
}

} // verus!
