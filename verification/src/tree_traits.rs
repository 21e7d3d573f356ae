use crate::height_bound::lemma_balanced_height_fits;
use crate::height_bound::HEIGHT_LIMIT;
use crate::insertion::lemma_inserted_valid;
use crate::order::total_order;
use crate::tree::TreeNode;
use vstd::prelude::*;
use vstd::std_specs::cmp::PartialEqSpec;
use vstd::std_specs::cmp::PartialEqSpecImpl;
use vstd::std_specs::convert::FromSpecImpl;

verus! {

impl<T: Ord + PartialEq> TreeNode<T> {
    /// The two trees have the same shape and hold equal values at every node.
    pub open spec fn same_as(self, other: Self) -> bool
        decreases self,
    {
        match (self, other) {
            (TreeNode::Leaf, TreeNode::Leaf) => true,
            (TreeNode::Node(v1, l1, r1), TreeNode::Node(v2, l2, r2)) => {
                &&& v1.eq_spec(&v2)
                &&& l1.same_as(*l2)
                &&& r1.same_as(*r2)
            },
            _ => false,
        }
    }
}

impl<T: Ord + Clone> TreeNode<T> {
    /// The tree has the shape of `source` and at every node a clone of the
    /// value that `source` holds there.
    pub open spec fn is_copy_of(self, source: Self) -> bool
        decreases self,
    {
        match (self, source) {
            (TreeNode::Leaf, TreeNode::Leaf) => true,
            (TreeNode::Node(v1, l1, r1), TreeNode::Node(v2, l2, r2)) => {
                &&& cloned::<T>(v2, v1)
                &&& l1.is_copy_of(*l2)
                &&& r1.is_copy_of(*r2)
            },
            _ => false,
        }
    }
}

/// Where `==` on values tells whether they are the same value, `==` on trees
/// tells whether they are the same tree.
pub proof fn lemma_same_as_equal<T: Ord + PartialEq>(a: TreeNode<T>, b: TreeNode<T>)
    requires
        forall|x: T, y: T| #[trigger] x.eq_spec(&y) <==> x == y,
    ensures
        a.same_as(b) <==> a == b,
    decreases a,
{
    match (a, b) {
        (TreeNode::Node(_, l1, r1), TreeNode::Node(_, l2, r2)) => {
            lemma_same_as_equal(*l1, *l2);
            lemma_same_as_equal(*r1, *r2);
        },
        _ => {},
    }
}

/// Where a clone of a value is always that value, a copy of a tree is that
/// tree.
pub proof fn lemma_copy_equal<T: Ord + Clone>(copy: TreeNode<T>, source: TreeNode<T>)
    requires
        copy.is_copy_of(source),
        forall|x: T, y: T| #[trigger] cloned::<T>(x, y) ==> x == y,
    ensures
        copy == source,
    decreases copy,
{
    match (copy, source) {
        (TreeNode::Node(_, l1, r1), TreeNode::Node(_, l2, r2)) => {
            lemma_copy_equal(*l1, *l2);
            lemma_copy_equal(*r1, *r2);
        },
        _ => {},
    }
}

impl<T: Ord> Default for TreeNode<T> {
    fn default() -> (tree: Self)
        ensures
            tree == TreeNode::<T>::Leaf,
    {
        TreeNode::Leaf
    }
}

impl<T: Ord + Clone> Clone for TreeNode<T> {
    fn clone(&self) -> (copy: Self)
        ensures
            copy.is_copy_of(*self),
        decreases self,
    {
        match self {
            TreeNode::Leaf => TreeNode::Leaf,
            TreeNode::Node(value, left, right) => TreeNode::Node(
                value.clone(),
                Box::new((&**left).clone()),
                Box::new((&**right).clone()),
            ),
        }
    }
}

impl<T: Ord + PartialEq> PartialEq for TreeNode<T> {
    fn eq(&self, other: &Self) -> (equal: bool)
        decreases self,
    {
        match (self, other) {
            (TreeNode::Leaf, TreeNode::Leaf) => true,
            (TreeNode::Node(v1, l1, r1), TreeNode::Node(v2, l2, r2)) => {
                *v1 == *v2 && (&**l1).eq(&**l2) && (&**r1).eq(&**r2)
            },
            _ => false,
        }
    }
}

impl<T: Ord + PartialEq> PartialEqSpecImpl for TreeNode<T> {
    open spec fn obeys_eq_spec() -> bool {
        T::obeys_eq_spec()
    }

    open spec fn eq_spec(&self, other: &Self) -> bool {
        self.same_as(*other)
    }
}

impl<T: Ord + Eq> Eq for TreeNode<T> {

}

impl<T: Ord> From<Vec<T>> for TreeNode<T> {
    /// Builds a tree by inserting the values in the order of the vector.
    fn from(vec: Vec<T>) -> (tree: TreeNode<T>)
        ensures
            total_order::<T>() ==> tree == Self::built(vec@),
            total_order::<T>() ==> tree.is_valid(),
            tree.is_height_balanced(),
            tree.spec_height() < HEIGHT_LIMIT,
            tree@.len() <= vec@.len(),
    {
        let mut tree = TreeNode::new();
        let ghost values = vec@;
        assert(values.len() == vec.len());
        for elem in it: vec
            invariant
                it.seq() == values,
                values.len() <= usize::MAX,
                tree.is_height_balanced(),
                tree@.len() <= it.index(),
                total_order::<T>() ==> tree == Self::built(values.take(it.index() as int)),
                total_order::<T>() ==> tree.is_valid(),
        {
            proof {
                lemma_balanced_height_fits(tree);
                if total_order::<T>() {
                    lemma_inserted_valid(tree, elem);
                    let n = it.index() as int;
                    assert(values.take(n + 1).drop_last() == values.take(n));
                }
            }
            tree.insert(elem);
        }
        proof {
            assert(values.take(values.len() as int) == values);
            lemma_balanced_height_fits(tree);
        }
        tree
    }
}

impl<T: Ord> FromSpecImpl<Vec<T>> for TreeNode<T> {
    open spec fn obeys_from_spec() -> bool {
        total_order::<T>()
    }

    open spec fn from_spec(vec: Vec<T>) -> Self {
        Self::built(vec@)
    }
}

impl<T: Ord> From<TreeNode<T>> for Vec<T> {
    /// Lists the values of the tree from left to right.
    fn from(tree: TreeNode<T>) -> (values: Vec<T>)
        ensures
            values@ == tree@,
        decreases tree,
    {
        match tree {
            TreeNode::Leaf => Vec::new(),
            TreeNode::Node(value, left, right) => {
                let mut values = Self::from(*left);
                values.push(value);
                let mut rest = Self::from(*right);
                values.append(&mut rest);
                values
            },
        }
    }
}

/// A vector is more than its elements (it has a capacity too), so no spec
/// function names the one vector that `from` gives: the contract of `from`
/// states its elements.
impl<T: Ord> FromSpecImpl<TreeNode<T>> for Vec<T> {
    open spec fn obeys_from_spec() -> bool {
        false
    }

    open spec fn from_spec(tree: TreeNode<T>) -> Self {
        choose|values: Vec<T>| values@ == tree@
    }
}

} // verus!
