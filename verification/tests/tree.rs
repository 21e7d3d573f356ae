use boxed_containers::tree::TreeNode;
use std::cmp::Ordering;

fn leaf() -> TreeNode<i32> {
    TreeNode::new()
}

fn single(value: i32) -> TreeNode<i32> {
    TreeNode::node(value, TreeNode::new(), TreeNode::new())
}

fn build(values: &[i32]) -> TreeNode<i32> {
    let mut tree = TreeNode::new();
    for value in values {
        tree.insert(*value);
    }
    tree
}

fn fib(n: usize) -> u128 {
    let mut a: u128 = 0;
    let mut b: u128 = 1;
    for _ in 0..n {
        let next = a + b;
        a = b;
        b = next;
    }
    a
}

/// A value that is ordered by its key alone.
#[derive(Debug, Clone)]
struct Keyed {
    key: i32,
    tag: char,
}

impl PartialEq for Keyed {
    fn eq(&self, other: &Self) -> bool {
        self.key == other.key
    }
}

impl Eq for Keyed {}

impl PartialOrd for Keyed {
    fn partial_cmp(&self, other: &Self) -> Option<Ordering> {
        Some(self.cmp(other))
    }
}

impl Ord for Keyed {
    fn cmp(&self, other: &Self) -> Ordering {
        self.key.cmp(&other.key)
    }
}

#[test]
fn empty_tree_has_height_zero() {
    assert_eq!(leaf().height(), 0);
}

#[test]
fn empty_tree_validates() {
    assert!(leaf().validate());
    assert!(leaf().is_balanced());
}

#[test]
fn new_and_default_are_empty() {
    assert_eq!(TreeNode::<i32>::new(), TreeNode::Leaf);
    assert_eq!(TreeNode::<i32>::default(), TreeNode::Leaf);
}

#[test]
fn node_keeps_value_and_children() {
    let tree = TreeNode::node(5, single(3), leaf());
    assert_eq!(
        tree,
        TreeNode::Node(5, Box::new(single(3)), Box::new(TreeNode::Leaf))
    );
}

#[test]
fn insert_into_empty_gives_single_node() {
    let mut tree = TreeNode::new();
    tree.insert(7);
    assert_eq!(
        tree,
        TreeNode::Node(7, Box::new(TreeNode::Leaf), Box::new(TreeNode::Leaf))
    );
    assert_eq!(tree.height(), 1);
    assert!(tree.validate());
}

#[test]
fn height_counts_longest_path() {
    assert_eq!(single(1).height(), 1);
    let chain = TreeNode::node(1, leaf(), TreeNode::node(2, leaf(), single(3)));
    assert_eq!(chain.height(), 3);
    let lopsided = TreeNode::node(4, TreeNode::node(2, single(1), leaf()), single(5));
    assert_eq!(lopsided.height(), 3);
    assert_eq!(build(&[1, 2, 3, 4, 5, 6, 7]).height(), 3);
    assert_eq!(build(&[1, 2, 3, 4, 5, 6, 7, 8]).height(), 4);
}

#[test]
fn ascending_three_rotates_left() {
    let tree = build(&[1, 2, 3]);
    assert_eq!(tree, TreeNode::node(2, single(1), single(3)));
    assert_eq!(tree.height(), 2);
}

#[test]
fn descending_three_rotates_right() {
    let tree = build(&[3, 2, 1]);
    assert_eq!(tree, TreeNode::node(2, single(1), single(3)));
}

#[test]
fn left_right_case_takes_double_rotation() {
    let tree = build(&[3, 1, 2]);
    assert_eq!(tree, TreeNode::node(2, single(1), single(3)));
}

#[test]
fn right_left_case_takes_double_rotation() {
    let tree = build(&[1, 3, 2]);
    assert_eq!(tree, TreeNode::node(2, single(1), single(3)));
}

#[test]
fn two_values_stay_in_insertion_shape() {
    assert_eq!(build(&[1, 2]), TreeNode::node(1, leaf(), single(2)));
    assert_eq!(build(&[2, 1]), TreeNode::node(2, single(1), leaf()));
}

#[test]
fn ascending_seven_gives_perfect_tree() {
    let tree = build(&[1, 2, 3, 4, 5, 6, 7]);
    let expected = TreeNode::node(
        4,
        TreeNode::node(2, single(1), single(3)),
        TreeNode::node(6, single(5), single(7)),
    );
    assert_eq!(tree, expected);
}

#[test]
fn rotation_cascades_to_an_ancestor() {
    let tree = build(&[5, 3, 8, 2, 4, 1]);
    let expected = TreeNode::node(
        3,
        TreeNode::node(2, single(1), leaf()),
        TreeNode::node(5, single(4), single(8)),
    );
    assert_eq!(tree, expected);
    assert!(tree.validate());
}

#[test]
fn valid_after_every_insertion() {
    let mut tree = TreeNode::new();
    let mut value: i64 = 17;
    for _ in 0..500 {
        value = (value * 7919 + 104_729) % 1_000_003;
        tree.insert(value);
        assert!(tree.validate());
    }
    let mut ascending = TreeNode::new();
    for value in 0..300 {
        ascending.insert(value);
        assert!(ascending.validate());
    }
    let mut descending = TreeNode::new();
    for value in (0..300).rev() {
        descending.insert(value);
        assert!(descending.validate());
    }
}

#[test]
fn height_stays_logarithmic() {
    let mut tree = TreeNode::new();
    for n in 1..=2000usize {
        tree.insert(n);
        let height = tree.height();
        let bound = (1.44 * ((n + 2) as f64).log2()).ceil() as usize;
        assert!(height <= bound, "height {} above {} at {} values", height, bound, n);
        assert!(fib(height + 2) <= (n as u128) + 1);
    }
}

#[test]
fn round_trip_sorts_and_drops_duplicates() {
    let empty: Vec<i32> = Vec::new();
    assert_eq!(Vec::from(TreeNode::from(empty.clone())), empty);
    assert_eq!(Vec::from(TreeNode::from(vec![42])), vec![42]);
    assert_eq!(
        Vec::from(TreeNode::from(vec![5, 3, 8, 3, 1, 5, 9, 1, 1])),
        vec![1, 3, 5, 8, 9]
    );
    assert_eq!(Vec::from(TreeNode::from(vec![2, 2, 2, 2])), vec![2]);
    assert_eq!(
        Vec::from(TreeNode::from(vec![-3, 7, 0, -10, 4])),
        vec![-10, -3, 0, 4, 7]
    );
}

#[test]
fn from_inserts_in_the_order_of_the_vector() {
    assert_eq!(TreeNode::from(vec![1, 2, 3]), build(&[1, 2, 3]));
    assert_eq!(TreeNode::from(vec![2, 1]), TreeNode::node(2, single(1), leaf()));
    assert_eq!(TreeNode::from(Vec::<i32>::new()), TreeNode::Leaf);
    assert!(TreeNode::from(vec![9, 4, 6, 1, 8, 2, 2, 7]).validate());
}

#[test]
fn into_reads_from_left_to_right() {
    let tree = TreeNode::node(4, TreeNode::node(2, single(1), single(3)), single(5));
    assert_eq!(Vec::from(tree), vec![1, 2, 3, 4, 5]);
    let unordered = TreeNode::node(1, single(9), single(0));
    assert_eq!(Vec::from(unordered), vec![9, 1, 0]);
}

#[test]
fn first_of_equal_values_is_kept() {
    let values = vec![
        Keyed { key: 2, tag: 'a' },
        Keyed { key: 1, tag: 'b' },
        Keyed { key: 2, tag: 'c' },
        Keyed { key: 3, tag: 'd' },
        Keyed { key: 1, tag: 'e' },
    ];
    let out = Vec::from(TreeNode::from(values));
    let tags: Vec<(i32, char)> = out.iter().map(|k| (k.key, k.tag)).collect();
    assert_eq!(tags, vec![(1, 'b'), (2, 'a'), (3, 'd')]);
}

#[test]
fn inserting_present_value_changes_nothing() {
    let tree = build(&[5, 3, 8, 1, 4, 7, 9]);
    for value in [5, 3, 8, 1, 4, 7, 9] {
        let mut copy = tree.clone();
        copy.insert(value);
        assert_eq!(copy, tree);
    }
}

#[test]
fn inserting_present_value_skips_rebalancing() {
    let chain = TreeNode::node(1, leaf(), TreeNode::node(2, leaf(), single(3)));
    let mut copy = chain.clone();
    copy.insert(3);
    assert_eq!(copy, chain);
}

#[test]
fn inserting_new_value_rebalances_what_is_out_of_balance() {
    let mut tree = TreeNode::node(1, leaf(), TreeNode::node(2, leaf(), single(3)));
    tree.insert(4);
    let expected = TreeNode::node(3, TreeNode::node(1, leaf(), single(2)), single(4));
    assert_eq!(tree, expected);
    assert!(tree.validate());
}

#[test]
fn left_rotate_promotes_right_child() {
    let mut tree = TreeNode::node(2, single(1), TreeNode::node(4, single(3), single(5)));
    tree.left_rotate();
    let expected = TreeNode::node(4, TreeNode::node(2, single(1), single(3)), single(5));
    assert_eq!(tree, expected);
}

#[test]
fn right_rotate_promotes_left_child() {
    let mut tree = TreeNode::node(4, TreeNode::node(2, single(1), single(3)), single(5));
    tree.right_rotate();
    let expected = TreeNode::node(2, single(1), TreeNode::node(4, single(3), single(5)));
    assert_eq!(tree, expected);
}

#[test]
fn rotation_without_pivot_does_nothing() {
    let mut empty = leaf();
    empty.left_rotate();
    assert_eq!(empty, TreeNode::Leaf);
    empty.right_rotate();
    assert_eq!(empty, TreeNode::Leaf);

    let mut no_right = TreeNode::node(2, single(1), leaf());
    no_right.left_rotate();
    assert_eq!(no_right, TreeNode::node(2, single(1), leaf()));

    let mut no_left = TreeNode::node(2, leaf(), single(3));
    no_left.right_rotate();
    assert_eq!(no_left, TreeNode::node(2, leaf(), single(3)));
}

#[test]
fn opposite_rotations_restore_the_tree() {
    let original = TreeNode::node(4, TreeNode::node(2, single(1), single(3)), single(5));
    let mut tree = original.clone();
    tree.right_rotate();
    tree.left_rotate();
    assert_eq!(tree, original);

    let original = TreeNode::node(2, single(1), TreeNode::node(4, single(3), single(5)));
    let mut tree = original.clone();
    tree.left_rotate();
    tree.right_rotate();
    assert_eq!(tree, original);
}

#[test]
fn opposite_rotations_keep_the_order_when_the_first_does_nothing() {
    let original = TreeNode::node(2, single(1), leaf());
    let mut tree = original.clone();
    tree.left_rotate();
    tree.right_rotate();
    assert_eq!(tree, TreeNode::node(1, leaf(), single(2)));
    assert_eq!(Vec::from(tree), Vec::from(original));
}

#[test]
fn is_balanced_looks_at_every_node() {
    assert!(single(1).is_balanced());
    assert!(TreeNode::node(2, single(1), leaf()).is_balanced());
    let chain = TreeNode::node(1, leaf(), TreeNode::node(2, leaf(), single(3)));
    assert!(!chain.is_balanced());
    let deep_left = TreeNode::node(3, TreeNode::node(2, single(1), leaf()), leaf());
    let deep_right = TreeNode::node(7, leaf(), TreeNode::node(8, leaf(), single(9)));
    let hidden = TreeNode::node(5, deep_left, deep_right);
    assert!(!hidden.is_balanced());
}

#[test]
fn validate_rejects_wrong_order() {
    assert!(!TreeNode::node(2, single(3), leaf()).validate());
    assert!(!TreeNode::node(2, leaf(), single(1)).validate());
    assert!(!TreeNode::node(2, single(2), leaf()).validate());
    assert!(!TreeNode::node(2, leaf(), single(2)).validate());
    let far = TreeNode::node(5, TreeNode::node(3, single(1), single(6)), single(8));
    assert!(far.is_balanced());
    assert!(!far.validate());
    let near = TreeNode::node(5, TreeNode::node(3, single(1), single(4)), single(8));
    assert!(near.validate());
}

#[test]
fn validate_rejects_unbalanced_search_tree() {
    let chain = TreeNode::node(1, leaf(), TreeNode::node(2, leaf(), single(3)));
    assert!(!chain.validate());
}

#[test]
fn equality_is_structural() {
    let left_heavy = TreeNode::node(2, single(1), leaf());
    let right_heavy = TreeNode::node(1, leaf(), single(2));
    assert_eq!(Vec::from(left_heavy.clone()), Vec::from(right_heavy.clone()));
    assert_ne!(left_heavy, right_heavy);
    assert_eq!(left_heavy, TreeNode::node(2, single(1), leaf()));
    assert_ne!(single(1), single(2));
    assert_ne!(single(1), TreeNode::Leaf);
    assert_ne!(TreeNode::Leaf, single(1));
}

#[test]
fn clone_copies_shape_and_values() {
    let tree = build(&[6, 2, 9, 1, 4, 8]);
    let copy = tree.clone();
    assert_eq!(copy, tree);
    assert_eq!(Vec::from(copy), vec![1, 2, 4, 6, 8, 9]);
}
