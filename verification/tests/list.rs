use boxed_containers::list::ListNode;

fn list(values: &[i32]) -> ListNode<i32> {
    ListNode::from(values.to_vec())
}

#[test]
fn new_list_is_empty() {
    assert_eq!(ListNode::<i32>::new(), ListNode::Nil);
    assert_eq!(ListNode::<i32>::default(), ListNode::Nil);
    assert_eq!(Vec::from(ListNode::<i32>::new()), Vec::<i32>::new());
}

#[test]
fn from_keeps_the_order() {
    let built = list(&[1, 2, 3]);
    let expected = ListNode::Cons(
        1,
        Box::new(ListNode::Cons(
            2,
            Box::new(ListNode::Cons(3, Box::new(ListNode::Nil))),
        )),
    );
    assert_eq!(built, expected);
    assert_eq!(list(&[]), ListNode::Nil);
    assert_eq!(list(&[7]), ListNode::Cons(7, Box::new(ListNode::Nil)));
}

#[test]
fn list_round_trip_gives_the_same_sequence() {
    for values in [vec![], vec![4], vec![3, 1, 2], vec![5, 5, 5, 1]] {
        assert_eq!(Vec::from(ListNode::from(values.clone())), values);
    }
}

#[test]
fn insert_into_empty_list_makes_the_head() {
    let mut empty = ListNode::new();
    {
        let node = empty.insert(1);
        assert_eq!(*node, ListNode::Cons(1, Box::new(ListNode::Nil)));
    }
    assert_eq!(empty, list(&[1]));
}

#[test]
fn insert_puts_value_behind_the_head() {
    let mut values = list(&[1, 3]);
    {
        let node = values.insert(2);
        assert_eq!(*node, list(&[2, 3]));
    }
    assert_eq!(values, list(&[1, 2, 3]));
}

#[test]
fn insert_returns_the_place_to_go_on_from() {
    let mut values = ListNode::new();
    let mut pos = &mut values;
    for value in [1, 2, 3, 4] {
        pos = pos.insert(value);
    }
    *pos = ListNode::Cons(9, Box::new(ListNode::Nil));
    assert_eq!(values, list(&[1, 2, 3, 9]));
}

#[test]
fn delete_removes_the_head() {
    let mut values = list(&[1, 2, 3]);
    values.delete();
    assert_eq!(values, list(&[2, 3]));
    values.delete();
    values.delete();
    assert_eq!(values, ListNode::Nil);
    values.delete();
    assert_eq!(values, ListNode::Nil);
}

#[test]
fn delete_inside_the_list_removes_that_node() {
    let mut values = list(&[1, 2, 3]);
    if let ListNode::Cons(_, next) = &mut values {
        next.delete();
    }
    assert_eq!(values, list(&[1, 3]));
}

#[test]
fn reverse_turns_the_list_around() {
    let mut values = list(&[1, 2, 3, 4]);
    values.reverse();
    assert_eq!(values, list(&[4, 3, 2, 1]));
    values.reverse();
    assert_eq!(values, list(&[1, 2, 3, 4]));

    let mut empty = list(&[]);
    empty.reverse();
    assert_eq!(empty, ListNode::Nil);

    let mut one = list(&[8]);
    one.reverse();
    assert_eq!(one, list(&[8]));
}

#[test]
fn list_equality_compares_every_place() {
    assert_eq!(list(&[1, 2]), list(&[1, 2]));
    assert_ne!(list(&[1, 2]), list(&[2, 1]));
    assert_ne!(list(&[1, 2]), list(&[1]));
    assert_ne!(list(&[1]), list(&[1, 2]));
    assert_ne!(list(&[]), list(&[1]));
}
