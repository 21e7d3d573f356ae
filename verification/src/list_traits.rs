use crate::list::lemma_of_elements;
use crate::list::ListNode;
use vstd::prelude::*;
use vstd::std_specs::cmp::PartialEqSpec;
use vstd::std_specs::cmp::PartialEqSpecImpl;
use vstd::std_specs::convert::FromSpecImpl;

verus! {

/// Values put before a list come first in the list that results.
pub proof fn lemma_after_elements<T>(tail: ListNode<T>, front: Seq<T>)
    ensures
        tail.after(front)@ == front + tail@,
    decreases front.len(),
{
    if front.len() > 0 {
        lemma_after_elements(tail, front.drop_first());
        assert(seq![front[0]] + (front.drop_first() + tail@) == front + tail@);
    } else {
        assert(front + tail@ == tail@);
    }
}

/// To put one more value before a list is to give the list one more node at
/// its head first.
pub proof fn lemma_after_push<T>(tail: ListNode<T>, front: Seq<T>, value: T)
    ensures
        tail.after(front.push(value)) == ListNode::Cons(value, Box::new(tail)).after(front),
    decreases front.len(),
{
    let longer = front.push(value);
    reveal_with_fuel(ListNode::after, 2);
    if front.len() > 0 {
        lemma_after_push(tail, front.drop_first(), value);
        assert(longer.drop_first() == front.drop_first().push(value));
        assert(longer[0] == front[0]);
    } else {
        assert(longer.drop_first().len() == 0);
        assert(longer[0] == value);
    }
}

impl<T: PartialEq> ListNode<T> {
    /// The two lists are equally long and hold equal values at every place.
    pub open spec fn same_as(self, other: Self) -> bool
        decreases self,
    {
        match (self, other) {
            (ListNode::Nil, ListNode::Nil) => true,
            (ListNode::Cons(v1, n1), ListNode::Cons(v2, n2)) => v1.eq_spec(&v2) && n1.same_as(*n2),
            _ => false,
        }
    }
}

impl<T> Default for ListNode<T> {
    fn default() -> (list: Self)
        ensures
            list == ListNode::<T>::Nil,
    {
        ListNode::Nil
    }
}

impl<T: PartialEq> PartialEq for ListNode<T> {
    fn eq(&self, other: &Self) -> (equal: bool)
        decreases self,
    {
        match (self, other) {
            (ListNode::Nil, ListNode::Nil) => true,
            (ListNode::Cons(v1, n1), ListNode::Cons(v2, n2)) => *v1 == *v2 && (&**n1).eq(&**n2),
            _ => false,
        }
    }
}

impl<T: PartialEq> PartialEqSpecImpl for ListNode<T> {
    open spec fn obeys_eq_spec() -> bool {
        T::obeys_eq_spec()
    }

    open spec fn eq_spec(&self, other: &Self) -> bool {
        self.same_as(*other)
    }
}

impl<T: Eq> Eq for ListNode<T> {

}

impl<T> From<Vec<T>> for ListNode<T> {
    /// Builds the list that holds the values of the vector in their order.
    fn from(vec: Vec<T>) -> (list: Self)
        ensures
            list == Self::of(vec@),
            list@ == vec@,
    {
        let mut list = ListNode::new();
        let mut pos = &mut list;
        let ghost values = vec@;
        for elem in it: vec
            invariant
                it.seq() == values,
                it.index() == 0 ==> *pos == ListNode::<T>::Nil && after_borrow(list) == *final(pos),
                it.index() > 0 ==> *pos == ListNode::Cons(
                    values[it.index() - 1],
                    Box::new(ListNode::Nil),
                ) && after_borrow(list) == final(pos).after(values.take(it.index() - 1)),
        {
            let ghost done = it.index() as int;
            pos = pos.insert(elem);
            proof {
                if done > 0 {
                    lemma_after_push(*final(pos), values.take(done - 1), values[done - 1]);
                    assert(values.take(done) == values.take(done - 1).push(values[done - 1]));
                }
            }
        }
        proof {
            let n = values.len() as int;
            if n > 0 {
                let last = ListNode::Cons(values[n - 1], Box::new(ListNode::Nil));
                assert(list == last.after(values.take(n - 1)));
                lemma_after_elements(last, values.take(n - 1));
                assert(last@ == seq![values[n - 1]]) by {
                    reveal_with_fuel(ListNode::elements, 2);
                }
                assert(values == values.take(n - 1) + seq![values[n - 1]]);
            } else {
                assert(list == ListNode::<T>::Nil);
            }
            lemma_of_elements(list);
        }
        list
    }
}

impl<T> FromSpecImpl<Vec<T>> for ListNode<T> {
    open spec fn obeys_from_spec() -> bool {
        true
    }

    open spec fn from_spec(vec: Vec<T>) -> Self {
        Self::of(vec@)
    }
}

impl<T> From<ListNode<T>> for Vec<T> {
    /// Lists the values from the head to the end.
    fn from(list: ListNode<T>) -> (values: Self)
        ensures
            values@ == list@,
    {
        let mut values = Vec::new();
        let mut cur = list;
        loop
            invariant
                values@ + cur@ == list@,
            ensures
                values@ == list@,
            decreases cur,
        {
            match cur {
                ListNode::Cons(value, next) => {
                    values.push(value);
                    cur = *next;
                },
                ListNode::Nil => {
                    break;
                },
            }
        }
        values
    }
}

/// A vector is more than its elements (it has a capacity too), so no spec
/// function names the one vector that `from` gives: the contract of `from`
/// states its elements.
impl<T> FromSpecImpl<ListNode<T>> for Vec<T> {
    open spec fn obeys_from_spec() -> bool {
        false
    }

    open spec fn from_spec(list: ListNode<T>) -> Self {
        choose|values: Vec<T>| values@ == list@
    }
}

} // verus!
