use vstd::prelude::*;

verus! {

/// A node of a singly linked list that owns the rest of the list.
#[derive(Debug)]
pub enum ListNode<T> {
    Nil,
    Cons(T, Box<ListNode<T>>),
}

impl<T> ListNode<T> {
    /// The values of the list from the head to the end.
    pub open spec fn elements(self) -> Seq<T>
        decreases self,
    {
        match self {
            ListNode::Nil => Seq::empty(),
            ListNode::Cons(value, next) => seq![value] + next.elements(),
        }
    }

    /// The list that holds the values of `values` in their order.
    pub open spec fn of(values: Seq<T>) -> Self
        decreases values.len(),
    {
        if values.len() == 0 {
            ListNode::Nil
        } else {
            ListNode::Cons(values[0], Box::new(Self::of(values.drop_first())))
        }
    }

    /// The list with the values of `front` put before it.
    pub open spec fn after(self, front: Seq<T>) -> Self
        decreases front.len(),
    {
        if front.len() == 0 {
            self
        } else {
            ListNode::Cons(front[0], Box::new(self.after(front.drop_first())))
        }
    }

    /// Removes the node at the head: the list becomes what followed it. An
    /// empty list stays empty.
    pub fn delete(&mut self)
        ensures
            *final(self) == match *old(self) {
                ListNode::Nil => ListNode::Nil,
                ListNode::Cons(_, next) => *next,
            },
            final(self)@ == if old(self)@.len() == 0 {
                old(self)@
            } else {
                old(self)@.drop_first()
            },
    {
        let mut owned = ListNode::Nil;
        core::mem::swap(self, &mut owned);
        match owned {
            ListNode::Nil => {},
            ListNode::Cons(_, next) => {
                *self = *next;
                assert(old(self)@.drop_first() == next@);
            },
        }
    }

    /// Creates an empty list.
    pub fn new() -> (list: Self)
        ensures
            list == ListNode::<T>::Nil,
    {
        ListNode::Nil
    }

    /// Puts a new node with `value` behind the head and returns that node. An
    /// empty list becomes the new node, which is then the node returned.
    pub fn insert(&mut self, value: T) -> (node: &mut Self)
        ensures
            match *old(self) {
                ListNode::Nil => {
                    &&& *node == ListNode::Cons(value, Box::new(ListNode::Nil))
                    &&& *final(self) == *final(node)
                },
                ListNode::Cons(head, next) => {
                    &&& *node == ListNode::Cons(value, next)
                    &&& *final(self) == ListNode::Cons(head, Box::new(*final(node)))
                },
            },
    {
        match self {
            ListNode::Nil => {
                *self = ListNode::Cons(value, Box::new(ListNode::Nil));
                self
            },
            ListNode::Cons(_, next) => {
                let mut rest = ListNode::Nil;
                core::mem::swap(&mut **next, &mut rest);
                **next = ListNode::Cons(value, Box::new(rest));
                &mut **next
            },
        }
    }

    /// Reverses the list in place.
    pub fn reverse(&mut self)
        ensures
            final(self)@ == old(self)@.reverse(),
            *final(self) == Self::of(old(self)@.reverse()),
    {
        let mut prev = ListNode::Nil;
        let mut curr = ListNode::Nil;
        core::mem::swap(self, &mut curr);
        loop
            invariant
                prev@.reverse() + curr@ == old(self)@,
                *self == ListNode::<T>::Nil,
            ensures
                prev@ == old(self)@.reverse(),
            decreases curr,
        {
            match &mut curr {
                ListNode::Cons(_, next) => {
                    core::mem::swap(&mut **next, &mut prev);
                },
                ListNode::Nil => {
                    break;
                },
            }
            core::mem::swap(&mut curr, &mut prev);
        }
        *self = prev;
        proof {
            lemma_of_elements(*self);
        }
    }
}

/// A list is the list of its values.
pub proof fn lemma_of_elements<T>(list: ListNode<T>)
    ensures
        ListNode::of(list@) == list,
    decreases list,
{
    match list {
        ListNode::Nil => {},
        ListNode::Cons(value, next) => {
            lemma_of_elements(*next);
            assert(list@.drop_first() == next@);
        },
    }
}

impl<T> View for ListNode<T> {
    type V = Seq<T>;

    open spec fn view(&self) -> Seq<T> {
        self.elements()
    }
}

} // verus!
