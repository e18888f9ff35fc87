//! A node of a singly linked list: a value and the rest of the list.
use vstd::prelude::*;

verus! {

/// A node of a singly linked list.
pub struct Node<T> {
    pub value: T,
    pub next: Option<Box<Node<T>>>,
}

impl<T> Node<T> {
    /// The values held by the chain starting at `opt`, first node first.
    pub open spec fn chain(opt: Option<Box<Node<T>>>) -> Seq<T>
        decreases opt,
    {
        match opt {
            None => Seq::empty(),
            Some(node) => seq![node.value] + Self::chain(node.next),
        }
    }

    /// The values of this node and of the nodes after it.
    pub open spec fn values(self) -> Seq<T> {
        seq![self.value] + Self::chain(self.next)
    }

    /// A node holding `value`, followed by `next`.
    pub fn new(value: T, next: Option<Box<Node<T>>>) -> (n: Self)
        ensures
            n.value == value,
            n.next == next,
    {
        Node { value, next }
    }

    /// A boxed node holding `value`, followed by `next`.
    pub fn new_wrapped(value: T, next: Option<Box<Node<T>>>) -> (n: Option<Box<Node<T>>>)
        ensures
            n matches Some(b) && b.value == value && b.next == next,
    {
        Some(Box::new(Node { value, next }))
    }

    /// The value of this node.
    pub fn value(&self) -> (v: &T)
        ensures
            *v == self.value,
    {
        &self.value
    }

    /// The value of this node, to be changed in place.
    pub fn mut_value(&mut self) -> (v: &mut T)
        ensures
            *v == old(self).value,
            final(self).value == *final(v),
            final(self).next == old(self).next,
    {
        &mut self.value
    }

    /// This node.
    pub fn as_ref(&self) -> (r: Option<&Self>)
        ensures
            r == Some(self),
    {
        Some(&self)
    }

    /// This node, to be changed in place.
    pub fn as_mut_node(&mut self) -> (r: Option<&mut Self>)
        ensures
            r matches Some(n) && *n == *old(self) && *final(self) == *final(n),
    {
        Some(self)
    }

    /// The node after this one, if any, to be changed in place.
    pub fn next_mut(&mut self) -> (r: Option<&mut Node<T>>)
        ensures
            old(self).next is None ==> r is None && *final(self) == *old(self),
            old(self).next matches Some(b) ==> (r matches Some(n) && *n == *b && final(self).value
                == old(self).value && final(self).next == Some(Box::new(*final(n)))),
    {
        if let Some(next) = self.next.as_mut() {
            return Some(&mut **next);
        }
        None
    }

    /// The node after this one, if any.
    pub fn peek_next(&self) -> (r: Option<&Node<T>>)
        ensures
            match self.next {
                Some(b) => r == Some(&*b),
                None => r is None,
            },
    {
        if let Some(next) = &self.next {
            return Some(&**next);
        }
        None
    }

    /// Replaces what follows this node with `new_next`.
    pub fn set_next(&mut self, new_next: Option<Box<Node<T>>>)
        ensures
            final(self).value == old(self).value,
            final(self).next == new_next,
    {
        let _old_next: Option<Box<Node<T>>> = self.next.take();
        self.next = new_next;
    }

    /// Detaches and returns what follows this node.
    pub fn take_next(&mut self) -> (r: Option<Box<Node<T>>>)
        ensures
            r == old(self).next,
            final(self).value == old(self).value,
            final(self).next is None,
    {
        self.next.take()
    }
}


impl<T: Clone> Clone for Node<T> {
    /// A copy of this node and of every node after it, each value copied by
    /// its own `clone`.
    fn clone(&self) -> (res: Self)
        ensures
            res.values().len() == self.values().len(),
            forall|i: int| 0 <= i < self.values().len() ==> cloned::<T>(self.values()[i], #[trigger] res.values()[i]),
        decreases self,
    {
        let next = match &self.next {
            Some(n) => {
                let c = (&**n).clone();
                Some(Box::new(c))
            },
            None => None,
        };
        let value = self.value.clone();
        let res = Node { value, next };
        proof {
            assert forall|i: int| 0 <= i < self.values().len() implies cloned::<T>(
                self.values()[i],
                #[trigger] res.values()[i],
            ) by {
                if i > 0 {
                    match self.next {
                        Some(n) => {
                            assert(self.values()[i] == n.values()[i - 1]);
                            assert(res.values()[i] == res.next.unwrap().values()[i - 1]);
                        },
                        None => {},
                    }
                }
            }
        }
        res
    }
}

} // verus!
