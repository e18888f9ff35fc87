//! A singly linked list whose length is kept beside its nodes.
use vstd::prelude::*;

use crate::node::Node;
use crate::text::push_str;
use vstd::std_specs::cmp::PartialEqSpec;

verus! {

/// A singly linked list. Values are added at the front (`add`) or at the
/// back (`append`), and removed from the front (`remove`).
pub struct LinkedList<T> {
    head: Option<Box<Node<T>>>,
    len: usize,
}

impl<T> View for LinkedList<T> {
    type V = Seq<T>;

    /// The values of the list, front first.
    closed spec fn view(&self) -> Seq<T> {
        Node::chain(self.head)
    }
}

/// Replaces the value at `index` of the chain `node`.
fn replace_in<T>(node: Option<Box<Node<T>>>, index: usize, value: T) -> (r: Option<Box<Node<T>>>)
    requires
        index < Node::chain(node).len(),
    ensures
        Node::chain(r) == Node::chain(node).update(index as int, value),
    decreases node,
{
    match node {
        None => None,
        Some(b) => {
            let Node { value: v, next } = *b;
            if index == 0 {
                assert(Node::chain(Some(Box::new(Node { value, next }))) =~= Node::chain(
                    Some(Box::new(Node { value: v, next })),
                ).update(0, value));
                Some(Box::new(Node { value, next }))
            } else {
                let rest = replace_in(next, index - 1, value);
                let r = Some(Box::new(Node { value: v, next: rest }));
                assert(Node::chain(r) =~= Node::chain(Some(Box::new(Node { value: v, next }))).update(
                    index as int,
                    value,
                ));
                r
            }
        },
    }
}

/// Puts `value` after the last node of the chain `node`.
fn append_to<T>(node: Option<Box<Node<T>>>, value: T) -> (r: Option<Box<Node<T>>>)
    ensures
        Node::chain(r) == Node::chain(node).push(value),
    decreases node,
{
    match node {
        None => {
            let r = Node::new_wrapped(value, None);
            assert(Node::<T>::chain(None) =~= Seq::<T>::empty());
            assert(Node::chain(r) =~= seq![value]);
            r
        },
        Some(b) => {
            let Node { value: v, next } = *b;
            let rest = append_to(next, value);
            let r = Some(Box::new(Node { value: v, next: rest }));
            assert(Node::chain(r) =~= Node::chain(Some(Box::new(Node { value: v, next }))).push(
                value,
            ));
            r
        },
    }
}

impl<T> LinkedList<T> {
    #[verifier::type_invariant]
    spec fn inv(self) -> bool {
        self.len == Node::chain(self.head).len()
    }

    /// An empty list.
    pub fn new() -> (l: Self)
        ensures
            l@ == Seq::<T>::empty(),
    {
        LinkedList { head: None, len: 0 }
    }

    /// An iterator over the values, front first.
    pub fn iter(&self) -> (it: Iter<'_, T>)
        ensures
            it@ == self@,
    {
        if let Some(head) = &self.head {
            Iter { next_node: Some(&**head) }
        } else {
            Iter { next_node: None }
        }
    }

    /// The first node, if any.
    fn head_as_ref(&self) -> (r: Option<&Node<T>>)
        ensures
            match self.head {
                Some(b) => r == Some(&*b),
                None => r is None,
            },
    {
        if let Some(node) = &self.head {
            return Some(&**node);
        }
        None
    }

    /// Takes the whole list out of `self`, leaving an empty list behind.
    fn take_all(&mut self) -> (r: (Option<Box<Node<T>>>, usize))
        ensures
            Node::chain(r.0) == old(self)@,
            r.1 == old(self)@.len(),
            final(self)@ == Seq::<T>::empty(),
    {
        proof {
            use_type_invariant(&*self);
        }
        let mut tmp = LinkedList::new();
        std::mem::swap(&mut tmp, self);
        proof {
            use_type_invariant(&tmp);
        }
        let LinkedList { head, len } = tmp;
        (head, len)
    }

    /// Puts `value` at the front.
    pub fn add(&mut self, value: T)
        requires
            old(self)@.len() < usize::MAX,
        ensures
            final(self)@ == seq![value] + old(self)@,
    {
        let (head, len) = self.take_all();
        let newnode: Option<Box<Node<T>>> = Node::new_wrapped(value, head);
        *self = LinkedList { head: newnode, len: len + 1 };
    }

    /// Puts `value` at the back.
    pub fn append(&mut self, value: T)
        requires
            old(self)@.len() < usize::MAX,
        ensures
            final(self)@ == old(self)@.push(value),
    {
        let (head, len) = self.take_all();
        let newhead = append_to(head, value);
        *self = LinkedList { head: newhead, len: len + 1 };
    }

    /// Replaces the value at `index`.
    pub fn replace(&mut self, index: usize, value: T)
        requires
            index < old(self)@.len(),
        ensures
            final(self)@ == old(self)@.update(index as int, value),
    {
        let (head, len) = self.take_all();
        let newhead = replace_in(head, index, value);
        *self = LinkedList { head: newhead, len };
    }

    /// The node at `index`, if there is one.
    fn node_at(&self, index: usize) -> (r: Option<&Node<T>>)
        ensures
            index < self@.len() ==> (r matches Some(n) && n.value == self@[index as int]
                && n.values() == self@.skip(index as int)),
            index >= self@.len() ==> r is None,
    {
        let mut current_index: usize = 0;
        let mut current = self.head_as_ref();
        while current_index < index
            invariant
                current_index <= index,
                current_index <= self@.len(),
                current_index < self@.len() ==> (current matches Some(n) && n.values() == self@.skip(
                    current_index as int,
                )),
                current_index == self@.len() ==> current is None,
            decreases index - current_index,
        {
            match current {
                None => {
                    return None;
                },
                Some(node) => {
                    assert(self@.skip(current_index as int).drop_first() =~= self@.skip(
                        current_index + 1,
                    ));
                    current = node.peek_next();
                    current_index += 1;
                },
            }
        }
        if let Some(n) = current {
            assert(n.values()[0] == self@.skip(current_index as int)[0]);
        }
        current
    }

    /// The value at the front, if any.
    pub fn peek(&self) -> (r: Option<&T>)
        ensures
            r == (if self@.len() > 0 {
                Some(&self@[0])
            } else {
                None
            }),
    {
        match &self.head {
            Some(head) => Some(head.value()),
            None => None,
        }
    }

    /// The value at the back, if any.
    pub fn peek_back(&self) -> (r: Option<&T>)
        ensures
            r == (if self@.len() > 0 {
                Some(&self@.last())
            } else {
                None
            }),
    {
        proof {
            use_type_invariant(self);
        }
        if self.len == 0 {
            return None;
        }
        match self.node_at(self.len - 1) {
            Some(node) => Some(node.value()),
            None => None,
        }
    }

    /// Removes and returns the value at the front, if any.
    pub fn remove(&mut self) -> (r: Option<T>)
        ensures
            old(self)@.len() > 0 ==> r == Some(old(self)@[0]) && final(self)@ == old(self)@.drop_first(),
            old(self)@.len() == 0 ==> r is None && final(self)@ == old(self)@,
    {
        let (head, len) = self.take_all();
        match head {
            Some(b) => {
                let Node { value, next } = *b;
                *self = LinkedList { head: next, len: len - 1 };
                Some(value)
            },
            None => None,
        }
    }

    /// Whether the list holds no value.
    pub fn is_empty(&self) -> (b: bool)
        ensures
            b == (self@.len() == 0),
    {
        self.head.is_none()
    }

    /// Removes every value.
    pub fn clear(&mut self)
        ensures
            final(self)@ == Seq::<T>::empty(),
    {
        *self = LinkedList { head: None, len: 0 };
    }

    /// The number of values.
    pub fn len(&self) -> (n: usize)
        ensures
            n == self@.len(),
    {
        proof {
            use_type_invariant(self);
        }
        self.len
    }
}

/// `texts` joined by `sep`.
pub open spec fn join_with(texts: Seq<Seq<char>>, sep: Seq<char>) -> Seq<char>
    decreases texts.len(),
{
    if texts.len() == 0 {
        Seq::empty()
    } else if texts.len() == 1 {
        texts[0]
    } else {
        join_with(texts.drop_last(), sep) + sep + texts.last()
    }
}

/// The characters of each string of `v`.
pub open spec fn texts_view(v: Seq<String>) -> Seq<Seq<char>> {
    v.map_values(|t: String| t@)
}

impl<T> LinkedList<T> {
    /// The list written as `Linked List: {v1, v2, v3}`, where `texts` are
    /// its values written out, front first.
    pub fn build_string(texts: &Vec<String>) -> (s: String)
        ensures
            s@ == "Linked List: {"@ + join_with(texts_view(texts@), ", "@) + "}"@,
    {
        let ghost ts = texts_view(texts@);
        let mut output = "Linked List: {".to_owned();
        let ghost start = output@;
        let mut i: usize = 0;
        while i < texts.len()
            invariant
                i <= texts@.len(),
                ts == texts_view(texts@),
                start == "Linked List: {"@,
                output@ == start + join_with(ts.take(i as int), ", "@),
            decreases texts.len() - i,
        {
            let ghost before = output@;
            assert(ts.take(i + 1).drop_last() =~= ts.take(i as int));
            assert(ts.take(i + 1).last() == texts@[i as int]@);
            if i > 0 {
                push_str(&mut output, ", ");
            }
            push_str(&mut output, texts[i].as_str());
            proof {
                if i == 0 {
                    assert(ts.take(0) =~= Seq::<Seq<char>>::empty());
                    assert(ts.take(1).len() == 1);
                }
            }
            assert(output@ =~= start + join_with(ts.take(i + 1), ", "@));
            i += 1;
        }
        assert(ts.take(texts.len() as int) =~= ts);
        push_str(&mut output, "}");
        output
    }
}

impl<T: Clone> Clone for LinkedList<T> {
    /// A copy of the list, each value copied by its own `clone`.
    fn clone(&self) -> (res: Self)
        ensures
            res@.len() == self@.len(),
            forall|i: int| 0 <= i < self@.len() ==> cloned::<T>(self@[i], #[trigger] res@[i]),
    {
        proof {
            use_type_invariant(self);
        }
        let head = match &self.head {
            Some(n) => {
                let c = (&**n).clone();
                Some(Box::new(c))
            },
            None => None,
        };
        LinkedList { head, len: self.len }
    }
}

impl<T: PartialEq> LinkedList<T> {
    /// The index of the first value equal to `value`, if any.
    pub fn find(&self, value: &T) -> (r: Option<usize>)
        ensures
            T::obeys_eq_spec() ==> match r {
                Some(i) => i < self@.len() && self@[i as int].eq_spec(value) && forall|j: int|
                    0 <= j < i ==> !(#[trigger] self@[j]).eq_spec(value),
                None => forall|j: int| 0 <= j < self@.len() ==> !(#[trigger] self@[j]).eq_spec(value),
            },
    {
        let mut it = self.iter();
        let mut i: usize = 0;
        while i < self.len()
            invariant
                i <= self@.len(),
                it@ == self@.skip(i as int),
                T::obeys_eq_spec() ==> forall|j: int| 0 <= j < i ==> !(#[trigger] self@[j]).eq_spec(value),
            decreases self@.len() - i,
        {
            proof { use_type_invariant(self); }
            let next = it.next();
            assert(self@.skip(i as int).drop_first() =~= self@.skip(i + 1));
            match next {
                Some(v) => {
                    if *v == *value {
                        return Some(i);
                    }
                },
                None => {},
            }
            i += 1;
        }
        None
    }
}

/// An iterator over the values of a `LinkedList`, front first.
pub struct Iter<'a, T> {
    next_node: Option<&'a Node<T>>,
}

impl<'a, T> View for Iter<'a, T> {
    type V = Seq<T>;

    /// The values not yet returned.
    closed spec fn view(&self) -> Seq<T> {
        match self.next_node {
            Some(n) => n.values(),
            None => Seq::empty(),
        }
    }
}

impl<'a, T> Iter<'a, T> {
    /// The next value, if any.
    pub fn next(&mut self) -> (r: Option<&'a T>)
        ensures
            old(self)@.len() > 0 ==> r == Some(&old(self)@[0]) && final(self)@ == old(self)@.drop_first(),
            old(self)@.len() == 0 ==> r is None && final(self)@ == old(self)@,
    {
        match self.next_node {
            Some(node) => {
                self.next_node = node.peek_next();
                proof {
                    assert(node.values().drop_first() =~= Node::chain(node.next));
                }
                Some(&node.value)
            },
            None => None,
        }
    }
}

} // verus!

verus! {

// ---------------------------------------------------------------------------
// Laws of the list, stated over its view
// ---------------------------------------------------------------------------

/// `remove` right after `add` gives back the value added and leaves the list
/// as it was; `peek` in between sees that value, and `len` grew by one.
pub proof fn law_remove_after_add<T>(before: Seq<T>, value: T)
    ensures
        (seq![value] + before).len() == before.len() + 1,
        (seq![value] + before)[0] == value,
        (seq![value] + before).drop_first() == before,
{
    assert((seq![value] + before).drop_first() =~= before);
}

/// After `append`, `peek_back` sees the value appended and `len` grew by one.
pub proof fn law_peek_back_after_append<T>(before: Seq<T>, value: T)
    ensures
        before.push(value).len() == before.len() + 1,
        before.push(value).last() == value,
{
}

/// The list is a queue when values go in with `append` and out with
/// `remove`: on a non-empty list the two commute, so values come out in the
/// order they went in.
pub proof fn law_append_remove_commute<T>(before: Seq<T>, value: T)
    requires
        before.len() > 0,
    ensures
        before.push(value)[0] == before[0],
        before.push(value).drop_first() == before.drop_first().push(value),
{
    assert(before.push(value).drop_first() =~= before.drop_first().push(value));
}

/// `replace` changes only the value at its index.
pub proof fn law_replace_keeps_others<T>(before: Seq<T>, index: int, value: T, other: int)
    requires
        0 <= index < before.len(),
        0 <= other < before.len(),
    ensures
        before.update(index, value)[index] == value,
        other != index ==> before.update(index, value)[other] == before[other],
        before.update(index, value).len() == before.len(),
{
}

} // verus!
