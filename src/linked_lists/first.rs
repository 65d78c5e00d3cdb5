//! A singly-linked stack of `i32` values, and the naive recursive list shape
//! that it improves on.

use vstd::prelude::*;

verus! {

/// A list written as a plain recursive enum: the first element lives inline
/// and every cell, the last one included, carries a payload slot.
pub enum BadList {
    Empty,
    Elem(i32, Box<BadList>),
}

impl BadList {
    /// The values of the list, first to last.
    pub open spec fn elems(&self) -> Seq<i32>
        decreases self,
    {
        match self {
            BadList::Empty => Seq::empty(),
            BadList::Elem(x, rest) => seq![*x] + rest.elems(),
        }
    }
}

/// A stack of `i32` values; its view lists them from the top down.
pub struct List {
    head: Link,
}

enum Link {
    Empty,
    More(Box<Node>),
}

struct Node {
    elem: i32,
    next: Link,
}

impl Link {
    spec fn view(&self) -> Seq<i32>
        decreases self,
    {
        match self {
            Link::Empty => Seq::empty(),
            Link::More(node) => seq![node.elem] + node.next.view(),
        }
    }
}

impl View for List {
    type V = Seq<i32>;

    closed spec fn view(&self) -> Seq<i32> {
        self.head.view()
    }
}

impl List {
    /// An empty stack.
    pub fn new() -> (r: Self)
        ensures
            r@ == Seq::<i32>::empty(),
    {
        List { head: Link::Empty }
    }

    /// Puts `elem` on top.
    pub fn push(&mut self, value: i32)
        ensures
            final(self)@ == seq![value] + old(self)@,
    {
        let mut next = Link::Empty;
        std::mem::swap(&mut self.head, &mut next);
        let node = Node { elem: value, next };
        self.head = Link::More(Box::new(node));
    }

    /// Takes the top value off, or returns `None` on an empty stack.
    pub fn pop(&mut self) -> (r: Option<i32>)
        ensures
            old(self)@.len() == 0 ==> r is None && final(self)@ == old(self)@,
            old(self)@.len() > 0 ==> r == Some(old(self)@[0]) && final(self)@ == old(self)@.drop_first(),
    {
        let mut head = Link::Empty;
        std::mem::swap(&mut self.head, &mut head);
        match head {
            Link::Empty => None,
            Link::More(node) => {
                let node = *node;
                self.head = node.next;
                assert(seq![node.elem] + self@ =~= old(self)@);
                Some(node.elem)
            },
        }
    }

    /// Detaches the top node, leaving its successor at the head.
    fn pop_node(&mut self) -> (r: Link)
        ensures
            old(self)@.len() == 0 ==> r is Empty && final(self)@ == old(self)@,
            old(self)@.len() > 0 ==> r is More && final(self)@ == old(self)@.drop_first(),
        opens_invariants none
        no_unwind
    {
        let mut head = Link::Empty;
        std::mem::swap(&mut self.head, &mut head);
        match head {
            Link::Empty => Link::Empty,
            Link::More(mut node) => {
                let mut next = Link::Empty;
                std::mem::swap(&mut node.next, &mut next);
                self.head = next;
                assert(seq![node.elem] + self@ =~= old(self)@);
                Link::More(node)
            },
        }
    }
}

impl Drop for List {
    /// Frees the nodes one at a time, so that a long list does not recurse.
    fn drop(&mut self)
        opens_invariants none
        no_unwind
    {
        loop
            decreases self@.len(),
        {
            match self.pop_node() {
                Link::Empty => break,
                Link::More(_) => {},
            }
        }
    }
}

} // verus!
