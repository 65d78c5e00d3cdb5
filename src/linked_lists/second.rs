//! A generic singly-linked stack whose links are `Option<Box<_>>`.

use vstd::prelude::*;

verus! {

/// A stack of `T` values; its view lists them from the top down.
pub struct List<T> {
    head: Link<T>,
}

type Link<T> = Option<Box<Node<T>>>;

struct Node<T> {
    elem: T,
    next: Link<T>,
}

spec fn link_view<T>(link: Link<T>) -> Seq<T>
    decreases link,
{
    match link {
        None => Seq::empty(),
        Some(node) => seq![node.elem] + link_view(node.next),
    }
}

impl<T> View for List<T> {
    type V = Seq<T>;

    closed spec fn view(&self) -> Seq<T> {
        link_view(self.head)
    }
}

impl<T> List<T> {
    /// An empty stack.
    pub fn new() -> (r: Self)
        ensures
            r@ == Seq::<T>::empty(),
    {
        List { head: None }
    }

    /// Puts `value` on top.
    pub fn push(&mut self, value: T)
        ensures
            final(self)@ == seq![value] + old(self)@,
    {
        let node = Node { elem: value, next: self.head.take() };
        self.head = Some(Box::new(node));
    }

    /// Takes the top value off, or returns `None` on an empty stack.
    pub fn pop(&mut self) -> (r: Option<T>)
        ensures
            old(self)@.len() == 0 ==> r is None && final(self)@ == old(self)@,
            old(self)@.len() > 0 ==> r == Some(old(self)@[0]) && final(self)@ == old(self)@.drop_first(),
    {
        match self.head.take() {
            None => None,
            Some(node) => {
                let node = *node;
                self.head = node.next;
                assert(seq![node.elem] + self@ =~= old(self)@);
                Some(node.elem)
            },
        }
    }

    /// Detaches the top node, leaving its successor at the head.
    fn pop_node(&mut self) -> (r: Link<T>)
        ensures
            old(self)@.len() == 0 ==> r is None && final(self)@ == old(self)@,
            old(self)@.len() > 0 ==> r is Some && final(self)@ == old(self)@.drop_first(),
        opens_invariants none
        no_unwind
    {
        let mut head: Link<T> = None;
        std::mem::swap(&mut self.head, &mut head);
        match head {
            None => None,
            Some(mut node) => {
                let mut next: Link<T> = None;
                std::mem::swap(&mut node.next, &mut next);
                self.head = next;
                assert(seq![node.elem] + self@ =~= old(self)@);
                Some(node)
            },
        }
    }

    /// The top value, if any, left in place.
    pub fn peek(&self) -> (r: Option<&T>)
        ensures
            match r {
                Some(x) => self@.len() > 0 && *x == self@[0],
                None => self@.len() == 0,
            },
    {
        match &self.head {
            Some(node) => Some(&node.elem),
            None => None,
        }
    }
}

impl<T> Drop for List<T> {
    /// Frees the nodes one at a time, so that a long list does not recurse.
    fn drop(&mut self)
        opens_invariants none
        no_unwind
    {
        loop
            decreases self@.len(),
        {
            match self.pop_node() {
                None => break,
                Some(_) => {},
            }
        }
    }
}

} // verus!
