//! A single arena slot: a value that is present exactly while the slot is on
//! the active chain, plus the slot indices of its chain neighbours.

use vstd::prelude::*;

verus! {

/// One slot of the arena backing a [`crate::VecList`].
///
/// While the slot belongs to the active chain, `value` is `Some` and `prev` /
/// `next` hold the neighbouring slot indices. While the slot sits on the free
/// list, `value` is `None` and `next` links to the next free slot.
#[derive(Clone)]
pub struct Node<T> {
    /// The stored value, present exactly while the slot is live.
    pub value: Option<T>,
    /// The slot index of the previous node on the chain, if any.
    pub prev: Option<usize>,
    /// The slot index of the next node on the chain, if any.
    pub next: Option<usize>,
}

impl<T> Node<T> {
    /// Creates a fresh, unlinked node holding `value`.
    pub fn new(value: T) -> (r: Self)
        ensures
            r.value == Some(value),
            r.prev is None,
            r.next is None,
    {
        Node { value: Some(value), prev: None, next: None }
    }

    /// Returns the previous slot index; the node must have a predecessor.
    pub fn prev(&self) -> (r: usize)
        requires
            self.prev is Some,
        ensures
            Some(r) == self.prev,
    {
        match self.prev {
            Some(p) => p,
            None => vstd::pervasive::unreached(),
        }
    }

    /// Returns the next slot index; the node must have a successor.
    pub fn next(&self) -> (r: usize)
        requires
            self.next is Some,
        ensures
            Some(r) == self.next,
    {
        match self.next {
            Some(n) => n,
            None => vstd::pervasive::unreached(),
        }
    }

    /// Takes the successor link out of the node.
    pub fn pop_next(&mut self) -> (r: Option<usize>)
        ensures
            r == old(self).next,
            final(self).next is None,
            final(self).prev == old(self).prev,
            final(self).value == old(self).value,
    {
        self.next.take()
    }

    /// Takes the predecessor link out of the node.
    pub fn pop_prev(&mut self) -> (r: Option<usize>)
        ensures
            r == old(self).prev,
            final(self).prev is None,
            final(self).next == old(self).next,
            final(self).value == old(self).value,
    {
        self.prev.take()
    }

    /// Pushes this node onto a free stack whose current head is `next`.
    pub fn stack_push(&mut self, next: usize)
        ensures
            final(self).next == Some(next),
            final(self).prev == old(self).prev,
            final(self).value == old(self).value,
    {
        self.next = Some(next);
    }

    /// Pops this node off the head of a free stack, returning the new head.
    pub fn stack_pop(&mut self) -> (r: Option<usize>)
        ensures
            r == old(self).next,
            final(self).next is None,
            final(self).prev == old(self).prev,
            final(self).value == old(self).value,
    {
        self.next.take()
    }
}

} // verus!
