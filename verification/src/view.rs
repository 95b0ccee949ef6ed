//! A read-only cursor bound to one element of a list.

use vstd::prelude::*;
use vstd::view::View as VstdView;

use crate::VecList;

verus! {

/// A read-only handle on one element of a [`VecList`]; moving it creates a
/// new handle rather than changing this one.
pub struct View<'a, T> {
    /// The list the handle is bound into.
    list: &'a VecList<T>,
    /// The slot of the element the handle is bound to.
    slot: usize,
    /// The position of that element.
    pos: Ghost<int>,
}

impl<'a, T> View<'a, T> {
    /// The list the handle is bound into.
    pub closed spec fn list(&self) -> &'a VecList<T> {
        self.list
    }

    /// The position of the element the handle is bound to.
    pub closed spec fn position(&self) -> int {
        self.pos@
    }

    /// The handle is consistent with its list: it is bound to the slot that
    /// holds the element at its position.
    pub closed spec fn valid(&self) -> bool {
        &&& self.list.wf()
        &&& 0 <= self.pos@ < self.list@.len()
        &&& self.slot == self.list.chain()[self.pos@]
    }

    /// Returns a handle on the next element, or `None` at the back boundary.
    pub fn next(&self) -> (r: Option<View<'a, T>>)
        requires
            self.valid(),
        ensures
            match r {
                None => self.position() + 1 == self.list()@.len(),
                Some(v) => {
                    &&& self.position() + 1 < self.list()@.len()
                    &&& v.valid()
                    &&& v.list() == self.list()
                    &&& v.position() == self.position() + 1
                },
            },
    {
        match self.list.next_slot(self.slot, Ghost(self.pos@)) {
            None => None,
            Some(nx) => Some(View { list: self.list, slot: nx, pos: Ghost(self.pos@ + 1) }),
        }
    }

    /// Returns a handle on the previous element, or `None` at the front
    /// boundary.
    pub fn prev(&self) -> (r: Option<View<'a, T>>)
        requires
            self.valid(),
        ensures
            match r {
                None => self.position() == 0,
                Some(v) => {
                    &&& self.position() > 0
                    &&& v.valid()
                    &&& v.list() == self.list()
                    &&& v.position() == self.position() - 1
                },
            },
    {
        match self.list.prev_slot(self.slot, Ghost(self.pos@)) {
            None => None,
            Some(pv) => Some(View { list: self.list, slot: pv, pos: Ghost(self.pos@ - 1) }),
        }
    }

    /// Borrows the element the handle is bound to.
    pub fn value(&self) -> (r: &'a T)
        requires
            self.valid(),
        ensures
            *r == self.list()@[self.position()],
    {
        self.list.value_at(self.slot, Ghost(self.pos@))
    }

    /// Consumes the handle into a borrow of the element it is bound to.
    pub fn as_ref(self) -> (r: &'a T)
        requires
            self.valid(),
        ensures
            *r == self.list()@[self.position()],
    {
        self.list.value_at(self.slot, Ghost(self.pos@))
    }
}

/// Creates a read-only handle on the element of `list` at `index`.
pub fn new_view<'a, T>(list: &'a VecList<T>, index: usize) -> (r: View<'a, T>)
    requires
        list.wf(),
        index < list@.len(),
    ensures
        r.valid(),
        r.list() == list,
        r.position() == index,
{
    View { list, slot: list.ptr(index), pos: Ghost(index as int) }
}

impl<T> VecList<T> {
    /// Returns a read-only handle on the element at `index`, which must be in
    /// range.
    pub fn view_at<'a>(&'a self, index: usize) -> (r: View<'a, T>)
        requires
            self.wf(),
            index < self@.len(),
        ensures
            r.valid(),
            r.list() == self,
            r.position() == index,
    {
        new_view(self, index)
    }
}

} // verus!
