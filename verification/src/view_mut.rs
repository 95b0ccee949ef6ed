//! A mutating cursor bound to one element of a list: constant-time edits on
//! either side of the element, without re-traversal.

use vstd::prelude::*;

use crate::VecList;

verus! {

/// A mutating handle on one element of a [`VecList`]; each operation borrows
/// the list the handle was created from.
pub struct ViewMut<T> {
    /// The slot of the element the handle is bound to.
    slot: usize,
    /// The position of that element.
    pos: Ghost<int>,
    /// The element type the handle points at.
    marker: core::marker::PhantomData<T>,
}

impl<T> ViewMut<T> {
    /// The position of the element the handle is bound to.
    pub closed spec fn position(&self) -> int {
        self.pos@
    }

    /// The handle is consistent with `list`: it is bound to the slot that
    /// holds the element at its position.
    pub closed spec fn valid(&self, list: VecList<T>) -> bool {
        &&& list.wf()
        &&& 0 <= self.pos@ < list@.len()
        &&& self.slot == list.chain()[self.pos@]
    }

    /// Moves the handle to the next element; at the back boundary it stays
    /// put and reports failure.
    pub fn next(&mut self, list: &VecList<T>) -> (r: bool)
        requires
            old(self).valid(*list),
        ensures
            final(self).valid(*list),
            r == (old(self).position() + 1 < list@.len()),
            r ==> final(self).position() == old(self).position() + 1,
            !r ==> *final(self) == *old(self),
    {
        match list.next_slot(self.slot, Ghost(self.pos@)) {
            None => false,
            Some(nx) => {
                self.slot = nx;
                proof {
                    self.pos@ = self.pos@ + 1;
                }
                true
            },
        }
    }

    /// Moves the handle to the previous element; at the front boundary it
    /// stays put and reports failure.
    pub fn prev(&mut self, list: &VecList<T>) -> (r: bool)
        requires
            old(self).valid(*list),
        ensures
            final(self).valid(*list),
            r == (old(self).position() > 0),
            r ==> final(self).position() == old(self).position() - 1,
            !r ==> *final(self) == *old(self),
    {
        match list.prev_slot(self.slot, Ghost(self.pos@)) {
            None => false,
            Some(pv) => {
                self.slot = pv;
                proof {
                    self.pos@ = self.pos@ - 1;
                }
                true
            },
        }
    }

    /// Borrows the element the handle is bound to.
    pub fn value<'a>(&self, list: &'a VecList<T>) -> (r: &'a T)
        requires
            self.valid(*list),
        ensures
            *r == list@[self.position()],
    {
        list.value_at(self.slot, Ghost(self.pos@))
    }

    /// Consumes the handle into a mutable borrow of the element it is bound
    /// to; only that element of the list can change through the borrow.
    pub fn as_mut<'a>(self, list: &'a mut VecList<T>) -> (r: &'a mut T)
        requires
            self.valid(*old(list)),
        ensures
            final(list).wf(),
            *r == old(list)@[self.position()],
            final(list)@ == old(list)@.update(self.position(), *final(r)),
            final(list).spec_capacity() == old(list).spec_capacity(),
            final(list).spec_node_count() == old(list).spec_node_count(),
    {
        list.value_at_mut(self.slot, Ghost(self.pos@))
    }

    /// Splices `value` in directly before the handle's element; the handle
    /// stays on its element, whose position moves up by one.
    pub fn insert_before(&mut self, list: &mut VecList<T>, value: T)
        requires
            old(self).valid(*old(list)),
            old(list)@.len() < usize::MAX,
        ensures
            final(list).wf(),
            final(list)@ == old(list)@.insert(old(self).position(), value),
            final(self).valid(*final(list)),
            final(self).position() == old(self).position() + 1,
            final(list).spec_capacity() >= old(list).spec_capacity(),
    {
        let ghost pos = self.pos@;
        let left = list.prev_slot(self.slot, Ghost(pos));
        let slot = list.splice_at(value, left, Some(self.slot), Ghost(pos));
        proof {
            self.pos@ = self.pos@ + 1;
            old(list).chain().insert_ensures(pos, slot);
        }
    }

    /// Splices `value` in directly after the handle's element; the handle
    /// stays on its element, at its old position.
    pub fn insert_after(&mut self, list: &mut VecList<T>, value: T)
        requires
            old(self).valid(*old(list)),
            old(list)@.len() < usize::MAX,
        ensures
            final(list).wf(),
            final(list)@ == old(list)@.insert(old(self).position() + 1, value),
            final(self).valid(*final(list)),
            final(self).position() == old(self).position(),
            final(list).spec_capacity() >= old(list).spec_capacity(),
    {
        let ghost pos = self.pos@;
        let right = list.next_slot(self.slot, Ghost(pos));
        let slot = list.splice_at(value, Some(self.slot), right, Ghost(pos + 1));
        proof {
            old(list).chain().insert_ensures(pos + 1, slot);
        }
    }

    /// Removes and returns the element directly before the handle's element,
    /// if any; the handle stays on its element, whose position moves down.
    pub fn pop_before(&mut self, list: &mut VecList<T>) -> (r: Option<T>)
        requires
            old(self).valid(*old(list)),
        ensures
            final(list).wf(),
            final(self).valid(*final(list)),
            final(list).spec_capacity() == old(list).spec_capacity(),
            match r {
                None => {
                    &&& old(self).position() == 0
                    &&& *final(list) == *old(list)
                    &&& *final(self) == *old(self)
                },
                Some(v) => {
                    &&& old(self).position() > 0
                    &&& v == old(list)@[old(self).position() - 1]
                    &&& final(list)@ == old(list)@.remove(old(self).position() - 1)
                    &&& final(self).position() == old(self).position() - 1
                },
            },
    {
        let ghost pos = self.pos@;
        match list.prev_slot(self.slot, Ghost(pos)) {
            None => None,
            Some(pv) => {
                let v = list.unlink_at(pv, Ghost(pos - 1));
                proof {
                    self.pos@ = self.pos@ - 1;
                    old(list).chain().remove_ensures(pos - 1);
                }
                Some(v)
            },
        }
    }

    /// Removes and returns the element directly after the handle's element,
    /// if any; the handle stays on its element, at its old position.
    pub fn pop_after(&mut self, list: &mut VecList<T>) -> (r: Option<T>)
        requires
            old(self).valid(*old(list)),
        ensures
            final(list).wf(),
            final(self).valid(*final(list)),
            final(list).spec_capacity() == old(list).spec_capacity(),
            match r {
                None => {
                    &&& old(self).position() + 1 == old(list)@.len()
                    &&& *final(list) == *old(list)
                    &&& *final(self) == *old(self)
                },
                Some(v) => {
                    &&& old(self).position() + 1 < old(list)@.len()
                    &&& v == old(list)@[old(self).position() + 1]
                    &&& final(list)@ == old(list)@.remove(old(self).position() + 1)
                    &&& final(self).position() == old(self).position()
                },
            },
    {
        let ghost pos = self.pos@;
        match list.next_slot(self.slot, Ghost(pos)) {
            None => None,
            Some(nx) => {
                let v = list.unlink_at(nx, Ghost(pos + 1));
                proof {
                    old(list).chain().remove_ensures(pos + 1);
                }
                Some(v)
            },
        }
    }

    /// Consumes the handle, unlinking its element from the list and returning
    /// the value.
    pub fn delete(self, list: &mut VecList<T>) -> (r: T)
        requires
            self.valid(*old(list)),
        ensures
            final(list).wf(),
            r == old(list)@[self.position()],
            final(list)@ == old(list)@.remove(self.position()),
            final(list).spec_capacity() == old(list).spec_capacity(),
    {
        list.unlink_at(self.slot, Ghost(self.pos@))
    }
}

/// Creates a mutating handle on the element of `list` at `index`.
pub fn new_view_mut<T>(list: &VecList<T>, index: usize) -> (r: ViewMut<T>)
    requires
        list.wf(),
        index < list@.len(),
    ensures
        r.valid(*list),
        r.position() == index,
{
    ViewMut { slot: list.ptr(index), pos: Ghost(index as int), marker: core::marker::PhantomData }
}

impl<T> VecList<T> {
    /// Returns a mutating handle on the element at `index`, which must be in
    /// range.
    pub fn view_mut(&self, index: usize) -> (r: ViewMut<T>)
        requires
            self.wf(),
            index < self@.len(),
        ensures
            r.valid(*self),
            r.position() == index,
    {
        new_view_mut(self, index)
    }
}

} // verus!
