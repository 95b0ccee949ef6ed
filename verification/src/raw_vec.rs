//! The arena's backing buffer: a growable block of slots together with the
//! deterministic capacity bookkeeping that the list's reservation API exposes.
//!
//! Growth policy: `reserve_exact` adds exactly the requested headroom on top of
//! the current capacity, while `reserve` at least doubles, so that repeated
//! single-slot growth stays amortized constant.

use vstd::prelude::*;

verus! {

/// A growable buffer of `T` slots with an explicitly tracked capacity.
#[derive(Clone)]
pub struct RawVec<T> {
    /// The slots currently in use, in slot-index order.
    buf: Vec<T>,
    /// The reserved capacity, always at least `buf.len()`.
    cap: usize,
}

impl<T> View for RawVec<T> {
    type V = Seq<T>;

    closed spec fn view(&self) -> Seq<T> {
        self.buf@
    }
}

/// The capacity `reserve` grows to when `used` slots are needed and only
/// `cap` are reserved: the doubled capacity, saturated at `usize::MAX`, but at
/// least `used`.
pub open spec fn grown_cap(cap: usize, used: usize) -> int {
    let doubled: int = if 2 * cap > usize::MAX { usize::MAX as int } else { 2 * cap };
    if doubled > used {
        doubled
    } else {
        used as int
    }
}

impl<T> RawVec<T> {
    /// The buffer is consistent: no more slots are in use than are reserved.
    pub closed spec fn wf(&self) -> bool {
        self.buf@.len() <= self.cap
    }

    /// The reserved capacity, in slots.
    pub closed spec fn spec_cap(&self) -> usize {
        self.cap
    }

    /// A consistent buffer holds at most `spec_cap` slots, and so never more
    /// than `usize::MAX` of them.
    pub proof fn lemma_len_le_cap(&self)
        requires
            self.wf(),
        ensures
            self@.len() <= self.spec_cap(),
    {
    }

    /// Creates an empty buffer with `cap` slots reserved.
    pub fn with_capacity(cap: usize) -> (r: Self)
        ensures
            r.wf(),
            r@ == Seq::<T>::empty(),
            r.spec_cap() == cap,
    {
        RawVec { buf: Vec::with_capacity(cap), cap }
    }

    /// Returns the reserved capacity.
    pub fn cap(&self) -> (r: usize)
        ensures
            r == self.spec_cap(),
    {
        self.cap
    }

    /// Returns the number of slots in use.
    pub fn len(&self) -> (r: usize)
        ensures
            r == self@.len(),
    {
        self.buf.len()
    }

    /// Reserves room for exactly `additional` slots beyond the `used_cap`
    /// already accounted for; grows by precisely `additional` when short.
    pub fn reserve_exact(&mut self, used_cap: usize, additional: usize)
        requires
            old(self).wf(),
            used_cap + additional <= usize::MAX,
            used_cap + additional > old(self).spec_cap() ==> old(self).spec_cap() + additional
                <= usize::MAX,
            old(self)@.len() <= used_cap,
        ensures
            final(self).wf(),
            final(self)@ == old(self)@,
            final(self).spec_cap() == if used_cap + additional > old(self).spec_cap() {
                old(self).spec_cap() + additional
            } else {
                old(self).spec_cap() as int
            },
    {
        let used: usize = used_cap + additional;
        if used > self.cap {
            let new_cap: usize = self.cap + additional;
            let extra: usize = new_cap - self.buf.len();
            self.buf.reserve(extra);
            self.cap = new_cap;
        }
    }

    /// Reserves room for at least `additional` slots beyond the `used_cap`
    /// already accounted for; grows by at least doubling when short.
    pub fn reserve(&mut self, used_cap: usize, additional: usize)
        requires
            old(self).wf(),
            used_cap + additional <= usize::MAX,
            old(self)@.len() <= used_cap,
        ensures
            final(self).wf(),
            final(self)@ == old(self)@,
            final(self).spec_cap() == if used_cap + additional > old(self).spec_cap() {
                grown_cap(old(self).spec_cap(), (used_cap + additional) as usize)
            } else {
                old(self).spec_cap() as int
            },
    {
        let used: usize = used_cap + additional;
        if used > self.cap {
            let doubled: usize = if self.cap > usize::MAX / 2 {
                usize::MAX
            } else {
                self.cap * 2
            };
            let new_cap: usize = if doubled > used {
                doubled
            } else {
                used
            };
            let extra: usize = new_cap - self.buf.len();
            self.buf.reserve(extra);
            self.cap = new_cap;
        }
    }

    /// Appends a slot into already reserved space.
    pub fn push(&mut self, value: T)
        requires
            old(self)@.len() < old(self).spec_cap(),
        ensures
            final(self).wf(),
            final(self)@ == old(self)@.push(value),
            final(self).spec_cap() == old(self).spec_cap(),
    {
        self.buf.push(value);
    }

    /// Borrows the slot at `i`.
    pub fn get(&self, i: usize) -> (r: &T)
        requires
            i < self@.len(),
        ensures
            *r == self@[i as int],
    {
        &self.buf[i]
    }

    /// Mutably borrows the slot at `i`.
    pub fn get_mut(&mut self, i: usize) -> (r: &mut T)
        requires
            i < old(self)@.len(),
        ensures
            *r == old(self)@[i as int],
            final(self)@ == old(self)@.update(i as int, *final(r)),
            final(self).spec_cap() == old(self).spec_cap(),
            final(self).wf() == old(self).wf(),
    {
        &mut self.buf[i]
    }

    /// Drops every slot at index `len` or above and releases the excess
    /// capacity, leaving exactly `len` slots reserved.
    pub fn truncate(&mut self, len: usize)
        requires
            len <= old(self)@.len(),
        ensures
            final(self).wf(),
            final(self)@ == old(self)@.subrange(0, len as int),
            final(self).spec_cap() == len,
    {
        self.buf.truncate(len);
        self.cap = len;
    }
}

} // verus!
