//! Read-only and mutating iterators over a list: each captures the inclusive
//! slot range still to visit and walks it from either end.

use vstd::prelude::*;

use crate::VecList;

verus! {

/// A read-only iterator over a [`VecList`], double ended.
pub struct Iter<'a, T> {
    /// The list being iterated over.
    list: &'a VecList<T>,
    /// The slots of the first and last element still to visit; `None` when
    /// the iterator is exhausted.
    ends: Option<(usize, usize)>,
    /// The position of the first element still to visit.
    lo: Ghost<int>,
    /// The position just past the last element still to visit.
    hi: Ghost<int>,
}

impl<'a, T> Iter<'a, T> {
    /// The list being iterated over.
    pub closed spec fn list(&self) -> &'a VecList<T> {
        self.list
    }

    /// The position of the first element still to visit.
    pub closed spec fn start_pos(&self) -> int {
        self.lo@
    }

    /// The position just past the last element still to visit.
    pub closed spec fn end_pos(&self) -> int {
        self.hi@
    }

    /// The iterator is consistent with its list: the positions still to
    /// visit lie within the list, and `ends` names their boundary slots.
    pub closed spec fn valid(&self) -> bool {
        &&& self.list.wf()
        &&& 0 <= self.lo@ <= self.hi@ <= self.list@.len()
        &&& if self.lo@ < self.hi@ {
            self.ends == Some((self.list.chain()[self.lo@], self.list.chain()[self.hi@ - 1]))
        } else {
            self.ends is None
        }
    }

    /// Yields the front element of the remaining range and advances past it.
    pub fn next(&mut self) -> (r: Option<&'a T>)
        requires
            old(self).valid(),
        ensures
            final(self).valid(),
            final(self).list() == old(self).list(),
            final(self).end_pos() == old(self).end_pos(),
            match r {
                None => {
                    &&& old(self).start_pos() == old(self).end_pos()
                    &&& final(self).start_pos() == old(self).start_pos()
                },
                Some(v) => {
                    &&& old(self).start_pos() < old(self).end_pos()
                    &&& *v == old(self).list()@[old(self).start_pos()]
                    &&& final(self).start_pos() == old(self).start_pos() + 1
                },
            },
    {
        match self.ends {
            None => None,
            Some((front, back)) => {
                proof {
                    self.list.lemma_chain_distinct();
                }
                let v = self.list.value_at(front, Ghost(self.lo@));
                if front == back {
                    self.ends = None;
                } else {
                    let nx = match self.list.next_slot(front, Ghost(self.lo@)) {
                        Some(nx) => nx,
                        None => vstd::pervasive::unreached(),
                    };
                    self.ends = Some((nx, back));
                }
                proof {
                    self.lo@ = self.lo@ + 1;
                }
                Some(v)
            },
        }
    }

    /// Yields the back element of the remaining range and retreats past it.
    pub fn next_back(&mut self) -> (r: Option<&'a T>)
        requires
            old(self).valid(),
        ensures
            final(self).valid(),
            final(self).list() == old(self).list(),
            final(self).start_pos() == old(self).start_pos(),
            match r {
                None => {
                    &&& old(self).start_pos() == old(self).end_pos()
                    &&& final(self).end_pos() == old(self).end_pos()
                },
                Some(v) => {
                    &&& old(self).start_pos() < old(self).end_pos()
                    &&& *v == old(self).list()@[old(self).end_pos() - 1]
                    &&& final(self).end_pos() == old(self).end_pos() - 1
                },
            },
    {
        match self.ends {
            None => None,
            Some((front, back)) => {
                proof {
                    self.list.lemma_chain_distinct();
                }
                let v = self.list.value_at(back, Ghost(self.hi@ - 1));
                if front == back {
                    self.ends = None;
                } else {
                    let pv = match self.list.prev_slot(back, Ghost(self.hi@ - 1)) {
                        Some(pv) => pv,
                        None => vstd::pervasive::unreached(),
                    };
                    self.ends = Some((front, pv));
                }
                proof {
                    self.hi@ = self.hi@ - 1;
                }
                Some(v)
            },
        }
    }

    /// Counts the elements still to visit by walking the remaining range.
    pub fn remaining(&self) -> (r: usize)
        requires
            self.valid(),
        ensures
            r == self.end_pos() - self.start_pos(),
    {
        match self.ends {
            None => 0,
            Some((front, back)) => {
                proof {
                    self.list.lemma_chain_distinct();
                    self.list.lemma_len_bound();
                }
                let mut node = front;
                let mut count: usize = 1;
                let ghost mut pos: int = self.lo@;
                while node != back
                    invariant
                        self.valid(),
                        self.lo@ < self.hi@,
                        self.lo@ <= pos < self.hi@,
                        node == self.list.chain()[pos],
                        back == self.list.chain()[self.hi@ - 1],
                        count == pos - self.lo@ + 1,
                        count <= self.list@.len(),
                        self.list.chain().no_duplicates(),
                        self.list.chain().len() == self.list@.len(),
                        self.list@.len() <= usize::MAX,
                    decreases self.hi@ - pos,
                {
                    node = match self.list.next_slot(node, Ghost(pos)) {
                        Some(nx) => nx,
                        None => vstd::pervasive::unreached(),
                    };
                    count = count + 1;
                    proof {
                        pos = pos + 1;
                    }
                }
                count
            },
        }
    }
}

/// Creates a read-only iterator over the whole of `list`.
pub fn new_iter<'a, T>(list: &'a VecList<T>) -> (r: Iter<'a, T>)
    requires
        list.wf(),
    ensures
        r.valid(),
        r.list() == list,
        r.start_pos() == 0,
        r.end_pos() == list@.len(),
{
    let ends = match list.get_ends() {
        None => None,
        Some((_, head, tail)) => Some((head, tail)),
    };
    Iter { list, ends, lo: Ghost(0), hi: Ghost(list@.len() as int) }
}

/// A mutating iterator over a [`VecList`], double ended; each step borrows
/// the list it was created from.
pub struct IterMut<T> {
    /// The slots of the first and last element still to visit; `None` when
    /// the iterator is exhausted.
    ends: Option<(usize, usize)>,
    /// The position of the first element still to visit.
    lo: Ghost<int>,
    /// The position just past the last element still to visit.
    hi: Ghost<int>,
    /// The element type the iterator walks over.
    marker: core::marker::PhantomData<T>,
}

impl<T> IterMut<T> {
    /// The position of the first element still to visit.
    pub closed spec fn start_pos(&self) -> int {
        self.lo@
    }

    /// The position just past the last element still to visit.
    pub closed spec fn end_pos(&self) -> int {
        self.hi@
    }

    /// The iterator is consistent with `list`: the positions still to visit
    /// lie within it, and `ends` names their boundary slots.
    pub closed spec fn valid(&self, list: VecList<T>) -> bool {
        &&& list.wf()
        &&& 0 <= self.lo@ <= self.hi@ <= list@.len()
        &&& if self.lo@ < self.hi@ {
            self.ends == Some((list.chain()[self.lo@], list.chain()[self.hi@ - 1]))
        } else {
            self.ends is None
        }
    }

    /// Mutably borrows the front element of the remaining range and advances
    /// past it; only that element of the list can change through the borrow.
    pub fn next<'a>(&mut self, list: &'a mut VecList<T>) -> (r: Option<&'a mut T>)
        requires
            old(self).valid(*old(list)),
        ensures
            final(self).end_pos() == old(self).end_pos(),
            match r {
                None => {
                    &&& old(self).start_pos() == old(self).end_pos()
                    &&& *final(list) == *old(list)
                    &&& final(self).valid(*final(list))
                    &&& final(self).start_pos() == old(self).start_pos()
                },
                Some(m) => {
                    &&& old(self).start_pos() < old(self).end_pos()
                    &&& *m == old(list)@[old(self).start_pos()]
                    &&& final(list)@ == old(list)@.update(old(self).start_pos(), *final(m))
                    &&& final(list).wf()
                    &&& final(list).spec_capacity() == old(list).spec_capacity()
                    &&& final(list).spec_node_count() == old(list).spec_node_count()
                    &&& final(self).start_pos() == old(self).start_pos() + 1
                    &&& final(self).valid(*final(list))
                },
            },
    {
        match self.ends {
            None => None,
            Some((front, back)) => {
                proof {
                    list.lemma_chain_distinct();
                }
                if front == back {
                    self.ends = None;
                } else {
                    let nx = match list.next_slot(front, Ghost(self.lo@)) {
                        Some(nx) => nx,
                        None => vstd::pervasive::unreached(),
                    };
                    self.ends = Some((nx, back));
                }
                let ghost pos = self.lo@;
                proof {
                    self.lo@ = self.lo@ + 1;
                }
                Some(list.value_at_mut(front, Ghost(pos)))
            },
        }
    }


    /// Counts the elements still to visit by walking the remaining range.
    pub fn remaining(&self, list: &VecList<T>) -> (r: usize)
        requires
            self.valid(*list),
        ensures
            r == self.end_pos() - self.start_pos(),
    {
        match self.ends {
            None => 0,
            Some((front, back)) => {
                proof {
                    list.lemma_chain_distinct();
                    list.lemma_len_bound();
                }
                let mut node = front;
                let mut count: usize = 1;
                let ghost mut pos: int = self.lo@;
                while node != back
                    invariant
                        self.valid(*list),
                        self.start_pos() < self.end_pos(),
                        self.start_pos() <= pos < self.end_pos(),
                        node == list.chain()[pos],
                        back == list.chain()[self.end_pos() - 1],
                        count == pos - self.start_pos() + 1,
                        count <= list@.len(),
                        list.chain().no_duplicates(),
                        list.chain().len() == list@.len(),
                        list@.len() <= usize::MAX,
                    decreases self.end_pos() - pos,
                {
                    node = match list.next_slot(node, Ghost(pos)) {
                        Some(nx) => nx,
                        None => vstd::pervasive::unreached(),
                    };
                    count = count + 1;
                    proof {
                        pos = pos + 1;
                    }
                }
                count
            },
        }
    }

    /// Mutably borrows the back element of the remaining range and retreats
    /// past it; only that element of the list can change through the borrow.
    pub fn next_back<'a>(&mut self, list: &'a mut VecList<T>) -> (r: Option<&'a mut T>)
        requires
            old(self).valid(*old(list)),
        ensures
            final(self).start_pos() == old(self).start_pos(),
            match r {
                None => {
                    &&& old(self).start_pos() == old(self).end_pos()
                    &&& *final(list) == *old(list)
                    &&& final(self).valid(*final(list))
                    &&& final(self).end_pos() == old(self).end_pos()
                },
                Some(m) => {
                    &&& old(self).start_pos() < old(self).end_pos()
                    &&& *m == old(list)@[old(self).end_pos() - 1]
                    &&& final(list)@ == old(list)@.update(old(self).end_pos() - 1, *final(m))
                    &&& final(list).wf()
                    &&& final(list).spec_capacity() == old(list).spec_capacity()
                    &&& final(list).spec_node_count() == old(list).spec_node_count()
                    &&& final(self).end_pos() == old(self).end_pos() - 1
                    &&& final(self).valid(*final(list))
                },
            },
    {
        match self.ends {
            None => None,
            Some((front, back)) => {
                proof {
                    list.lemma_chain_distinct();
                }
                if front == back {
                    self.ends = None;
                } else {
                    let pv = match list.prev_slot(back, Ghost(self.hi@ - 1)) {
                        Some(pv) => pv,
                        None => vstd::pervasive::unreached(),
                    };
                    self.ends = Some((front, pv));
                }
                proof {
                    self.hi@ = self.hi@ - 1;
                }
                Some(list.value_at_mut(back, Ghost(self.hi@)))
            },
        }
    }
}

/// Creates a mutating iterator over the whole of `list`.
pub fn new_iter_mut<T>(list: &VecList<T>) -> (r: IterMut<T>)
    requires
        list.wf(),
    ensures
        r.valid(*list),
        r.start_pos() == 0,
        r.end_pos() == list@.len(),
{
    let ends = match list.get_ends() {
        None => None,
        Some((_, head, tail)) => Some((head, tail)),
    };
    IterMut { ends, lo: Ghost(0), hi: Ghost(list@.len() as int), marker: core::marker::PhantomData }
}

impl<T> VecList<T> {
    /// Returns a read-only iterator over the whole list.
    pub fn iter<'a>(&'a self) -> (r: Iter<'a, T>)
        requires
            self.wf(),
        ensures
            r.valid(),
            r.list() == self,
            r.start_pos() == 0,
            r.end_pos() == self@.len(),
    {
        new_iter(self)
    }

    /// Returns a mutating iterator over the whole list.
    pub fn iter_mut(&self) -> (r: IterMut<T>)
        requires
            self.wf(),
        ensures
            r.valid(*self),
            r.start_pos() == 0,
            r.end_pos() == self@.len(),
    {
        new_iter_mut(self)
    }
}

} // verus!
