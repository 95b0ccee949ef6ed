//! A removing iterator over an index range of a list.
//!
//! A [`Drain`] resolves its range to a slot pair at construction; each step
//! unlinks and recycles one boundary element. Whatever part of the range the
//! caller does not consume step by step, [`Drain::finish`] removes, so the
//! whole resolved range is gone once the drain is finished.

use vstd::prelude::*;

use crate::VecList;

verus! {

/// One bound of an index range: closed, open, or absent.
pub enum Edge {
    /// The bound lies on the index itself.
    Included(usize),
    /// The bound lies just beside the index.
    Excluded(usize),
    /// No bound: the range runs to the end of the list on this side.
    Unbounded,
}

/// The first index inside a range that starts at `e`.
pub open spec fn start_of(e: Edge) -> int {
    match e {
        Edge::Included(s) => s as int,
        Edge::Excluded(s) => s + 1,
        Edge::Unbounded => 0,
    }
}

/// The first index past a range that ends at `e`, in a list of length `len`.
pub open spec fn end_of(e: Edge, len: int) -> int {
    match e {
        Edge::Included(x) => x + 1,
        Edge::Excluded(x) => x as int,
        Edge::Unbounded => len,
    }
}

/// A removing iterator over a range of a [`VecList`], double ended; each step
/// borrows the list it was created from.
pub struct Drain<T> {
    /// The slots of the first and last element still to remove; `None` when
    /// the range is exhausted.
    ends: Option<(usize, usize)>,
    /// The position of the first element still to remove.
    lo: Ghost<int>,
    /// The position just past the last element still to remove.
    hi: Ghost<int>,
    /// The element type the drain removes.
    marker: core::marker::PhantomData<T>,
}

impl<T> Drain<T> {
    /// The position of the first element still to remove.
    pub closed spec fn start_pos(&self) -> int {
        self.lo@
    }

    /// The position just past the last element still to remove.
    pub closed spec fn end_pos(&self) -> int {
        self.hi@
    }

    /// The drain is consistent with `list`: the positions still to remove
    /// lie within it, and `ends` names their boundary slots.
    pub closed spec fn valid(&self, list: VecList<T>) -> bool {
        &&& list.wf()
        &&& 0 <= self.lo@ <= self.hi@ <= list@.len()
        &&& if self.lo@ < self.hi@ {
            self.ends == Some((list.chain()[self.lo@], list.chain()[self.hi@ - 1]))
        } else {
            self.ends is None
        }
    }

    /// Removes and returns the front element of the remaining range.
    pub fn next(&mut self, list: &mut VecList<T>) -> (r: Option<T>)
        requires
            old(self).valid(*old(list)),
        ensures
            final(self).valid(*final(list)),
            final(list).spec_capacity() == old(list).spec_capacity(),
            final(list).spec_node_count() == old(list).spec_node_count(),
            match r {
                None => {
                    &&& old(self).start_pos() == old(self).end_pos()
                    &&& *final(list) == *old(list)
                    &&& *final(self) == *old(self)
                },
                Some(v) => {
                    &&& old(self).start_pos() < old(self).end_pos()
                    &&& v == old(list)@[old(self).start_pos()]
                    &&& final(list)@ == old(list)@.remove(old(self).start_pos())
                    &&& final(self).start_pos() == old(self).start_pos()
                    &&& final(self).end_pos() == old(self).end_pos() - 1
                },
            },
    {
        match self.ends {
            None => None,
            Some((front, back)) => {
                proof {
                    list.lemma_chain_distinct();
                }
                if front == back {
                    self.ends = None;
                } else {
                    let nx = match list.next_slot(front, Ghost(self.lo@)) {
                        Some(nx) => nx,
                        None => vstd::pervasive::unreached(),
                    };
                    self.ends = Some((nx, back));
                }
                let v = list.unlink_at(front, Ghost(self.lo@));
                proof {
                    self.hi@ = self.hi@ - 1;
                    old(list).chain().remove_ensures(old(self).start_pos());
                }
                Some(v)
            },
        }
    }

    /// Removes and returns the back element of the remaining range.
    pub fn next_back(&mut self, list: &mut VecList<T>) -> (r: Option<T>)
        requires
            old(self).valid(*old(list)),
        ensures
            final(self).valid(*final(list)),
            final(list).spec_capacity() == old(list).spec_capacity(),
            final(list).spec_node_count() == old(list).spec_node_count(),
            match r {
                None => {
                    &&& old(self).start_pos() == old(self).end_pos()
                    &&& *final(list) == *old(list)
                    &&& *final(self) == *old(self)
                },
                Some(v) => {
                    &&& old(self).start_pos() < old(self).end_pos()
                    &&& v == old(list)@[old(self).end_pos() - 1]
                    &&& final(list)@ == old(list)@.remove(old(self).end_pos() - 1)
                    &&& final(self).start_pos() == old(self).start_pos()
                    &&& final(self).end_pos() == old(self).end_pos() - 1
                },
            },
    {
        match self.ends {
            None => None,
            Some((front, back)) => {
                proof {
                    list.lemma_chain_distinct();
                }
                if front == back {
                    self.ends = None;
                } else {
                    let pv = match list.prev_slot(back, Ghost(self.hi@ - 1)) {
                        Some(pv) => pv,
                        None => vstd::pervasive::unreached(),
                    };
                    self.ends = Some((front, pv));
                }
                let v = list.unlink_at(back, Ghost(self.hi@ - 1));
                proof {
                    self.hi@ = self.hi@ - 1;
                    old(list).chain().remove_ensures(old(self).end_pos() - 1);
                }
                Some(v)
            },
        }
    }

    /// Removes whatever is left of the range from the list and returns it in
    /// order. Together with `next` and `next_back` this guarantees that the
    /// whole resolved range leaves the list, however much of it was consumed
    /// step by step.
    pub fn finish(self, list: &mut VecList<T>) -> (r: Vec<T>)
        requires
            self.valid(*old(list)),
        ensures
            final(list).wf(),
            r@ == old(list)@.subrange(self.start_pos(), self.end_pos()),
            final(list)@ == old(list)@.take(self.start_pos()) + old(list)@.skip(self.end_pos()),
            final(list).spec_capacity() == old(list).spec_capacity(),
            final(list).spec_node_count() == old(list).spec_node_count(),
    {
        let ghost s0 = self.start_pos();
        let ghost e0 = self.end_pos();
        let mut it = self;
        let mut out: Vec<T> = Vec::new();
        loop
            invariant
                0 <= s0 <= e0 <= old(list)@.len(),
                it.valid(*list),
                it.start_pos() == s0,
                it.end_pos() == e0 - out@.len(),
                out@.len() <= e0 - s0,
                out@ == old(list)@.subrange(s0, s0 + out@.len()),
                list@ == old(list)@.take(s0) + old(list)@.skip(s0 + out@.len()),
                list.spec_capacity() == old(list).spec_capacity(),
                list.spec_node_count() == old(list).spec_node_count(),
            ensures
                it.start_pos() == it.end_pos(),
            decreases it.end_pos() - it.start_pos(),
        {
            let ghost before = *list;
            let ghost k = out@.len() as int;
            match it.next(list) {
                None => {
                    break;
                },
                Some(v) => {
                    proof {
                        assert(old(list)@.take(s0).len() == s0);
                        assert(s0 + k < e0 <= old(list)@.len());
                        assert(before@[s0] == old(list)@.skip(s0 + k)[0]);
                        assert(old(list)@.skip(s0 + k)[0] == old(list)@[s0 + k]);
                    }
                    out.push(v);
                    proof {
                        assert(out@ =~= old(list)@.subrange(s0, s0 + out@.len()));
                        assert(list@ =~= old(list)@.take(s0) + old(list)@.skip(
                            s0 + out@.len(),
                        ));
                    }
                },
            }
        }
        proof {
            assert(out@ =~= old(list)@.subrange(s0, e0));
        }
        out
    }
}

/// Consuming one element off either end of a drained range and then removing
/// the rest takes out exactly the originally resolved range: stepping first
/// changes nothing about what is gone in the end.
pub proof fn lemma_drain_step_composes<T>(s: Seq<T>, lo: int, hi: int)
    requires
        0 <= lo < hi <= s.len(),
    ensures
        s.remove(lo).take(lo) + s.remove(lo).skip(hi - 1) == s.take(lo) + s.skip(hi),
        s.remove(hi - 1).take(lo) + s.remove(hi - 1).skip(hi - 1) == s.take(lo) + s.skip(hi),
{
    assert(s.remove(lo).take(lo) + s.remove(lo).skip(hi - 1) =~= s.take(lo) + s.skip(hi));
    assert(s.remove(hi - 1).take(lo) + s.remove(hi - 1).skip(hi - 1) =~= s.take(lo) + s.skip(
        hi,
    ));
}

/// Creates a drain over the positions of `list` selected by `start` and
/// `end`; the resolved range must be ordered and lie within the list.
pub fn drain<T>(list: &VecList<T>, start: Edge, end: Edge) -> (r: Drain<T>)
    requires
        list.wf(),
        start_of(start) <= end_of(end, list@.len() as int),
        end_of(end, list@.len() as int) <= list@.len(),
    ensures
        r.valid(*list),
        r.start_pos() == start_of(start),
        r.end_pos() == end_of(end, list@.len() as int),
{
    let len = list.len();
    let s: usize = match start {
        Edge::Included(s) => s,
        Edge::Excluded(s) => s + 1,
        Edge::Unbounded => 0,
    };
    let e: usize = match end {
        Edge::Included(x) => x + 1,
        Edge::Excluded(x) => x,
        Edge::Unbounded => len,
    };
    let ends = if s < e {
        Some((list.ptr(s), list.ptr(e - 1)))
    } else {
        None
    };
    Drain { ends, lo: Ghost(s as int), hi: Ghost(e as int), marker: core::marker::PhantomData }
}

impl<T> VecList<T> {
    /// Returns a drain over the positions selected by `start` and `end`; the
    /// resolved range must be ordered and lie within the list.
    pub fn drain(&self, start: Edge, end: Edge) -> (r: Drain<T>)
        requires
            self.wf(),
            start_of(start) <= end_of(end, self@.len() as int),
            end_of(end, self@.len() as int) <= self@.len(),
        ensures
            r.valid(*self),
            r.start_pos() == start_of(start),
            r.end_pos() == end_of(end, self@.len() as int),
    {
        drain(self, start, end)
    }
}

} // verus!
