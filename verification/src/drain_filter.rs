//! A filtering, removing iterator over the whole of a list.
//!
//! A [`DrainFilter`] snapshots the chain at construction and applies its
//! predicate lazily, element by element. The predicate receives each value and
//! hands back the value to store in its place together with a decision: on
//! `true` the element is unlinked and yielded, on `false` it stays, rewritten,
//! in its original position. [`DrainFilter::finish`] decides every element the
//! caller did not reach step by step.

use vstd::prelude::*;

use crate::lemma_picked_values_partition;
use crate::picked_values;
use crate::VecList;

verus! {

/// The stored values of a decision sequence, in order.
pub open spec fn firsts<T>(ds: Seq<(T, bool)>) -> Seq<T> {
    Seq::new(ds.len(), |i: int| ds[i].0)
}

/// A filtering, removing iterator over a [`VecList`], driven by a predicate
/// of type `F`; each step borrows the list it was created from.
#[verifier::reject_recursive_types(T)]
pub struct DrainFilter<T, F: Fn(T) -> (T, bool)> {
    /// The predicate: it maps a value to the value to store in its place and
    /// the decision whether the element leaves the list.
    filter: F,
    /// The slots of the first and last element still to decide; `None` when
    /// every element has been decided.
    ends: Option<(usize, usize)>,
    /// The position of the first element still to decide.
    lo: Ghost<int>,
    /// The position just past the last element still to decide.
    hi: Ghost<int>,
    /// The element type the iterator decides over.
    marker: core::marker::PhantomData<T>,
}

impl<T, F: Fn(T) -> (T, bool)> DrainFilter<T, F> {
    /// The position of the first element still to decide.
    pub closed spec fn start_pos(&self) -> int {
        self.lo@
    }

    /// The position just past the last element still to decide.
    pub closed spec fn end_pos(&self) -> int {
        self.hi@
    }

    /// The predicate the iterator was built with.
    pub closed spec fn spec_filter(&self) -> F {
        self.filter
    }

    /// The iterator is consistent with `list`: the positions still to decide
    /// lie within it, and `ends` names their boundary slots.
    pub closed spec fn valid(&self, list: VecList<T>) -> bool {
        &&& list.wf()
        &&& 0 <= self.lo@ <= self.hi@ <= list@.len()
        &&& if self.lo@ < self.hi@ {
            self.ends == Some((list.chain()[self.lo@], list.chain()[self.hi@ - 1]))
        } else {
            self.ends is None
        }
    }

    /// Decides elements from the front of the remaining range until one
    /// passes the predicate; that element is unlinked and returned, while the
    /// ones that failed stay, rewritten, in place. Returns `None` once every
    /// remaining element has been decided and kept.
    pub fn next(&mut self, list: &mut VecList<T>) -> (r: Option<T>)
        requires
            old(self).valid(*old(list)),
            forall|i: int|
                old(self).start_pos() <= i < old(self).end_pos() ==> call_requires(
                    old(self).spec_filter(),
                    (#[trigger] old(list)@[i],),
                ),
        ensures
            final(self).spec_filter() == old(self).spec_filter(),
            final(self).valid(*final(list)),
            final(list).spec_capacity() == old(list).spec_capacity(),
            final(list).spec_node_count() == old(list).spec_node_count(),
            match r {
                None => exists|ds: Seq<(T, bool)>|
                    {
                        &&& ds.len() == old(self).end_pos() - old(self).start_pos()
                        &&& forall|i: int|
                            0 <= i < ds.len() ==> (#[trigger] ds[i]).1 == false && call_ensures(
                                old(self).spec_filter(),
                                (old(list)@[old(self).start_pos() + i],),
                                ds[i],
                            )
                        &&& final(list)@ == old(list)@.take(old(self).start_pos()) + firsts(ds)
                            + old(list)@.skip(old(self).end_pos())
                        &&& final(self).start_pos() == final(self).end_pos()
                        &&& final(self).end_pos() == old(self).end_pos()
                    },
                Some(v) => exists|ds: Seq<(T, bool)>|
                    {
                        &&& 0 <= ds.len() < old(self).end_pos() - old(self).start_pos()
                        &&& forall|i: int|
                            0 <= i < ds.len() ==> (#[trigger] ds[i]).1 == false && call_ensures(
                                old(self).spec_filter(),
                                (old(list)@[old(self).start_pos() + i],),
                                ds[i],
                            )
                        &&& call_ensures(
                            old(self).spec_filter(),
                            (old(list)@[old(self).start_pos() + ds.len()],),
                            (v, true),
                        )
                        &&& final(list)@ == old(list)@.take(old(self).start_pos()) + firsts(ds)
                            + old(list)@.skip(old(self).start_pos() + ds.len() + 1)
                        &&& final(self).start_pos() == old(self).start_pos() + ds.len()
                        &&& final(self).end_pos() == old(self).end_pos() - 1
                    },
            },
    {
        let ghost s0 = self.lo@;
        let ghost e0 = self.hi@;
        let ghost f0 = self.spec_filter();
        let ghost orig = *list;
        let ghost mut ds: Seq<(T, bool)> = Seq::empty();
        proof {
            assert(list@ =~= orig@.take(s0) + firsts(ds) + orig@.skip(s0 + ds.len()));
        }
        loop
            invariant
                0 <= s0 <= e0 <= orig@.len(),
                *old(list) == orig,
                old(self).spec_filter() == f0,
                old(self).start_pos() == s0,
                old(self).end_pos() == e0,
                self.spec_filter() == f0,
                self.valid(*list),
                self.end_pos() == e0,
                self.start_pos() == s0 + ds.len(),
                ds.len() <= e0 - s0,
                forall|i: int|
                    0 <= i < ds.len() ==> (#[trigger] ds[i]).1 == false && call_ensures(
                        f0,
                        (orig@[s0 + i],),
                        ds[i],
                    ),
                list@ == orig@.take(s0) + firsts(ds) + orig@.skip(s0 + ds.len()),
                list.spec_capacity() == orig.spec_capacity(),
                list.spec_node_count() == orig.spec_node_count(),
                forall|i: int|
                    s0 + ds.len() <= i < e0 ==> call_requires(f0, (#[trigger] orig@[i],)),
            decreases e0 - self.start_pos(),
        {
            let (front, back) = match self.ends {
                None => {
                    return None;
                },
                Some(e) => e,
            };
            let ghost lo = self.lo@;
            let ghost before = *list;
            proof {
                list.lemma_chain_distinct();
                assert(orig@.take(s0).len() == s0);
                assert(before@[lo] == orig@.skip(s0 + ds.len())[0]);
                assert(before@[lo] == orig@[s0 + ds.len()]);
            }
            let nxt = if front == back {
                None
            } else {
                match list.next_slot(front, Ghost(lo)) {
                    Some(nx) => Some(nx),
                    None => vstd::pervasive::unreached(),
                }
            };
            let passed = list.apply_filter_at(front, Ghost(lo), &self.filter);
            let ghost v2 = choose|v2: T|
                call_ensures(f0, (before@[lo],), (v2, passed)) && list@ == before@.update(lo, v2);
            self.ends = match nxt {
                Some(nx) => Some((nx, back)),
                None => None,
            };
            if passed {
                let v = list.unlink_at(front, Ghost(lo));
                proof {
                    self.hi@ = self.hi@ - 1;
                    assert(v == v2);
                    assert(list@ =~= orig@.take(s0) + firsts(ds) + orig@.skip(
                        s0 + ds.len() + 1,
                    ));
                }
                return Some(v);
            }
            proof {
                self.lo@ = self.lo@ + 1;
                let nds = ds.push((v2, false));
                assert(firsts(nds) =~= firsts(ds).push(v2));
                assert(list@ =~= orig@.take(s0) + firsts(nds) + orig@.skip(s0 + nds.len()));
                ds = nds;
            }
            if nxt.is_none() {
                proof {
                    assert(ds.len() == e0 - s0);
                }
                return None;
            }
        }
    }


    /// Counts the elements still to decide; at most this many can still be yielded.
    /// Computed by walking the remaining range.
    pub fn remaining(&self, list: &VecList<T>) -> (r: usize)
        requires
            self.valid(*list),
        ensures
            r == self.end_pos() - self.start_pos(),
    {
        match self.ends {
            None => 0,
            Some((front, back)) => {
                proof {
                    list.lemma_chain_distinct();
                    list.lemma_len_bound();
                }
                let mut node = front;
                let mut count: usize = 1;
                let ghost mut pos: int = self.lo@;
                while node != back
                    invariant
                        self.valid(*list),
                        self.start_pos() < self.end_pos(),
                        self.start_pos() <= pos < self.end_pos(),
                        node == list.chain()[pos],
                        back == list.chain()[self.end_pos() - 1],
                        count == pos - self.start_pos() + 1,
                        count <= list@.len(),
                        list.chain().no_duplicates(),
                        list.chain().len() == list@.len(),
                        list@.len() <= usize::MAX,
                    decreases self.end_pos() - pos,
                {
                    node = match list.next_slot(node, Ghost(pos)) {
                        Some(nx) => nx,
                        None => vstd::pervasive::unreached(),
                    };
                    count = count + 1;
                    proof {
                        pos = pos + 1;
                    }
                }
                count
            },
        }
    }

    /// Decides elements from the back of the remaining range until one passes
    /// the predicate; that element is unlinked and returned, while the ones
    /// that failed stay, rewritten, in place. Returns `None` once every
    /// remaining element has been decided and kept.
    pub fn next_back(&mut self, list: &mut VecList<T>) -> (r: Option<T>)
        requires
            old(self).valid(*old(list)),
            forall|i: int|
                old(self).start_pos() <= i < old(self).end_pos() ==> call_requires(
                    old(self).spec_filter(),
                    (#[trigger] old(list)@[i],),
                ),
        ensures
            final(self).spec_filter() == old(self).spec_filter(),
            final(self).valid(*final(list)),
            final(list).spec_capacity() == old(list).spec_capacity(),
            final(list).spec_node_count() == old(list).spec_node_count(),
            match r {
                None => exists|ds: Seq<(T, bool)>|
                    {
                        &&& ds.len() == old(self).end_pos() - old(self).start_pos()
                        &&& forall|i: int|
                            0 <= i < ds.len() ==> (#[trigger] ds[i]).1 == false && call_ensures(
                                old(self).spec_filter(),
                                (old(list)@[old(self).start_pos() + i],),
                                ds[i],
                            )
                        &&& final(list)@ == old(list)@.take(old(self).start_pos()) + firsts(ds)
                            + old(list)@.skip(old(self).end_pos())
                        &&& final(self).start_pos() == final(self).end_pos()
                        &&& final(self).start_pos() == old(self).start_pos()
                    },
                Some(v) => exists|ds: Seq<(T, bool)>|
                    {
                        &&& 0 <= ds.len() < old(self).end_pos() - old(self).start_pos()
                        &&& forall|i: int|
                            0 <= i < ds.len() ==> (#[trigger] ds[i]).1 == false && call_ensures(
                                old(self).spec_filter(),
                                (old(list)@[old(self).end_pos() - ds.len() + i],),
                                ds[i],
                            )
                        &&& call_ensures(
                            old(self).spec_filter(),
                            (old(list)@[old(self).end_pos() - 1 - ds.len()],),
                            (v, true),
                        )
                        &&& final(list)@ == old(list)@.take(old(self).end_pos() - 1 - ds.len())
                            + firsts(ds) + old(list)@.skip(old(self).end_pos())
                        &&& final(self).start_pos() == old(self).start_pos()
                        &&& final(self).end_pos() == old(self).end_pos() - 1 - ds.len()
                    },
            },
    {
        let ghost s0 = self.lo@;
        let ghost e0 = self.hi@;
        let ghost f0 = self.spec_filter();
        let ghost orig = *list;
        let ghost mut ds: Seq<(T, bool)> = Seq::empty();
        proof {
            assert(list@ =~= orig@.take(e0 - ds.len()) + firsts(ds) + orig@.skip(e0));
        }
        loop
            invariant
                0 <= s0 <= e0 <= orig@.len(),
                *old(list) == orig,
                old(self).spec_filter() == f0,
                old(self).start_pos() == s0,
                old(self).end_pos() == e0,
                self.spec_filter() == f0,
                self.valid(*list),
                self.start_pos() == s0,
                self.end_pos() == e0 - ds.len(),
                ds.len() <= e0 - s0,
                forall|i: int|
                    0 <= i < ds.len() ==> (#[trigger] ds[i]).1 == false && call_ensures(
                        f0,
                        (orig@[e0 - ds.len() + i],),
                        ds[i],
                    ),
                list@ == orig@.take(e0 - ds.len()) + firsts(ds) + orig@.skip(e0),
                list.spec_capacity() == orig.spec_capacity(),
                list.spec_node_count() == orig.spec_node_count(),
                forall|i: int|
                    s0 <= i < e0 - ds.len() ==> call_requires(f0, (#[trigger] orig@[i],)),
            decreases self.end_pos() - s0,
        {
            let (front, back) = match self.ends {
                None => {
                    return None;
                },
                Some(e) => e,
            };
            let ghost hi1 = self.hi@ - 1;
            let ghost before = *list;
            proof {
                list.lemma_chain_distinct();
                assert(orig@.take(e0 - ds.len()).len() == e0 - ds.len());
                assert(before@[hi1] == orig@.take(e0 - ds.len())[hi1]);
                assert(before@[hi1] == orig@[hi1]);
            }
            let pv = if front == back {
                None
            } else {
                match list.prev_slot(back, Ghost(hi1)) {
                    Some(p) => Some(p),
                    None => vstd::pervasive::unreached(),
                }
            };
            let passed = list.apply_filter_at(back, Ghost(hi1), &self.filter);
            let ghost v2 = choose|v2: T|
                call_ensures(f0, (before@[hi1],), (v2, passed)) && list@ == before@.update(
                    hi1,
                    v2,
                );
            self.ends = match pv {
                Some(p) => Some((front, p)),
                None => None,
            };
            if passed {
                let v = list.unlink_at(back, Ghost(hi1));
                proof {
                    self.hi@ = self.hi@ - 1;
                    assert(v == v2);
                    assert(list@ =~= orig@.take(e0 - 1 - ds.len()) + firsts(ds) + orig@.skip(
                        e0,
                    ));
                }
                return Some(v);
            }
            proof {
                self.hi@ = self.hi@ - 1;
                let nds = seq![(v2, false)] + ds;
                assert(firsts(nds) =~= seq![v2] + firsts(ds));
                assert(list@ =~= orig@.take(e0 - nds.len()) + firsts(nds) + orig@.skip(e0));
                ds = nds;
            }
            if pv.is_none() {
                proof {
                    assert(ds.len() == e0 - s0);
                }
                return None;
            }
        }
    }

    /// Decides every element the caller has not reached: each one that passes
    /// the predicate is unlinked and collected, in order, into the returned
    /// vector; each one that fails stays, rewritten, in place.
    pub fn finish(self, list: &mut VecList<T>) -> (r: Vec<T>)
        requires
            self.valid(*old(list)),
            forall|i: int|
                self.start_pos() <= i < self.end_pos() ==> call_requires(
                    self.spec_filter(),
                    (#[trigger] old(list)@[i],),
                ),
        ensures
            final(list).wf(),
            final(list).spec_capacity() == old(list).spec_capacity(),
            final(list).spec_node_count() == old(list).spec_node_count(),
            exists|ds: Seq<(T, bool)>|
                {
                    &&& ds.len() == self.end_pos() - self.start_pos()
                    &&& forall|i: int|
                        0 <= i < ds.len() ==> call_ensures(
                            self.spec_filter(),
                            (old(list)@[self.start_pos() + i],),
                            #[trigger] ds[i],
                        )
                    &&& final(list)@ == old(list)@.take(self.start_pos()) + picked_values(
                        ds,
                        false,
                    ) + old(list)@.skip(self.end_pos())
                    &&& r@ == picked_values(ds, true)
                },
    {
        let ghost s0 = self.start_pos();
        let ghost e0 = self.end_pos();
        let ghost f0 = self.spec_filter();
        let ghost orig = *list;
        let mut out: Vec<T> = Vec::new();
        let mut it = self;
        let ghost mut ds: Seq<(T, bool)> = Seq::empty();
        proof {
            assert(list@ =~= orig@.take(s0) + picked_values(ds, false) + orig@.skip(
                s0 + ds.len(),
            ));
        }
        loop
            invariant
                0 <= s0 <= e0 <= orig@.len(),
                *old(list) == orig,
                self.spec_filter() == f0,
                self.start_pos() == s0,
                self.end_pos() == e0,
                it.spec_filter() == f0,
                it.valid(*list),
                it.start_pos() == s0 + picked_values(ds, false).len(),
                it.end_pos() == it.start_pos() + (e0 - s0 - ds.len()),
                ds.len() <= e0 - s0,
                forall|i: int|
                    0 <= i < ds.len() ==> call_ensures(f0, (orig@[s0 + i],), #[trigger] ds[i]),
                list@ == orig@.take(s0) + picked_values(ds, false) + orig@.skip(s0 + ds.len()),
                out@ == picked_values(ds, true),
                list.spec_capacity() == orig.spec_capacity(),
                list.spec_node_count() == orig.spec_node_count(),
                forall|i: int|
                    s0 + ds.len() <= i < e0 ==> call_requires(f0, (#[trigger] orig@[i],)),
            ensures
                ds.len() == e0 - s0,
            decreases e0 - s0 - ds.len(),
        {
            let (front, back) = match it.ends {
                None => {
                    break;
                },
                Some(e) => e,
            };
            let ghost kp = it.lo@;
            let ghost before = *list;
            proof {
                list.lemma_chain_distinct();
                assert(orig@.take(s0).len() == s0);
                lemma_picked_values_partition(ds);
                assert(picked_values(ds, false).len() <= ds.len());
                assert(before@[kp] == orig@.skip(s0 + ds.len())[kp - s0 - picked_values(
                    ds,
                    false,
                ).len()]);
                assert(before@[kp] == orig@[s0 + ds.len()]);
            }
            let nxt = if front == back {
                None
            } else {
                match list.next_slot(front, Ghost(kp)) {
                    Some(nx) => Some(nx),
                    None => vstd::pervasive::unreached(),
                }
            };
            let passed = list.apply_filter_at(front, Ghost(kp), &it.filter);
            let ghost v2 = choose|v2: T|
                call_ensures(f0, (before@[kp],), (v2, passed)) && list@ == before@.update(kp, v2);
            if passed {
                let v = list.unlink_at(front, Ghost(kp));
                out.push(v);
                proof {
                    it.hi@ = it.hi@ - 1;
                }
            } else {
                proof {
                    it.lo@ = it.lo@ + 1;
                }
            }
            it.ends = match nxt {
                Some(nx) => Some((nx, back)),
                None => None,
            };
            proof {
                let nds = ds.push((v2, passed));
                assert(nds.drop_last() =~= ds);
                assert(picked_values(nds, false) == picked_values(ds, false) + if passed {
                    Seq::<T>::empty()
                } else {
                    seq![v2]
                });
                assert(picked_values(nds, true) == picked_values(ds, true) + if passed {
                    seq![v2]
                } else {
                    Seq::<T>::empty()
                });
                assert(list@ =~= orig@.take(s0) + picked_values(nds, false) + orig@.skip(
                    s0 + nds.len(),
                ));
                assert(out@ =~= picked_values(nds, true));
                ds = nds;
            }
        }
        proof {
            assert(list@ =~= orig@.take(s0) + picked_values(ds, false) + orig@.skip(e0));
        }
        out
    }
}

/// Creates a filtering drain over the whole of `list`, driven by `filter`.
pub fn new_drain_filter<T, F: Fn(T) -> (T, bool)>(list: &VecList<T>, filter: F) -> (r: DrainFilter<
    T,
    F,
>)
    requires
        list.wf(),
    ensures
        r.valid(*list),
        r.spec_filter() == filter,
        r.start_pos() == 0,
        r.end_pos() == list@.len(),
{
    let ends = match list.get_ends() {
        None => None,
        Some((_, head, tail)) => Some((head, tail)),
    };
    DrainFilter {
        filter,
        ends,
        lo: Ghost(0),
        hi: Ghost(list@.len() as int),
        marker: core::marker::PhantomData,
    }
}

impl<T> VecList<T> {
    /// Returns a filtering drain over the whole list, driven by `filter`.
    pub fn drain_filter<F: Fn(T) -> (T, bool)>(&self, filter: F) -> (r: DrainFilter<T, F>)
        requires
            self.wf(),
        ensures
            r.valid(*self),
            r.spec_filter() == filter,
            r.start_pos() == 0,
            r.end_pos() == self@.len(),
    {
        new_drain_filter(self, filter)
    }
}

} // verus!
