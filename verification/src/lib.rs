//! A doubly-linked list whose nodes live in one contiguous, growable arena.
//!
//! Instead of allocating each node on the heap, a [`VecList`] keeps every node
//! in a single buffer of slots and links them by slot index. Removed slots are
//! recycled through an intrusive free list, so the structure trades one level
//! of indirection (an index lookup) for cache-friendly storage and slot reuse.
//!
//! The list's contents are modelled by the sequence view `self@`; every public
//! operation states its effect on that view.

use vstd::prelude::*;
use vstd::std_specs::cmp::PartialEqSpec;

pub mod drain;
pub mod drain_filter;
pub mod iter;
pub mod node;
pub mod raw_vec;
pub mod view;
pub mod view_mut;

use crate::node::Node;
use crate::raw_vec::RawVec;

verus! {

/// A doubly-linked list of `T` stored in a contiguous arena of slots.
///
/// The logical contents (the active chain) and the recycled slots (the free
/// list) partition the arena; a slot moves between the two sides only when a
/// value is inserted or removed.
#[derive(Clone)]
pub struct VecList<T> {
    /// The arena of slots.
    buf: RawVec<Node<T>>,
    /// The length of the active chain and the slot indices of its first and
    /// last node; `None` exactly when the list is empty.
    ends: Option<(usize, usize, usize)>,
    /// The number of free slots and the slot index of the free-list head;
    /// `None` exactly when no slot is free.
    empty: Option<(usize, usize)>,
    /// The slot indices of the active chain, in list order.
    chain: Ghost<Seq<usize>>,
    /// The slot indices of the free list, head first.
    free: Ghost<Seq<usize>>,
}

impl<T> View for VecList<T> {
    type V = Seq<T>;

    closed spec fn view(&self) -> Seq<T> {
        Seq::new(self.chain@.len(), |i: int| self.nodes()[self.chain@[i] as int].value->0)
    }
}

impl<T> VecList<T> {
    /// The arena contents, by slot index.
    pub(crate) closed spec fn nodes(&self) -> Seq<Node<T>> {
        self.buf@
    }

    /// The slot indices of the active chain, in list order.
    pub(crate) closed spec fn chain(&self) -> Seq<usize> {
        self.chain@
    }

    /// The slot indices of the free list, head first.
    pub(crate) closed spec fn free_list(&self) -> Seq<usize> {
        self.free@
    }

    /// The reserved capacity of the arena, in slots.
    pub closed spec fn spec_capacity(&self) -> usize {
        self.buf.spec_cap()
    }

    /// The number of slots the arena has ever handed out.
    pub closed spec fn spec_node_count(&self) -> nat {
        self.nodes().len()
    }

    /// Entry `i` of `links` is a consistent chain entry: its slot is in
    /// bounds, holds a value, and points at the neighbouring entries (or at
    /// nothing, at the two ends).
    pub(crate) closed spec fn chain_node_ok(nodes: Seq<Node<T>>, links: Seq<usize>, i: int) -> bool {
        let s = links[i] as int;
        &&& s < nodes.len()
        &&& nodes[s].value is Some
        &&& nodes[s].prev == if i > 0 {
            Some(links[i - 1])
        } else {
            None::<usize>
        }
        &&& nodes[s].next == if i + 1 < links.len() {
            Some(links[i + 1])
        } else {
            None::<usize>
        }
    }

    /// The chain's links are consistent at every entry.
    pub(crate) closed spec fn chain_linked(nodes: Seq<Node<T>>, links: Seq<usize>) -> bool {
        forall|i: int| 0 <= i < links.len() ==> #[trigger] Self::chain_node_ok(nodes, links, i)
    }

    /// Entry `i` of the free list is consistent: its slot is in bounds, holds
    /// no value, and its `next` link names the free slot below it.
    pub(crate) closed spec fn free_node_ok(nodes: Seq<Node<T>>, links: Seq<usize>, i: int) -> bool {
        let s = links[i] as int;
        &&& s < nodes.len()
        &&& nodes[s].value is None
        &&& nodes[s].next == if i + 1 < links.len() {
            Some(links[i + 1])
        } else {
            None::<usize>
        }
    }

    /// The free list's links are consistent at every entry.
    pub(crate) closed spec fn free_linked(nodes: Seq<Node<T>>, links: Seq<usize>) -> bool {
        forall|i: int| 0 <= i < links.len() ==> #[trigger] Self::free_node_ok(nodes, links, i)
    }

    /// The `ends` summary matches the chain: it is absent exactly for an
    /// empty chain, and otherwise holds the chain's length and its first and
    /// last slot.
    pub(crate) closed spec fn chain_summary_ok(&self) -> bool {
        match self.ends {
            None => self.chain().len() == 0,
            Some((len, head, tail)) => {
                &&& self.chain().len() == len
                &&& len > 0
                &&& head == self.chain()[0]
                &&& tail == self.chain()[len - 1]
            },
        }
    }

    /// The `empty` summary matches the free list: it is absent exactly for an
    /// empty free list, and otherwise holds the free list's length and head.
    pub(crate) closed spec fn free_summary_ok(&self) -> bool {
        match self.empty {
            None => self.free_list().len() == 0,
            Some((count, head)) => {
                &&& self.free_list().len() == count
                &&& count > 0
                &&& head == self.free_list()[0]
            },
        }
    }

    /// The structural invariant: the `ends` and `empty` summaries match the
    /// chain and free list, both are well linked and duplicate-free, and
    /// together they account for every slot of the arena.
    pub closed spec fn wf(&self) -> bool {
        &&& self.buf.wf()
        &&& Self::chain_linked(self.nodes(), self.chain())
        &&& Self::free_linked(self.nodes(), self.free_list())
        &&& self.chain().no_duplicates()
        &&& self.free_list().no_duplicates()
        &&& self.chain().len() + self.free_list().len() == self.nodes().len()
        &&& self.chain_summary_ok()
        &&& self.free_summary_ok()
    }

    /// Constructs a new empty list with no reserved capacity.
    pub fn new() -> (r: Self)
        ensures
            r.wf(),
            r@ == Seq::<T>::empty(),
            r.spec_capacity() == 0,
    {
        Self::with_capacity(0)
    }

    /// Constructs a new empty list with space reserved for `capacity` nodes.
    pub fn with_capacity(capacity: usize) -> (r: Self)
        ensures
            r.wf(),
            r@ == Seq::<T>::empty(),
            r.spec_capacity() == capacity,
    {
        let r = VecList {
            buf: RawVec::with_capacity(capacity),
            ends: None,
            empty: None,
            chain: Ghost(Seq::empty()),
            free: Ghost(Seq::empty()),
        };
        proof {
            assert(r@ =~= Seq::<T>::empty());
        }
        r
    }

    /// Returns the reserved capacity of the arena.
    pub fn capacity(&self) -> (r: usize)
        ensures
            r == self.spec_capacity(),
    {
        self.buf.cap()
    }

    /// Returns the number of elements in the list.
    pub fn len(&self) -> (r: usize)
        requires
            self.wf(),
        ensures
            r == self@.len(),
    {
        match self.ends {
            None => 0,
            Some((len, _, _)) => len,
        }
    }

    /// Returns whether the list holds no elements.
    pub fn is_empty(&self) -> (r: bool)
        requires
            self.wf(),
        ensures
            r == (self@.len() == 0),
    {
        self.ends.is_none()
    }
}

/// Inserting a fresh element keeps a duplicate-free sequence duplicate-free.
proof fn lemma_insert_no_duplicates(s: Seq<usize>, pos: int, a: usize)
    requires
        0 <= pos <= s.len(),
        s.no_duplicates(),
        !s.contains(a),
    ensures
        s.insert(pos, a).no_duplicates(),
{
    s.insert_ensures(pos, a);
    assert forall|i: int, j: int|
        0 <= i < s.insert(pos, a).len() && 0 <= j < s.insert(pos, a).len() && i
            != j implies s.insert(pos, a)[i] != s.insert(pos, a)[j] by {
        assert(forall|k: int| 0 <= k < s.len() ==> s[k] != a);
    }
}

/// Removing an element keeps a duplicate-free sequence duplicate-free.
proof fn lemma_remove_no_duplicates(s: Seq<usize>, pos: int)
    requires
        0 <= pos < s.len(),
        s.no_duplicates(),
    ensures
        s.remove(pos).no_duplicates(),
{
    s.remove_ensures(pos);
}

/// A chain stays consistent when none of the nodes it occupies change.
proof fn lemma_chain_linked_same<T>(old_nodes: Seq<Node<T>>, new_nodes: Seq<Node<T>>, ch: Seq<usize>)
    requires
        VecList::<T>::chain_linked(old_nodes, ch),
        new_nodes.len() >= old_nodes.len(),
        forall|i: int|
            #![trigger ch[i]]
            0 <= i < ch.len() ==> new_nodes[ch[i] as int] == old_nodes[ch[i] as int],
    ensures
        VecList::<T>::chain_linked(new_nodes, ch),
{
    assert forall|i: int| 0 <= i < ch.len() implies #[trigger] VecList::<T>::chain_node_ok(
        new_nodes,
        ch,
        i,
    ) by {
        assert(VecList::<T>::chain_node_ok(old_nodes, ch, i));
    }
}

/// A free list stays consistent when none of the nodes it occupies change.
proof fn lemma_free_linked_same<T>(old_nodes: Seq<Node<T>>, new_nodes: Seq<Node<T>>, fr: Seq<usize>)
    requires
        VecList::<T>::free_linked(old_nodes, fr),
        new_nodes.len() >= old_nodes.len(),
        forall|i: int|
            #![trigger fr[i]]
            0 <= i < fr.len() ==> new_nodes[fr[i] as int] == old_nodes[fr[i] as int],
    ensures
        VecList::<T>::free_linked(new_nodes, fr),
{
    assert forall|i: int| 0 <= i < fr.len() implies #[trigger] VecList::<T>::free_node_ok(
        new_nodes,
        fr,
        i,
    ) by {
        assert(VecList::<T>::free_node_ok(old_nodes, fr, i));
    }
}

/// Wiring a fresh slot in between the occupants of positions `pos - 1` and
/// `pos` yields the links of the chain with the slot inserted at `pos`.
proof fn lemma_splice_links<T>(
    old_nodes: Seq<Node<T>>,
    new_nodes: Seq<Node<T>>,
    ch: Seq<usize>,
    pos: int,
    slot: usize,
)
    requires
        VecList::<T>::chain_linked(old_nodes, ch),
        ch.no_duplicates(),
        !ch.contains(slot),
        0 <= pos <= ch.len(),
        new_nodes.len() == old_nodes.len(),
        (slot as int) < new_nodes.len(),
        forall|j: int|
            #![trigger new_nodes[j]]
            0 <= j < old_nodes.len() && j != slot && (pos == 0 || j != ch[pos - 1]) && (pos
                == ch.len() || j != ch[pos]) ==> new_nodes[j] == old_nodes[j],
        new_nodes[slot as int].value is Some,
        new_nodes[slot as int].prev == if pos > 0 {
            Some(ch[pos - 1])
        } else {
            None::<usize>
        },
        new_nodes[slot as int].next == if pos < ch.len() {
            Some(ch[pos])
        } else {
            None::<usize>
        },
        pos > 0 ==> {
            &&& new_nodes[ch[pos - 1] as int].next == Some(slot)
            &&& new_nodes[ch[pos - 1] as int].prev == old_nodes[ch[pos - 1] as int].prev
            &&& new_nodes[ch[pos - 1] as int].value == old_nodes[ch[pos - 1] as int].value
        },
        pos < ch.len() ==> {
            &&& new_nodes[ch[pos] as int].prev == Some(slot)
            &&& new_nodes[ch[pos] as int].next == old_nodes[ch[pos] as int].next
            &&& new_nodes[ch[pos] as int].value == old_nodes[ch[pos] as int].value
        },
    ensures
        VecList::<T>::chain_linked(new_nodes, ch.insert(pos, slot)),
{
    let nch = ch.insert(pos, slot);
    ch.insert_ensures(pos, slot);
    assert(forall|k: int| 0 <= k < ch.len() ==> ch[k] != slot);
    assert forall|i: int| 0 <= i < nch.len() implies #[trigger] VecList::<T>::chain_node_ok(
        new_nodes,
        nch,
        i,
    ) by {
        if i < pos - 1 {
            assert(VecList::<T>::chain_node_ok(old_nodes, ch, i));
        } else if i == pos - 1 {
            assert(VecList::<T>::chain_node_ok(old_nodes, ch, i));
        } else if i == pos {
        } else if i == pos + 1 {
            assert(VecList::<T>::chain_node_ok(old_nodes, ch, pos));
        } else {
            assert(VecList::<T>::chain_node_ok(old_nodes, ch, i - 1));
        }
    }
}

/// Patching the neighbours of the occupant of position `pos` around it yields
/// the links of the chain with position `pos` removed.
proof fn lemma_unlink_links<T>(
    old_nodes: Seq<Node<T>>,
    new_nodes: Seq<Node<T>>,
    ch: Seq<usize>,
    pos: int,
)
    requires
        VecList::<T>::chain_linked(old_nodes, ch),
        ch.no_duplicates(),
        0 <= pos < ch.len(),
        new_nodes.len() == old_nodes.len(),
        forall|j: int|
            #![trigger new_nodes[j]]
            0 <= j < old_nodes.len() && j != ch[pos] && (pos == 0 || j != ch[pos - 1]) && (pos + 1
                >= ch.len() || j != ch[pos + 1]) ==> new_nodes[j] == old_nodes[j],
        pos > 0 ==> {
            &&& new_nodes[ch[pos - 1] as int].next == if pos + 1 < ch.len() {
                Some(ch[pos + 1])
            } else {
                None::<usize>
            }
            &&& new_nodes[ch[pos - 1] as int].prev == old_nodes[ch[pos - 1] as int].prev
            &&& new_nodes[ch[pos - 1] as int].value == old_nodes[ch[pos - 1] as int].value
        },
        pos + 1 < ch.len() ==> {
            &&& new_nodes[ch[pos + 1] as int].prev == if pos > 0 {
                Some(ch[pos - 1])
            } else {
                None::<usize>
            }
            &&& new_nodes[ch[pos + 1] as int].next == old_nodes[ch[pos + 1] as int].next
            &&& new_nodes[ch[pos + 1] as int].value == old_nodes[ch[pos + 1] as int].value
        },
    ensures
        VecList::<T>::chain_linked(new_nodes, ch.remove(pos)),
{
    let nch = ch.remove(pos);
    ch.remove_ensures(pos);
    assert forall|i: int| 0 <= i < nch.len() implies #[trigger] VecList::<T>::chain_node_ok(
        new_nodes,
        nch,
        i,
    ) by {
        if i < pos - 1 {
            assert(VecList::<T>::chain_node_ok(old_nodes, ch, i));
        } else if i == pos - 1 {
            assert(VecList::<T>::chain_node_ok(old_nodes, ch, i));
        } else if i == pos {
            assert(VecList::<T>::chain_node_ok(old_nodes, ch, pos + 1));
        } else {
            assert(VecList::<T>::chain_node_ok(old_nodes, ch, i + 1));
        }
    }
}

impl<T> VecList<T> {
    /// Takes a slot off the free list, or grows the arena by one slot, and
    /// fills it with a fresh unlinked node holding `value`. The chain is left
    /// untouched; the caller links the slot in and re-establishes `wf`.
    fn alloc_node(&mut self, value: T) -> (slot: usize)
        requires
            old(self).wf(),
            old(self)@.len() < usize::MAX,
        ensures
            final(self).buf.wf(),
            Self::chain_linked(final(self).nodes(), final(self).chain()),
            Self::free_linked(final(self).nodes(), final(self).free_list()),
            final(self).chain().no_duplicates(),
            final(self).free_list().no_duplicates(),
            final(self).chain_summary_ok(),
            final(self).free_summary_ok(),
            final(self).chain() == old(self).chain(),
            final(self).ends == old(self).ends,
            final(self)@ == old(self)@,
            final(self).chain().len() + final(self).free_list().len() + 1 == final(self).nodes().len(),
            slot < final(self).nodes().len(),
            !final(self).chain().contains(slot),
            !final(self).free_list().contains(slot),
            final(self).nodes()[slot as int].value == Some(value),
            final(self).nodes()[slot as int].prev is None,
            final(self).nodes()[slot as int].next is None,
            forall|j: int|
                #![trigger final(self).nodes()[j]]
                0 <= j < old(self).nodes().len() && j != slot ==> final(self).nodes()[j] == old(self).nodes()[j],
            old(self).free_list().len() > 0 ==> final(self).spec_capacity() == old(self).spec_capacity()
                && final(self).spec_node_count() == old(self).spec_node_count(),
            final(self).spec_capacity() >= old(self).spec_capacity(),
            final(self).spec_node_count() >= old(self).spec_node_count(),
            final(self).free_list().len() == if old(self).free_list().len() > 0 {
                old(self).free_list().len() - 1
            } else {
                0
            },
    {
        let ghost prior = *self;
        let slot: usize;
        match self.empty {
            None => {
                // Every slot is on the chain, so the arena itself must grow.
                slot = self.buf.len();
                proof {
                    assert(self.chain().len() == self.nodes().len());
                    assert forall|i: int| 0 <= i < self.chain().len() implies self.chain()[i]
                        != slot by {
                        assert(Self::chain_node_ok(prior.nodes(), prior.chain(), i));
                    }
                }
                self.buf.reserve(slot, 1);
                self.buf.push(Node::new(value));
            },
            Some((count, head)) => {
                proof {
                    assert(Self::free_node_ok(prior.nodes(), prior.free_list(), 0));
                    if prior.free_list().len() > 1 {
                        assert(Self::free_node_ok(prior.nodes(), prior.free_list(), 1));
                    }
                }
                let next = self.buf.get(head).next;
                self.empty = if count == 1 {
                    None
                } else {
                    match next {
                        Some(h2) => Some((count - 1, h2)),
                        None => vstd::pervasive::unreached(),
                    }
                };
                let n = self.buf.get_mut(head);
                *n = Node::new(value);
                self.free = Ghost(self.free@.drop_first());
                slot = head;
                proof {
                    assert forall|i: int| 0 <= i < self.chain().len() implies self.chain()[i]
                        != slot by {
                        assert(Self::chain_node_ok(prior.nodes(), prior.chain(), i));
                    }
                    assert forall|i: int| 0 <= i < self.free@.len() implies self.free@[i]
                        != slot by {
                        assert(prior.free_list()[i + 1] == self.free@[i]);
                    }
                }
            },
        }
        proof {
            assert forall|i: int| 0 <= i < self.chain().len() implies self.nodes()[#[trigger] self.chain()[i] as int]
                == prior.nodes()[self.chain()[i] as int] by {
                assert(self.chain()[i] != slot);
                assert(Self::chain_node_ok(prior.nodes(), prior.chain(), i));
            }
            lemma_chain_linked_same(prior.nodes(), self.nodes(), self.chain());
            assert forall|i: int| 0 <= i < self.free@.len() implies #[trigger] Self::free_node_ok(
                self.nodes(),
                self.free@,
                i,
            ) by {
                if prior.free_list().len() > 0 {
                    assert(self.free@[i] == prior.free_list()[i + 1]);
                    assert(Self::free_node_ok(prior.nodes(), prior.free_list(), i + 1));
                    assert(prior.free_list()[i + 1] != slot);
                }
            }
            assert(self@ =~= prior@);
        }
        slot
    }

    /// Pushes an already unlinked slot onto the free list and moves its value
    /// out. The chain is left untouched; the caller has already detached the
    /// slot from it.
    fn dealloc_node(&mut self, slot: usize) -> (r: T)
        requires
            old(self).buf.wf(),
            slot < old(self).nodes().len(),
            old(self).nodes()[slot as int].value is Some,
            VecList::<T>::free_linked(old(self).nodes(), old(self).free_list()),
            old(self).free_list().no_duplicates(),
            old(self).free_summary_ok(),
            old(self).free_list().len() < usize::MAX,
        ensures
            final(self).buf.wf(),
            Some(r) == old(self).nodes()[slot as int].value,
            final(self).nodes().len() == old(self).nodes().len(),
            forall|j: int|
                #![trigger final(self).nodes()[j]]
                0 <= j < old(self).nodes().len() && j != slot ==> final(self).nodes()[j] == old(self).nodes()[j],
            final(self).nodes()[slot as int].value is None,
            final(self).free_list() == seq![slot] + old(self).free_list(),
            VecList::<T>::free_linked(final(self).nodes(), final(self).free_list()),
            final(self).free_list().no_duplicates(),
            final(self).free_summary_ok(),
            final(self).chain() == old(self).chain(),
            final(self).ends == old(self).ends,
            final(self).spec_capacity() == old(self).spec_capacity(),
    {
        let ghost prior = *self;
        proof {
            assert forall|i: int| 0 <= i < prior.free_list().len() implies prior.free_list()[i]
                != slot by {
                assert(Self::free_node_ok(prior.nodes(), prior.free_list(), i));
            }
        }
        let empty0 = self.empty;
        let n = self.buf.get_mut(slot);
        let v = n.value.take();
        match empty0 {
            None => {
                n.next = None;
            },
            Some((_, head)) => {
                n.stack_push(head);
            },
        }
        self.empty = match empty0 {
            None => Some((1, slot)),
            Some((count, _)) => Some((count + 1, slot)),
        };
        self.free = Ghost(seq![slot] + self.free@);
        proof {
            assert forall|i: int| 0 <= i < self.free@.len() implies #[trigger] Self::free_node_ok(
                self.nodes(),
                self.free@,
                i,
            ) by {
                if i > 0 {
                    assert(self.free@[i] == prior.free_list()[i - 1]);
                    assert(Self::free_node_ok(prior.nodes(), prior.free_list(), i - 1));
                    assert(prior.free_list()[i - 1] != slot);
                }
            }
        }
        match v {
            Some(x) => x,
            None => vstd::pervasive::unreached(),
        }
    }

    /// Splices `value` into the chain at position `pos`, between the slots
    /// `left` and `right` (the current occupants of positions `pos - 1` and
    /// `pos`, where those exist). Runs in constant time beyond allocation.
    pub(crate) fn splice_at(
        &mut self,
        value: T,
        left: Option<usize>,
        right: Option<usize>,
        Ghost(pos): Ghost<int>,
    ) -> (slot: usize)
        requires
            old(self).wf(),
            0 <= pos <= old(self).chain().len(),
            left == if pos > 0 {
                Some(old(self).chain()[pos - 1])
            } else {
                None::<usize>
            },
            right == if pos < old(self).chain().len() {
                Some(old(self).chain()[pos])
            } else {
                None::<usize>
            },
            old(self)@.len() < usize::MAX,
        ensures
            final(self).wf(),
            final(self)@ == old(self)@.insert(pos, value),
            final(self).chain() == old(self).chain().insert(pos, slot),
            !old(self).chain().contains(slot),
            old(self).free_list().len() > 0 ==> final(self).spec_capacity() == old(self).spec_capacity()
                && final(self).spec_node_count() == old(self).spec_node_count(),
            final(self).spec_capacity() >= old(self).spec_capacity(),
            final(self).free_list().len() == if old(self).free_list().len() > 0 {
                old(self).free_list().len() - 1
            } else {
                0
            },
    {
        let ghost prior = *self;
        let slot = self.alloc_node(value);
        let ghost mid = *self;
        proof {
            if pos > 0 {
                assert(Self::chain_node_ok(mid.nodes(), mid.chain(), pos - 1));
            }
            if pos < mid.chain().len() {
                assert(Self::chain_node_ok(mid.nodes(), mid.chain(), pos));
            }
        }
        if let Some(l) = left {
            let n = self.buf.get_mut(l);
            n.next = Some(slot);
            let m = self.buf.get_mut(slot);
            m.prev = Some(l);
        }
        if let Some(rt) = right {
            let n = self.buf.get_mut(rt);
            n.prev = Some(slot);
            let m = self.buf.get_mut(slot);
            m.next = Some(rt);
        }
        self.ends = match self.ends {
            None => Some((1usize, slot, slot)),
            Some((len, head, tail)) => {
                let nh = if left.is_none() {
                    slot
                } else {
                    head
                };
                let nt = if right.is_none() {
                    slot
                } else {
                    tail
                };
                Some((len + 1, nh, nt))
            },
        };
        let ghost new_chain = prior.chain().insert(pos, slot);
        proof {
            self.chain@ = new_chain;
        }
        proof {
            prior.chain().insert_ensures(pos, slot);
            lemma_insert_no_duplicates(prior.chain(), pos, slot);
            if pos > 0 {
                assert(Self::chain_node_ok(mid.nodes(), prior.chain(), pos - 1));
            }
            if pos < prior.chain().len() {
                assert(Self::chain_node_ok(mid.nodes(), prior.chain(), pos));
            }
            lemma_splice_links(mid.nodes(), self.nodes(), prior.chain(), pos, slot);
            // No free slot was touched: the three rewired slots all hold values.
            assert forall|i: int| 0 <= i < mid.free_list().len() implies self.nodes()[#[trigger] mid.free_list()[i] as int]
                == mid.nodes()[mid.free_list()[i] as int] by {
                assert(Self::free_node_ok(mid.nodes(), mid.free_list(), i));
            }
            lemma_free_linked_same(mid.nodes(), self.nodes(), mid.free_list());
            assert forall|i: int| 0 <= i < new_chain.len() implies self@[i] == prior@.insert(
                pos,
                value,
            )[i] by {
                prior@.insert_ensures(pos, value);
                if i != pos {
                    let k = if i < pos {
                        i
                    } else {
                        i - 1
                    };
                    assert(new_chain[i] == prior.chain()[k]);
                    assert(Self::chain_node_ok(mid.nodes(), prior.chain(), k));
                    assert(self.nodes()[new_chain[i] as int].value == mid.nodes()[new_chain[i] as int].value);
                }
            }
            assert(self@ =~= prior@.insert(pos, value));
        }
        slot
    }

    /// Unlinks the slot at chain position `pos` from the chain, recycles it,
    /// and returns its value. Runs in constant time.
    pub(crate) fn unlink_at(&mut self, slot: usize, Ghost(pos): Ghost<int>) -> (r: T)
        requires
            old(self).wf(),
            0 <= pos < old(self).chain().len(),
            old(self).chain()[pos] == slot,
        ensures
            final(self).wf(),
            r == old(self)@[pos],
            final(self)@ == old(self)@.remove(pos),
            final(self).chain() == old(self).chain().remove(pos),
            final(self).spec_capacity() == old(self).spec_capacity(),
            final(self).spec_node_count() == old(self).spec_node_count(),
    {
        let ghost prior = *self;
        proof {
            assert(Self::chain_node_ok(prior.nodes(), prior.chain(), pos));
            if pos > 0 {
                assert(Self::chain_node_ok(prior.nodes(), prior.chain(), pos - 1));
            }
            if pos + 1 < prior.chain().len() {
                assert(Self::chain_node_ok(prior.nodes(), prior.chain(), pos + 1));
            }
        }
        let node_prev = self.buf.get(slot).prev;
        let node_next = self.buf.get(slot).next;
        if let Some(p) = node_prev {
            let n = self.buf.get_mut(p);
            n.next = node_next;
        }
        if let Some(nx) = node_next {
            let n = self.buf.get_mut(nx);
            n.prev = node_prev;
        }
        let (len, head, tail) = match self.ends {
            Some(e) => e,
            None => vstd::pervasive::unreached(),
        };
        self.ends = if len == 1 {
            None
        } else {
            let new_head = if slot == head {
                match node_next {
                    Some(nx) => nx,
                    None => vstd::pervasive::unreached(),
                }
            } else {
                head
            };
            let new_tail = if slot == tail {
                match node_prev {
                    Some(p) => p,
                    None => vstd::pervasive::unreached(),
                }
            } else {
                tail
            };
            Some((len - 1, new_head, new_tail))
        };
        let ghost new_chain = prior.chain().remove(pos);
        proof {
            self.chain@ = new_chain;
        }
        proof {
            prior.chain().remove_ensures(pos);
            lemma_remove_no_duplicates(prior.chain(), pos);
            lemma_unlink_links(prior.nodes(), self.nodes(), prior.chain(), pos);
            // No free slot was touched: both patched neighbours hold values.
            assert forall|i: int| 0 <= i < prior.free_list().len() implies self.nodes()[#[trigger] prior.free_list()[i] as int]
                == prior.nodes()[prior.free_list()[i] as int] by {
                assert(Self::free_node_ok(prior.nodes(), prior.free_list(), i));
            }
            lemma_free_linked_same(prior.nodes(), self.nodes(), prior.free_list());
            self.buf.lemma_len_le_cap();
            assert(self.free_list().len() < usize::MAX);
        }
        let ghost before_dealloc = *self;
        let v = self.dealloc_node(slot);
        proof {
            assert forall|i: int| 0 <= i < new_chain.len() implies new_chain[i] != slot by {
                prior.chain().remove_ensures(pos);
                assert(new_chain[i] == prior.chain()[if i < pos {
                    i
                } else {
                    i + 1
                }]);
            }
            assert forall|i: int| 0 <= i < new_chain.len() implies self.nodes()[#[trigger] new_chain[i] as int]
                == before_dealloc.nodes()[new_chain[i] as int] by {
                assert(Self::chain_node_ok(before_dealloc.nodes(), new_chain, i));
            }
            lemma_chain_linked_same(before_dealloc.nodes(), self.nodes(), new_chain);
            assert(self.free_list().no_duplicates()) by {
                assert forall|i: int| 0 <= i < before_dealloc.free_list().len() implies before_dealloc.free_list()[i]
                    != slot by {
                    assert(Self::free_node_ok(
                        before_dealloc.nodes(),
                        before_dealloc.free_list(),
                        i,
                    ));
                }
                assert forall|i: int, j: int|
                    0 <= i < self.free_list().len() && 0 <= j < self.free_list().len() && i
                        != j implies self.free_list()[i] != self.free_list()[j] by {}
            }
            assert forall|i: int| 0 <= i < new_chain.len() implies self@[i] == prior@.remove(pos)[i] by {
                prior@.remove_ensures(pos);
                prior.chain().remove_ensures(pos);
                let k = if i < pos {
                    i
                } else {
                    i + 1
                };
                assert(new_chain[i] == prior.chain()[k]);
                assert(Self::chain_node_ok(prior.nodes(), prior.chain(), k));
            }
            assert(self@ =~= prior@.remove(pos));
        }
        v
    }
}

impl<T> VecList<T> {
    /// A well-formed list's chain has one distinct slot per element.
    pub(crate) proof fn lemma_chain_distinct(&self)
        requires
            self.wf(),
        ensures
            self.chain().no_duplicates(),
            self.chain().len() == self@.len(),
    {
    }

    /// A well-formed list never holds more elements than fit in a `usize`.
    pub proof fn lemma_len_bound(&self)
        requires
            self.wf(),
        ensures
            self@.len() <= self.spec_node_count() <= self.spec_capacity() <= usize::MAX,
    {
        self.buf.lemma_len_le_cap();
    }

    /// Returns the raw `ends` summary: the chain length and the slots of its
    /// first and last element, or `None` for an empty list.
    pub(crate) fn get_ends(&self) -> (r: Option<(usize, usize, usize)>)
        requires
            self.wf(),
        ensures
            match r {
                None => self@.len() == 0,
                Some((len, head, tail)) => {
                    &&& len == self@.len()
                    &&& len > 0
                    &&& head == self.chain()[0]
                    &&& tail == self.chain()[len - 1]
                },
            },
    {
        self.ends
    }

    /// Returns the slot of the chain entry after position `pos`, if any.
    pub(crate) fn next_slot(&self, slot: usize, Ghost(pos): Ghost<int>) -> (r: Option<usize>)
        requires
            self.wf(),
            0 <= pos < self.chain().len(),
            self.chain()[pos] == slot,
        ensures
            r == if pos + 1 < self.chain().len() {
                Some(self.chain()[pos + 1])
            } else {
                None::<usize>
            },
    {
        proof {
            assert(Self::chain_node_ok(self.nodes(), self.chain(), pos));
        }
        self.buf.get(slot).next
    }

    /// Returns the slot of the chain entry before position `pos`, if any.
    pub(crate) fn prev_slot(&self, slot: usize, Ghost(pos): Ghost<int>) -> (r: Option<usize>)
        requires
            self.wf(),
            0 <= pos < self.chain().len(),
            self.chain()[pos] == slot,
        ensures
            r == if pos > 0 {
                Some(self.chain()[pos - 1])
            } else {
                None::<usize>
            },
    {
        proof {
            assert(Self::chain_node_ok(self.nodes(), self.chain(), pos));
        }
        self.buf.get(slot).prev
    }

    /// Borrows the value stored at chain position `pos`.
    pub(crate) fn value_at<'a>(&'a self, slot: usize, Ghost(pos): Ghost<int>) -> (r: &'a T)
        requires
            self.wf(),
            0 <= pos < self.chain().len(),
            self.chain()[pos] == slot,
        ensures
            *r == self@[pos],
    {
        proof {
            assert(Self::chain_node_ok(self.nodes(), self.chain(), pos));
        }
        match &self.buf.get(slot).value {
            Some(v) => v,
            None => vstd::pervasive::unreached(),
        }
    }

    /// Mutably borrows the value stored at chain position `pos`. Only that
    /// element of the view can change through the returned reference.
    pub(crate) fn value_at_mut<'a>(&'a mut self, slot: usize, Ghost(pos): Ghost<int>) -> (r:
        &'a mut T)
        requires
            old(self).wf(),
            0 <= pos < old(self).chain().len(),
            old(self).chain()[pos] == slot,
        ensures
            final(self).wf(),
            *r == old(self)@[pos],
            final(self)@ == old(self)@.update(pos, *final(r)),
            final(self).chain() == old(self).chain(),
            final(self).free_list() == old(self).free_list(),
            final(self).spec_capacity() == old(self).spec_capacity(),
            final(self).spec_node_count() == old(self).spec_node_count(),
    {
        proof {
            assert(Self::chain_node_ok(self.nodes(), self.chain(), pos));
            let nodes = self.nodes();
            let ch = self.chain();
            let fr = self.free_list();
            assert forall|nn: Node<T>|
                nn.value is Some && nn.prev == nodes[slot as int].prev && nn.next == nodes[
                slot as int].next implies {
                &&& Self::chain_linked(nodes.update(slot as int, nn), ch)
                &&& Self::free_linked(nodes.update(slot as int, nn), fr)
                &&& Seq::new(
                    ch.len(),
                    |i: int| nodes.update(slot as int, nn)[ch[i] as int].value->0,
                ) =~= self@.update(pos, nn.value->0)
            } by {
                assert forall|i: int| 0 <= i < ch.len() implies #[trigger] Self::chain_node_ok(
                    nodes.update(slot as int, nn),
                    ch,
                    i,
                ) by {
                    assert(Self::chain_node_ok(nodes, ch, i));
                }
                assert forall|i: int| 0 <= i < fr.len() implies #[trigger] Self::free_node_ok(
                    nodes.update(slot as int, nn),
                    fr,
                    i,
                ) by {
                    assert(Self::free_node_ok(nodes, fr, i));
                }
                let newseq = Seq::new(
                    ch.len(),
                    |k: int| nodes.update(slot as int, nn)[ch[k] as int].value->0,
                );
                assert forall|i: int| 0 <= i < ch.len() implies newseq[i] == self@.update(
                    pos,
                    nn.value->0,
                )[i] by {
                    assert(Self::chain_node_ok(nodes, ch, i));
                    assert(newseq[i] == nodes.update(slot as int, nn)[ch[i] as int].value->0);
                    assert(self@[i] == nodes[ch[i] as int].value->0);
                    if i != pos {
                        assert(ch[i] != slot);
                        assert(newseq[i] == nodes[ch[i] as int].value->0);
                        assert(self@.update(pos, nn.value->0)[i] == self@[i]);
                    } else {
                        assert(ch[i] == slot);
                        assert(newseq[i] == nn.value->0);
                        assert(self@.update(pos, nn.value->0)[i] == nn.value->0);
                    }
                }
                assert(newseq =~= self@.update(pos, nn.value->0));
            }
        }
        let n = self.buf.get_mut(slot);
        match &mut n.value {
            Some(v) => v,
            None => vstd::pervasive::unreached(),
        }
    }

    /// Resolves a position to its slot by walking from whichever end of the
    /// chain is closer, in `O(min(index, len - index))` steps.
    pub(crate) fn ptr(&self, index: usize) -> (slot: usize)
        requires
            self.wf(),
            index < self@.len(),
        ensures
            slot == self.chain()[index as int],
    {
        let (len, head, tail) = match self.ends {
            Some(e) => e,
            None => vstd::pervasive::unreached(),
        };
        let back_index = len - index - 1;
        if back_index < index {
            let mut cur = tail;
            let mut steps: usize = 0;
            while steps < back_index
                invariant
                    self.wf(),
                    index < self@.len(),
                    back_index == self@.len() - index - 1,
                    steps <= back_index,
                    cur == self.chain()[self@.len() - 1 - steps],
                decreases back_index - steps,
            {
                proof {
                    assert(Self::chain_node_ok(
                        self.nodes(),
                        self.chain(),
                        self@.len() - 1 - steps,
                    ));
                }
                cur = self.buf.get(cur).prev();
                steps = steps + 1;
            }
            cur
        } else {
            let mut cur = head;
            let mut steps: usize = 0;
            while steps < index
                invariant
                    self.wf(),
                    index < self@.len(),
                    steps <= index,
                    cur == self.chain()[steps as int],
                decreases index - steps,
            {
                proof {
                    assert(Self::chain_node_ok(self.nodes(), self.chain(), steps as int));
                }
                cur = self.buf.get(cur).next();
                steps = steps + 1;
            }
            cur
        }
    }

    /// Pushes `value` onto the front of the list.
    pub fn push_front(&mut self, value: T)
        requires
            old(self).wf(),
            old(self)@.len() < usize::MAX,
        ensures
            final(self).wf(),
            final(self)@ == seq![value] + old(self)@,
            final(self).spec_capacity() >= old(self).spec_capacity(),
    {
        let right = match self.ends {
            None => None,
            Some((_, head, _)) => Some(head),
        };
        self.splice_at(value, None, right, Ghost(0));
        proof {
            assert(self@ =~= seq![value] + old(self)@);
        }
    }

    /// Pushes `value` onto the back of the list.
    pub fn push_back(&mut self, value: T)
        requires
            old(self).wf(),
            old(self)@.len() < usize::MAX,
        ensures
            final(self).wf(),
            final(self)@ == old(self)@.push(value),
            final(self).spec_capacity() >= old(self).spec_capacity(),
    {
        let left = match self.ends {
            None => None,
            Some((_, _, tail)) => Some(tail),
        };
        let ghost pos = self.chain@.len() as int;
        self.splice_at(value, left, None, Ghost(pos));
        proof {
            assert(self@ =~= old(self)@.push(value));
        }
    }

    /// Pops the front value off the list; returns `None`, leaving the list
    /// untouched, exactly when it is empty.
    pub fn pop_front(&mut self) -> (r: Option<T>)
        requires
            old(self).wf(),
        ensures
            final(self).wf(),
            old(self)@.len() == 0 ==> r is None && *final(self) == *old(self),
            old(self)@.len() > 0 ==> r == Some(old(self)@[0]) && final(self)@ == old(
                self,
            )@.drop_first(),
            final(self).spec_capacity() == old(self).spec_capacity(),
            final(self).spec_node_count() == old(self).spec_node_count(),
    {
        match self.ends {
            None => None,
            Some((_, head, _)) => {
                let v = self.unlink_at(head, Ghost(0));
                proof {
                    assert(self@ =~= old(self)@.drop_first());
                }
                Some(v)
            },
        }
    }

    /// Pops the back value off the list; returns `None`, leaving the list
    /// untouched, exactly when it is empty.
    pub fn pop_back(&mut self) -> (r: Option<T>)
        requires
            old(self).wf(),
        ensures
            final(self).wf(),
            old(self)@.len() == 0 ==> r is None && *final(self) == *old(self),
            old(self)@.len() > 0 ==> r == Some(old(self)@.last()) && final(self)@ == old(
                self,
            )@.drop_last(),
            final(self).spec_capacity() == old(self).spec_capacity(),
            final(self).spec_node_count() == old(self).spec_node_count(),
    {
        match self.ends {
            None => None,
            Some((len, _, tail)) => {
                let v = self.unlink_at(tail, Ghost(len - 1));
                proof {
                    assert(self@ =~= old(self)@.drop_last());
                }
                Some(v)
            },
        }
    }

    /// Borrows the front value, or returns `None` for an empty list.
    pub fn front(&self) -> (r: Option<&T>)
        requires
            self.wf(),
        ensures
            match r {
                None => self@.len() == 0,
                Some(v) => self@.len() > 0 && *v == self@[0],
            },
    {
        match self.ends {
            None => None,
            Some((_, head, _)) => Some(self.value_at(head, Ghost(0))),
        }
    }

    /// Borrows the back value, or returns `None` for an empty list.
    pub fn back(&self) -> (r: Option<&T>)
        requires
            self.wf(),
        ensures
            match r {
                None => self@.len() == 0,
                Some(v) => self@.len() > 0 && *v == self@.last(),
            },
    {
        match self.ends {
            None => None,
            Some((len, _, tail)) => Some(self.value_at(tail, Ghost(len - 1))),
        }
    }

    /// Mutably borrows the front value of a non-empty list.
    pub fn front_mut(&mut self) -> (r: &mut T)
        requires
            old(self).wf(),
            old(self)@.len() > 0,
        ensures
            final(self).wf(),
            *r == old(self)@[0],
            final(self)@ == old(self)@.update(0, *final(r)),
            final(self).spec_capacity() == old(self).spec_capacity(),
    {
        let head = match self.ends {
            Some((_, head, _)) => head,
            None => vstd::pervasive::unreached(),
        };
        self.value_at_mut(head, Ghost(0))
    }

    /// Mutably borrows the back value of a non-empty list.
    pub fn back_mut(&mut self) -> (r: &mut T)
        requires
            old(self).wf(),
            old(self)@.len() > 0,
        ensures
            final(self).wf(),
            *r == old(self)@.last(),
            final(self)@ == old(self)@.update(old(self)@.len() - 1, *final(r)),
            final(self).spec_capacity() == old(self).spec_capacity(),
    {
        let (len, tail) = match self.ends {
            Some((len, _, tail)) => (len, tail),
            None => vstd::pervasive::unreached(),
        };
        self.value_at_mut(tail, Ghost(len - 1))
    }

    /// Borrows the value at position `index`; returns `None` exactly when the
    /// index is out of range.
    pub fn get(&self, index: usize) -> (r: Option<&T>)
        requires
            self.wf(),
        ensures
            match r {
                None => index >= self@.len(),
                Some(v) => index < self@.len() && *v == self@[index as int],
            },
    {
        if index < self.len() {
            let slot = self.ptr(index);
            Some(self.value_at(slot, Ghost(index as int)))
        } else {
            None
        }
    }

    /// Mutably borrows the value at position `index`, which must be in range.
    pub fn get_mut(&mut self, index: usize) -> (r: &mut T)
        requires
            old(self).wf(),
            index < old(self)@.len(),
        ensures
            final(self).wf(),
            *r == old(self)@[index as int],
            final(self)@ == old(self)@.update(index as int, *final(r)),
            final(self).spec_capacity() == old(self).spec_capacity(),
    {
        let slot = self.ptr(index);
        self.value_at_mut(slot, Ghost(index as int))
    }

    /// Inserts `value` at position `index`, shifting the elements from
    /// `index` on one place towards the back.
    pub fn insert(&mut self, index: usize, value: T)
        requires
            old(self).wf(),
            index <= old(self)@.len(),
            old(self)@.len() < usize::MAX,
        ensures
            final(self).wf(),
            final(self)@ == old(self)@.insert(index as int, value),
            final(self).spec_capacity() >= old(self).spec_capacity(),
    {
        if index == 0 {
            let right = match self.ends {
                None => None,
                Some((_, head, _)) => Some(head),
            };
            self.splice_at(value, None, right, Ghost(0));
        } else {
            let left = self.ptr(index - 1);
            let right = self.next_slot(left, Ghost(index - 1));
            self.splice_at(value, Some(left), right, Ghost(index as int));
        }
    }

    /// Removes and returns the value at position `index`, which must be in
    /// range; the elements behind it shift one place towards the front.
    pub fn remove(&mut self, index: usize) -> (r: T)
        requires
            old(self).wf(),
            index < old(self)@.len(),
        ensures
            final(self).wf(),
            r == old(self)@[index as int],
            final(self)@ == old(self)@.remove(index as int),
            final(self).spec_capacity() == old(self).spec_capacity(),
            final(self).spec_node_count() == old(self).spec_node_count(),
    {
        let slot = self.ptr(index);
        self.unlink_at(slot, Ghost(index as int))
    }
}

impl<T> VecList<T> {
    /// Reserves capacity for at least `additional` further insertions, first
    /// crediting the free slots that will be reused before the arena grows.
    pub fn reserve(&mut self, additional: usize)
        requires
            old(self).wf(),
            old(self).spec_node_count() + additional <= usize::MAX,
        ensures
            final(self).wf(),
            final(self)@ == old(self)@,
            final(self).spec_node_count() == old(self).spec_node_count(),
            final(self).spec_capacity() == ({
                let free = old(self).spec_node_count() - old(self)@.len();
                let adj = if additional >= free {
                    additional - free
                } else {
                    0
                };
                if old(self).spec_node_count() + adj > old(self).spec_capacity() {
                    crate::raw_vec::grown_cap(
                        old(self).spec_capacity(),
                        (old(self).spec_node_count() + adj) as usize,
                    )
                } else {
                    old(self).spec_capacity() as int
                }
            }),
    {
        let free_count: usize = match self.empty {
            None => 0,
            Some((count, _)) => count,
        };
        let adj: usize = if additional >= free_count {
            additional - free_count
        } else {
            0
        };
        let used = self.buf.len();
        self.buf.reserve(used, adj);
    }

    /// Reserves capacity for exactly `additional` further insertions, first
    /// crediting the free slots that will be reused before the arena grows.
    pub fn reserve_exact(&mut self, additional: usize)
        requires
            old(self).wf(),
            old(self).spec_node_count() + additional <= usize::MAX,
            old(self).spec_capacity() + additional <= usize::MAX,
        ensures
            final(self).wf(),
            final(self)@ == old(self)@,
            final(self).spec_node_count() == old(self).spec_node_count(),
            final(self).spec_capacity() == ({
                let free = old(self).spec_node_count() - old(self)@.len();
                let adj = if additional >= free {
                    additional - free
                } else {
                    0
                };
                if old(self).spec_node_count() + adj > old(self).spec_capacity() {
                    old(self).spec_capacity() + adj
                } else {
                    old(self).spec_capacity() as int
                }
            }),
    {
        let free_count: usize = match self.empty {
            None => 0,
            Some((count, _)) => count,
        };
        let adj: usize = if additional >= free_count {
            additional - free_count
        } else {
            0
        };
        let used = self.buf.len();
        self.buf.reserve_exact(used, adj);
    }

    /// Removes every element, recycling all slots; the reserved capacity is
    /// kept.
    pub fn clear(&mut self)
        requires
            old(self).wf(),
        ensures
            final(self).wf(),
            final(self)@ == Seq::<T>::empty(),
            final(self).spec_capacity() == old(self).spec_capacity(),
            final(self).spec_node_count() == old(self).spec_node_count(),
    {
        while !self.is_empty()
            invariant
                self.wf(),
                self.spec_capacity() == old(self).spec_capacity(),
                self.spec_node_count() == old(self).spec_node_count(),
            decreases self@.len(),
        {
            let _ = self.pop_back();
        }
        proof {
            assert(self@ =~= Seq::<T>::empty());
        }
    }

    /// Appends every value of `values` to the back of the list, in order.
    pub fn extend_from_vec(&mut self, values: Vec<T>)
        requires
            old(self).wf(),
            old(self)@.len() + values@.len() <= usize::MAX,
        ensures
            final(self).wf(),
            final(self)@ == old(self)@ + values@,
    {
        let ghost orig = values@;
        let ghost base = self@;
        let mut values = values;
        let mut rev: Vec<T> = Vec::new();
        proof {
            assert(values@ =~= orig.take(values@.len() as int));
        }
        while values.len() > 0
            invariant
                rev@.len() + values@.len() == orig.len(),
                values@ == orig.take(values@.len() as int),
                forall|i: int| 0 <= i < rev@.len() ==> rev@[i] == orig[orig.len() - 1 - i],
            decreases values@.len(),
        {
            match values.pop() {
                Some(v) => {
                    rev.push(v);
                    proof {
                        assert(values@ =~= orig.take(values@.len() as int));
                    }
                },
                None => vstd::pervasive::unreached(),
            }
        }
        proof {
            assert(base + orig.take(orig.len() - rev@.len()) =~= base);
        }
        while rev.len() > 0
            invariant
                self.wf(),
                base == old(self)@,
                base.len() + orig.len() <= usize::MAX,
                rev@.len() <= orig.len(),
                self@ == base + orig.take(orig.len() - rev@.len()),
                forall|i: int| 0 <= i < rev@.len() ==> rev@[i] == orig[orig.len() - 1 - i],
            decreases rev@.len(),
        {
            match rev.pop() {
                Some(v) => {
                    self.push_back(v);
                    proof {
                        assert(self@ =~= base + orig.take(orig.len() - rev@.len()));
                    }
                },
                None => vstd::pervasive::unreached(),
            }
        }
        proof {
            assert(base + orig.take(orig.len() as int) =~= base + orig);
        }
    }

    /// Builds a list holding the values of `values`, in order.
    pub fn from_vec(values: Vec<T>) -> (r: Self)
        ensures
            r.wf(),
            r@ == values@,
    {
        let capacity = values.len();
        let mut list = Self::with_capacity(capacity);
        list.extend_from_vec(values);
        proof {
            assert(Seq::<T>::empty() + values@ =~= values@);
        }
        list
    }

    /// Splits the list at `index`: everything from position `index` on moves,
    /// in order, into a freshly allocated list that is returned; the first
    /// `index` elements stay.
    pub fn split_at(&mut self, index: usize) -> (r: Self)
        requires
            old(self).wf(),
            index <= old(self)@.len(),
        ensures
            final(self).wf(),
            r.wf(),
            final(self)@ == old(self)@.take(index as int),
            r@ == old(self)@.skip(index as int),
            final(self).spec_capacity() == old(self).spec_capacity(),
    {
        let count = self.len() - index;
        let mut out = Self::with_capacity(count);
        let mut k: usize = 0;
        while k < count
            invariant
                self.wf(),
                out.wf(),
                k <= count,
                count == old(self)@.len() - index,
                self@ == old(self)@.take(old(self)@.len() - k),
                out@ == old(self)@.skip(old(self)@.len() - k),
                self.spec_capacity() == old(self).spec_capacity(),
            decreases count - k,
        {
            let v = match self.pop_back() {
                Some(v) => v,
                None => vstd::pervasive::unreached(),
            };
            out.push_front(v);
            k = k + 1;
            proof {
                assert(self@ =~= old(self)@.take(old(self)@.len() - k));
                assert(out@ =~= old(self)@.skip(old(self)@.len() - k));
            }
        }
        proof {
            assert(self@ =~= old(self)@.take(index as int));
            assert(out@ =~= old(self)@.skip(index as int));
        }
        out
    }
}

impl<T> Default for VecList<T> {
    /// Builds an empty list with no reserved capacity.
    fn default() -> (r: Self)
        ensures
            r.wf(),
            r@ == Seq::<T>::empty(),
            r.spec_capacity() == 0,
    {
        Self::new()
    }
}

/// The values of `ds` whose decision equals `pick`, in order.
pub open spec fn picked_values<T>(ds: Seq<(T, bool)>, pick: bool) -> Seq<T>
    decreases ds.len(),
{
    if ds.len() == 0 {
        Seq::empty()
    } else {
        picked_values(ds.drop_last(), pick) + if ds.last().1 == pick {
            seq![ds.last().0]
        } else {
            Seq::empty()
        }
    }
}

/// A decision sequence partitions its values: every value goes to exactly one
/// of the picked and the rejected side, so the two lengths add up.
pub proof fn lemma_picked_values_partition<T>(ds: Seq<(T, bool)>)
    ensures
        picked_values(ds, true).len() + picked_values(ds, false).len() == ds.len(),
    decreases ds.len(),
{
    if ds.len() > 0 {
        lemma_picked_values_partition(ds.drop_last());
    }
}

/// When every decision follows one predicate and leaves the values unchanged,
/// the picked side of a decision sequence is exactly the filtered sequence:
/// what a run of `retain` or of a filtering drain keeps or yields is precisely
/// the elements the predicate selects, in order.
pub proof fn lemma_picked_values_filter<T>(s: Seq<T>, ds: Seq<(T, bool)>, p: spec_fn(T) -> bool)
    requires
        ds.len() == s.len(),
        forall|i: int| 0 <= i < s.len() ==> #[trigger] ds[i] == (s[i], p(s[i])),
    ensures
        picked_values(ds, true) == s.filter(p),
    decreases s.len(),
{
    reveal(Seq::filter);
    if s.len() > 0 {
        assert(ds.drop_last().len() == s.drop_last().len());
        assert forall|i: int| 0 <= i < s.drop_last().len() implies #[trigger] ds.drop_last()[i]
            == (s.drop_last()[i], p(s.drop_last()[i])) by {
            assert(ds[i] == (s[i], p(s[i])));
        }
        lemma_picked_values_filter(s.drop_last(), ds.drop_last(), p);
        assert(ds.last() == (s.last(), p(s.last())));
        if p(s.last()) {
            assert(s.filter(p) == s.drop_last().filter(p).push(s.last()));
            assert(picked_values(ds, true) == picked_values(ds.drop_last(), true) + seq![
                s.last(),
            ]);
            assert(s.drop_last().filter(p) + seq![s.last()] =~= s.drop_last().filter(p).push(
                s.last(),
            ));
        } else {
            assert(s.filter(p) == s.drop_last().filter(p));
            assert(picked_values(ds, true) =~= picked_values(ds.drop_last(), true));
        }
    } else {
        assert(s.filter(p) == s);
        assert(picked_values(ds, true) =~= s);
    }
}

impl<T> VecList<T> {
    /// Runs the predicate `f` on the value at chain position `pos`, storing
    /// the value it hands back in place, and returns its decision.
    pub(crate) fn apply_filter_at<F: Fn(T) -> (T, bool)>(
        &mut self,
        slot: usize,
        Ghost(pos): Ghost<int>,
        f: &F,
    ) -> (passed: bool)
        requires
            old(self).wf(),
            0 <= pos < old(self).chain().len(),
            old(self).chain()[pos] == slot,
            call_requires(*f, (old(self)@[pos],)),
        ensures
            final(self).wf(),
            final(self).chain() == old(self).chain(),
            final(self).free_list() == old(self).free_list(),
            final(self).spec_capacity() == old(self).spec_capacity(),
            final(self).spec_node_count() == old(self).spec_node_count(),
            exists|v2: T|
                #[trigger] call_ensures(*f, (old(self)@[pos],), (v2, passed)) && final(self)@
                    == old(self)@.update(pos, v2),
    {
        let ghost prior = *self;
        proof {
            assert(Self::chain_node_ok(prior.nodes(), prior.chain(), pos));
        }
        let n = self.buf.get_mut(slot);
        let v = match n.value.take() {
            Some(v) => v,
            None => vstd::pervasive::unreached(),
        };
        let (v2, passed) = f(v);
        let m = self.buf.get_mut(slot);
        m.value = Some(v2);
        proof {
            assert forall|i: int| 0 <= i < prior.chain().len() implies #[trigger] Self::chain_node_ok(
                self.nodes(),
                prior.chain(),
                i,
            ) by {
                assert(Self::chain_node_ok(prior.nodes(), prior.chain(), i));
            }
            assert forall|i: int| 0 <= i < prior.free_list().len() implies #[trigger] Self::free_node_ok(
                self.nodes(),
                prior.free_list(),
                i,
            ) by {
                assert(Self::free_node_ok(prior.nodes(), prior.free_list(), i));
            }
            assert forall|i: int| 0 <= i < prior.chain().len() implies self@[i] == prior@.update(
                pos,
                v2,
            )[i] by {
                assert(Self::chain_node_ok(prior.nodes(), prior.chain(), i));
                if i != pos {
                    assert(prior.chain()[i] != slot);
                }
            }
            assert(self@ =~= prior@.update(pos, v2));
        }
        passed
    }

    /// Keeps exactly the elements for which the predicate decides `true`, in
    /// their original order; the predicate receives each visited value and
    /// hands back the value to store in its place, so it may rewrite even
    /// elements that are then discarded.
    pub fn retain<F: Fn(T) -> (T, bool)>(&mut self, f: F)
        requires
            old(self).wf(),
            forall|i: int| 0 <= i < old(self)@.len() ==> call_requires(f, (#[trigger] old(self)@[i],)),
        ensures
            final(self).wf(),
            final(self).spec_capacity() == old(self).spec_capacity(),
            final(self).spec_node_count() == old(self).spec_node_count(),
            exists|ds: Seq<(T, bool)>|
                {
                    &&& ds.len() == old(self)@.len()
                    &&& forall|i: int|
                        0 <= i < ds.len() ==> call_ensures(f, (old(self)@[i],), #[trigger] ds[i])
                    &&& final(self)@ == picked_values(ds, true)
                },
    {
        let ghost orig = *self;
        let mut cur: Option<usize> = match self.ends {
            None => None,
            Some((_, head, _)) => Some(head),
        };
        let mut kp: usize = 0;
        let ghost mut k: int = 0;
        let ghost mut ds: Seq<(T, bool)> = Seq::empty();
        loop
            invariant
                self.wf(),
                0 <= k <= orig@.len(),
                ds.len() == k,
                forall|i: int| 0 <= i < k ==> call_ensures(f, (orig@[i],), #[trigger] ds[i]),
                forall|i: int|
                    k <= i < orig@.len() ==> call_requires(f, (#[trigger] orig@[i],)),
                self@ == picked_values(ds, true) + orig@.skip(k),
                kp == picked_values(ds, true).len(),
                match cur {
                    Some(c) => k < orig@.len() && c == self.chain()[kp as int],
                    None => k == orig@.len(),
                },
                self.spec_capacity() == orig.spec_capacity(),
                self.spec_node_count() == orig.spec_node_count(),
            ensures
                cur is None,
                k == orig@.len(),
            decreases orig@.len() - k,
        {
            let c = match cur {
                Some(c) => c,
                None => {
                    break;
                },
            };
            let ghost before = *self;
            proof {
                assert(self@.len() == picked_values(ds, true).len() + orig@.skip(k).len());
                assert(self.chain().len() == self@.len());
                assert(kp < self@.len());
                assert(self@[kp as int] == orig@.skip(k)[0]);
                assert(self@[kp as int] == orig@[k]);
            }
            let nxt = self.next_slot(c, Ghost(kp as int));
            let passed = self.apply_filter_at(c, Ghost(kp as int), &f);
            let ghost v2 = choose|v2: T|
                call_ensures(f, (before@[kp as int],), (v2, passed)) && self@ == before@.update(
                    kp as int,
                    v2,
                );
            if !passed {
                let _ = self.unlink_at(c, Ghost(kp as int));
            }
            proof {
                let nds = ds.push((v2, passed));
                assert(nds.drop_last() =~= ds);
                assert(picked_values(nds, true) == picked_values(ds, true) + if passed {
                    seq![v2]
                } else {
                    Seq::<T>::empty()
                });
                assert(self@ =~= picked_values(nds, true) + orig@.skip(k + 1));
                ds = nds;
                k = k + 1;
            }
            if passed {
                kp = kp + 1;
            }
            cur = nxt;
        }
        proof {
            assert(self@ =~= picked_values(ds, true));
        }
    }

    /// Copies the list's contents into a vector, front to back.
    pub fn to_vec(&self) -> (r: Vec<T>) where T: Copy
        requires
            self.wf(),
        ensures
            r@ == self@,
    {
        let len = self.len();
        let mut out: Vec<T> = Vec::with_capacity(len);
        let mut cur: usize = match self.ends {
            None => 0,
            Some((_, head, _)) => head,
        };
        let mut i: usize = 0;
        while i < len
            invariant
                self.wf(),
                len == self@.len(),
                i <= len,
                out@ == self@.take(i as int),
                i < len ==> cur == self.chain()[i as int],
            decreases len - i,
        {
            let v = *self.value_at(cur, Ghost(i as int));
            out.push(v);
            cur = match self.next_slot(cur, Ghost(i as int)) {
                Some(nx) => nx,
                None => cur,
            };
            i = i + 1;
            proof {
                assert(out@ =~= self@.take(i as int));
            }
        }
        proof {
            assert(out@ =~= self@);
        }
        out
    }

    /// Collecting a list's elements in order and rebuilding a fresh list from
    /// them yields a list with the same contents, element for element: what
    /// `to_vec` or a full iteration hands out (`collected == l@`) and what
    /// `from_vec` builds from it (`rebuilt@ == collected`) agree with the
    /// original list.
    pub proof fn lemma_collect_rebuild_round_trip(l: Self, collected: Seq<T>, rebuilt: Self)
        requires
            l.wf(),
            rebuilt.wf(),
            collected == l@,
            rebuilt@ == collected,
        ensures
            rebuilt@ == l@,
    {
    }

    /// Returns whether the two lists hold equal values in equal order; the
    /// comparison never depends on how the slots are laid out.
    pub fn eq_list(&self, other: &VecList<T>) -> (r: bool) where T: PartialEq
        requires
            self.wf(),
            other.wf(),
        ensures
            T::obeys_eq_spec() ==> (r <==> (self@.len() == other@.len() && forall|i: int|
                0 <= i < self@.len() ==> (#[trigger] self@[i]).eq_spec(&other@[i]))),
    {
        let len = self.len();
        if len != other.len() {
            return false;
        }
        let mut cur_a: usize = match self.ends {
            None => 0,
            Some((_, head, _)) => head,
        };
        let mut cur_b: usize = match other.ends {
            None => 0,
            Some((_, head, _)) => head,
        };
        let mut i: usize = 0;
        let mut same = true;
        while i < len && same
            invariant
                self.wf(),
                other.wf(),
                len == self@.len(),
                len == other@.len(),
                i <= len,
                i < len ==> cur_a == self.chain()[i as int] && cur_b == other.chain()[i as int],
                T::obeys_eq_spec() ==> (same <==> forall|j: int|
                    0 <= j < i ==> (#[trigger] self@[j]).eq_spec(&other@[j])),
            decreases len - i,
        {
            if !(*self.value_at(cur_a, Ghost(i as int)) == *other.value_at(cur_b, Ghost(i as int))) {
                same = false;
            }
            cur_a = match self.next_slot(cur_a, Ghost(i as int)) {
                Some(nx) => nx,
                None => cur_a,
            };
            cur_b = match other.next_slot(cur_b, Ghost(i as int)) {
                Some(nx) => nx,
                None => cur_b,
            };
            i = i + 1;
        }
        same
    }

    /// Returns whether some element equals `value`, walking front to back.
    pub fn contains(&self, value: &T) -> (r: bool) where T: PartialEq
        requires
            self.wf(),
        ensures
            T::obeys_eq_spec() ==> (r <==> exists|i: int|
                0 <= i < self@.len() && (#[trigger] self@[i]).eq_spec(value)),
    {
        let len = self.len();
        let mut cur: usize = match self.ends {
            None => 0,
            Some((_, head, _)) => head,
        };
        let mut i: usize = 0;
        let mut found = false;
        while i < len && !found
            invariant
                self.wf(),
                len == self@.len(),
                i <= len,
                i < len ==> cur == self.chain()[i as int],
                T::obeys_eq_spec() ==> (found <==> exists|j: int|
                    0 <= j < i && (#[trigger] self@[j]).eq_spec(value)),
            decreases len - i,
        {
            if *self.value_at(cur, Ghost(i as int)) == *value {
                found = true;
            }
            cur = match self.next_slot(cur, Ghost(i as int)) {
                Some(nx) => nx,
                None => cur,
            };
            i = i + 1;
        }
        found
    }
}

/// Pigeonhole for the arena: the chain and the free list are duplicate-free,
/// disjoint, and together exactly as long as the arena, so every slot outside
/// the chain lies on the free list.
proof fn lemma_slot_partition<T>(l: VecList<T>)
    requires
        l.wf(),
    ensures
        forall|j: usize|
            j < l.nodes().len() && !l.chain().contains(j) ==> l.free_list().contains(j),
{
    broadcast use vstd::seq_lib::seq_to_set_is_finite;

    let n = l.nodes().len() as int;
    let to_int = |u: usize| u as int;
    let ci = l.chain().map_values(to_int);
    let fi = l.free_list().map_values(to_int);
    assert(vstd::relations::injective(to_int));
    l.chain().lemma_no_duplicates_injective(to_int);
    l.free_list().lemma_no_duplicates_injective(to_int);
    ci.unique_seq_to_set();
    fi.unique_seq_to_set();
    let cs = ci.to_set();
    let fs = fi.to_set();
    assert(cs.disjoint(fs)) by {
        assert forall|x: int| !(cs.contains(x) && fs.contains(x)) by {
            if cs.contains(x) && fs.contains(x) {
                let i = choose|i: int| 0 <= i < ci.len() && ci[i] == x;
                let j = choose|j: int| 0 <= j < fi.len() && fi[j] == x;
                assert(VecList::<T>::chain_node_ok(l.nodes(), l.chain(), i));
                assert(VecList::<T>::free_node_ok(l.nodes(), l.free_list(), j));
                assert(l.chain()[i] == l.free_list()[j]);
            }
        }
    }
    vstd::set_lib::lemma_set_disjoint_lens(cs, fs);
    assert((cs + fs).len() == n);
    vstd::set_lib::lemma_int_range(0, n);
    assert((cs + fs).subset_of(vstd::set_lib::set_int_range(0, n))) by {
        assert forall|x: int| (cs + fs).contains(x) implies 0 <= x < n by {
            if cs.contains(x) {
                let i = choose|i: int| 0 <= i < ci.len() && ci[i] == x;
                assert(VecList::<T>::chain_node_ok(l.nodes(), l.chain(), i));
            } else {
                let j = choose|j: int| 0 <= j < fi.len() && fi[j] == x;
                assert(VecList::<T>::free_node_ok(l.nodes(), l.free_list(), j));
            }
        }
    }
    assert forall|j: usize|
        j < l.nodes().len() && !l.chain().contains(j) implies l.free_list().contains(j) by {
        if !l.free_list().contains(j) {
            assert(!cs.contains(j as int)) by {
                if cs.contains(j as int) {
                    let i = choose|i: int| 0 <= i < ci.len() && ci[i] == j as int;
                    assert(l.chain()[i] == j);
                }
            }
            assert(!fs.contains(j as int)) by {
                if fs.contains(j as int) {
                    let i = choose|i: int| 0 <= i < fi.len() && fi[i] == j as int;
                    assert(l.free_list()[i] == j);
                }
            }
            let small = vstd::set_lib::set_int_range(0, n).remove(j as int);
            assert((cs + fs).subset_of(small));
            vstd::set_lib::lemma_len_subset(cs + fs, small);
            assert(small.len() == n - 1);
            assert(false);
        }
    }
}

impl<T> VecList<T> {
    /// Those of the invariant's clauses that compaction carries from step to
    /// step: a consistent, duplicate-free chain whose first `pos` entries
    /// already sit in their own slots, and no value outside it.
    pub(crate) closed spec fn compact_inv(&self, pos: int) -> bool {
        &&& self.buf.wf()
        &&& Self::chain_linked(self.nodes(), self.chain())
        &&& self.chain().no_duplicates()
        &&& self.chain().len() <= self.nodes().len()
        &&& forall|i: int| 0 <= i < pos ==> #[trigger] self.chain()[i] == i as usize
        &&& forall|j: usize|
            j < self.nodes().len() && !self.chain().contains(j)
                ==> self.nodes()[j as int].value is None
    }

    /// One compaction step: the chain occupant of position `pos` moves into
    /// slot `pos` by swapping the two slots' contents and re-wiring both
    /// nodes' neighbours; neither step reads a freed slot's value.
    #[verifier::rlimit(100)]
    #[verifier::spinoff_prover]
    fn compact_step(&mut self, pos: usize, cur: usize)
        requires
            old(self).compact_inv(pos as int),
            (pos as int) < old(self).chain().len(),
            old(self).chain()[pos as int] == cur,
            cur != pos,
        ensures
            final(self).compact_inv(pos + 1),
            final(self).chain().len() == old(self).chain().len(),
            final(self).nodes().len() == old(self).nodes().len(),
            final(self).spec_capacity() == old(self).spec_capacity(),
            final(self)@ == old(self)@,
            final(self).ends == old(self).ends,
            final(self).empty == old(self).empty,
    {
        let ghost ch = self.chain@;
        let ghost n0 = self.nodes();
        let ghost len = ch.len() as int;
        let s = cur;
        proof {
            assert(Self::chain_node_ok(n0, ch, pos as int));
            if pos > 0 {
                assert(Self::chain_node_ok(n0, ch, pos - 1));
            }
            if pos + 1 < len {
                assert(Self::chain_node_ok(n0, ch, pos + 1));
            }
            // The occupant's slot is past `pos`: the smaller slots are taken.
            assert(s > pos) by {
                if s < pos {
                    assert(ch[s as int] == s);
                }
            }
        }
        let x_active = self.buf.get(pos).value.is_some();
        let x_prev = self.buf.get(pos).prev;
        let x_next = self.buf.get(pos).next;
        proof {
            if x_active {
                assert(ch.contains(pos as usize));
                let q0 = choose|q0: int| 0 <= q0 < len && ch[q0] == pos as usize;
                assert(q0 != pos);
                if q0 < pos {
                    assert(ch[q0] == q0 as usize);
                }
                assert(pos < q0 < len && ch[q0] == pos as usize);
            }
        }
        let ghost q: int = if x_active {
            choose|q: int| pos < q < len && ch[q] == pos as usize
        } else {
            0
        };
        proof {
            if x_active {
                assert(pos < q < len && ch[q] == pos as usize);
                assert(Self::chain_node_ok(n0, ch, q));
                if q > pos + 1 {
                    assert(Self::chain_node_ok(n0, ch, q - 1));
                }
                if q + 1 < len {
                    assert(Self::chain_node_ok(n0, ch, q + 1));
                }
            }
        }
        let mut tmp: Node<T> = Node { value: None, prev: None, next: None };
        core::mem::swap(self.buf.get_mut(pos), &mut tmp);
        core::mem::swap(self.buf.get_mut(s), &mut tmp);
        core::mem::swap(self.buf.get_mut(pos), &mut tmp);
        if pos > 0 {
            let n = self.buf.get_mut(pos - 1);
            n.next = Some(pos);
        }
        let a_next = self.buf.get(pos).next;
        if let Some(t) = a_next {
            if t == pos {
                let n = self.buf.get_mut(pos);
                n.next = Some(s);
                let m = self.buf.get_mut(s);
                m.prev = Some(pos);
            } else {
                let n = self.buf.get_mut(t);
                n.prev = Some(pos);
            }
        }
        if x_active {
            if let Some(p) = x_prev {
                if p != s {
                    let n = self.buf.get_mut(p);
                    n.next = Some(s);
                }
            }
            if let Some(nx2) = x_next {
                let n = self.buf.get_mut(nx2);
                n.prev = Some(s);
            }
        }
        let ghost nch = if x_active {
            ch.update(pos as int, pos as usize).update(q, s)
        } else {
            ch.update(pos as int, pos as usize)
        };
        proof {
            self.chain@ = nch;
        }
        proof {
            let nn = self.nodes();
            // Values move with their nodes and no other value changes.
            assert forall|i: int| 0 <= i < len implies nn[#[trigger] nch[i] as int].value == n0[
                ch[i] as int].value by {
                assert(Self::chain_node_ok(n0, ch, i));
                if i != pos && (!x_active || i != q) {
                    assert(ch[i] != s && ch[i] != pos as usize);
                }
            }
            assert forall|i: int| 0 <= i < len implies #[trigger] Self::chain_node_ok(
                nn,
                nch,
                i,
            ) by {
                assert(Self::chain_node_ok(n0, ch, i));
                if i < pos {
                    if i > 0 {
                        assert(Self::chain_node_ok(n0, ch, i - 1));
                    }
                    if i + 1 < len {
                        assert(Self::chain_node_ok(n0, ch, i + 1));
                    }
                    assert(ch[i] == i as usize);
                } else if i == pos {
                    if pos + 1 < len {
                        assert(Self::chain_node_ok(n0, ch, pos + 1));
                    }
                } else if x_active && i == q {
                    if q + 1 < len {
                        assert(Self::chain_node_ok(n0, ch, q + 1));
                    }
                    if q > pos + 1 {
                        assert(Self::chain_node_ok(n0, ch, q - 1));
                    }
                } else {
                    if i > 0 {
                        assert(Self::chain_node_ok(n0, ch, i - 1));
                    }
                    if i + 1 < len {
                        assert(Self::chain_node_ok(n0, ch, i + 1));
                    }
                }
            }
            assert(nch.no_duplicates()) by {
                assert forall|i: int, j: int|
                    0 <= i < nch.len() && 0 <= j < nch.len() && i != j implies nch[i] != nch[
                    j] by {}
            }
            assert forall|j: usize|
                j < nn.len() && !nch.contains(j) implies nn[j as int].value is None by {
                assert forall|k: int| 0 <= k < len implies nch[k] != j by {}
                if j != s && j != pos {
                    assert(!ch.contains(j)) by {
                        if ch.contains(j) {
                            let k = choose|k: int| 0 <= k < len && ch[k] == j;
                            assert(nch[k] == j);
                        }
                    }
                    assert(nn[j as int].value == n0[j as int].value);
                } else if j == s {
                    if x_active {
                        assert(nch[q] == s);
                        assert(false);
                    }
                    assert(nn[s as int].value == n0[pos as int].value);
                } else {
                    assert(nch[pos as int] == pos as usize);
                }
            }
            assert(self@ =~= old(self)@);
        }
    }

    /// Compacting twice is the same as compacting once: a second
    /// `shrink_to_fit` finds the same contents and leaves the same contents,
    /// the same capacity, and the same slot count behind.
    pub proof fn lemma_shrink_to_fit_idempotent(l0: Self, l1: Self, l2: Self)
        requires
            l1@ == l0@,
            l1.spec_capacity() == l0@.len(),
            l1.spec_node_count() == l0@.len(),
            l2@ == l1@,
            l2.spec_capacity() == l1@.len(),
            l2.spec_node_count() == l1@.len(),
        ensures
            l2@ == l1@,
            l2.spec_capacity() == l1.spec_capacity(),
            l2.spec_node_count() == l1.spec_node_count(),
    {
    }

    /// Compacts the arena so that the chain occupies exactly the slots below
    /// the list's length, then truncates the buffer and releases the excess
    /// capacity: afterwards every reserved slot holds a live element.
    pub fn shrink_to_fit(&mut self)
        requires
            old(self).wf(),
        ensures
            final(self).wf(),
            final(self)@ == old(self)@,
            final(self).spec_capacity() == old(self)@.len(),
            final(self).spec_node_count() == old(self)@.len(),
    {
        proof {
            lemma_slot_partition(*self);
            assert forall|j: usize|
                j < self.nodes().len() && !self.chain().contains(j) implies self.nodes()[
                j as int].value is None by {
                let k = choose|k: int|
                    0 <= k < self.free_list().len() && self.free_list()[k] == j;
                assert(Self::free_node_ok(self.nodes(), self.free_list(), k));
            }
        }
        let len = self.len();
        let mut pos: usize = 0;
        let mut cur: usize = match self.ends {
            None => 0,
            Some((_, head, _)) => head,
        };
        while pos < len
            invariant
                self.compact_inv(pos as int),
                len == self.chain().len(),
                len == self@.len(),
                self@ == old(self)@,
                self.nodes().len() == old(self).spec_node_count(),
                self.spec_capacity() == old(self).spec_capacity(),
                pos <= len,
                pos < len ==> cur == self.chain()[pos as int],
            decreases len - pos,
        {
            if cur != pos {
                self.compact_step(pos, cur);
            }
            proof {
                assert(Self::chain_node_ok(self.nodes(), self.chain(), pos as int));
            }
            let c2 = self.buf.get(pos).next;
            cur = match c2 {
                Some(c) => c,
                None => 0,
            };
            pos = pos + 1;
        }
        self.ends = if len == 0 {
            None
        } else {
            Some((len, 0, len - 1))
        };
        self.empty = None;
        proof {
            self.free@ = Seq::empty();
        }
        let ghost before = *self;
        self.buf.truncate(len);
        proof {
            assert forall|i: int| 0 <= i < len implies #[trigger] Self::chain_node_ok(
                self.nodes(),
                self.chain(),
                i,
            ) by {
                assert(Self::chain_node_ok(before.nodes(), before.chain(), i));
                assert(self.chain()[i] == i as usize);
            }
            assert(self@ =~= old(self)@);
        }
    }
}

} // verus!
