//! The SLUB-style object allocator: slab headers owning one page each,
//! sliced into equal slots whose free ones form an intrusive ring of
//! 16-bit indices inside the page itself.
//!
//! In kernel memory the ring runs through the free slots' own bytes;
//! here each header owns an array of link records, one per 16-byte
//! record of its page, playing the same role: the record of a slot is meaningful
//! exactly while the slot is free. Slots are identified by the index of
//! their first record; the byte address of a slot is its index times the
//! record size, from the start of the slab's page.

use crate::ring::{lemma_ring_insert, lemma_ring_remove, ring_remove, ring_wf};
use vstd::prelude::*;

verus! {

/// The size in bytes of one free-link record: the unit slot sizes are
/// expressed in.
pub const FREE_LINK_SIZE: usize = 16;

/// The number of free-link records in one page.
pub const LINKS_PER_PAGE: usize = 256;

/// Two indexes into a slab page, pointing to other free slots.
#[derive(Clone, Copy, Debug, PartialEq, Eq, Structural)]
pub struct FreeLink {
    /// Index of the previous free slot, or this slot if it is the only
    /// free one.
    pub prev: u16,
    /// Index of the next free slot, or this slot if it is the only free
    /// one.
    pub next: u16,
}

/// The number of slots of size `slot_size` records that fit in a page:
/// the multiples of `slot_size` below [`LINKS_PER_PAGE`].
pub open spec fn spec_num_slots(slot_size: int) -> int {
    (LINKS_PER_PAGE - 1) as int / slot_size + 1
}

/// The slot size, in 16-byte records, that a layout of `size` bytes
/// aligned to `align` requires.
pub open spec fn spec_slot_size_for(size: int, align: int) -> int {
    (if size >= align {
        size + FREE_LINK_SIZE - 1
    } else {
        align + FREE_LINK_SIZE - 1
    }) / FREE_LINK_SIZE as int
}

/// A manager for one page dedicated to allocations of a single slot size.
pub struct SlabHeader {
    /// The page, as an array of link records. Only every `slot_size`-th
    /// record is used; a slot's record is meaningful exactly while the
    /// slot is free.
    page_memory: Vec<FreeLink>,
    /// Number of records used for a single allocation.
    slot_size: u16,
    /// Number of allocations currently active.
    in_use: u16,
    /// Index into the page of some free slot — the root of the free ring
    /// — or `None` if the entire page has been allocated already.
    offset: Option<u16>,
    /// The cyclic order of the free slots, starting at the head.
    ring: Ghost<Seq<int>>,
}

impl SlabHeader {
    /// The slot size of this slab, in records.
    pub closed spec fn spec_slot_size(&self) -> u16 {
        self.slot_size
    }

    /// The number of active allocations.
    pub closed spec fn spec_in_use(&self) -> u16 {
        self.in_use
    }

    /// The head of the free ring.
    pub closed spec fn spec_head(&self) -> Option<u16> {
        self.offset
    }

    /// The cyclic order of the free slots, starting at the head.
    pub closed spec fn spec_ring(&self) -> Seq<int> {
        self.ring@
    }

    /// Whether the slot starting at record `i` is free.
    pub closed spec fn spec_free(&self, i: int) -> bool {
        self.ring@.contains(i)
    }

    /// The `prev` link records as a sequence.
    closed spec fn prevs(&self) -> Seq<int> {
        self.page_memory@.map_values(|l: FreeLink| l.prev as int)
    }

    /// The `next` link records as a sequence.
    closed spec fn nexts(&self) -> Seq<int> {
        self.page_memory@.map_values(|l: FreeLink| l.next as int)
    }

    /// Well-formed: the link records realise the ghost ring, the ring
    /// holds only whole slots (multiples of the slot size), the head is
    /// the ring's first element, and the free slots and active
    /// allocations together account for every slot of the page.
    pub closed spec fn wf(&self) -> bool {
        &&& self.page_memory@.len() == LINKS_PER_PAGE
        &&& 1 <= self.slot_size
        &&& ring_wf(self.ring@, self.prevs(), self.nexts(), LINKS_PER_PAGE as int)
        &&& forall|k: int|
            0 <= k < self.ring@.len() ==> #[trigger] self.ring@[k] % (self.slot_size as int) == 0
        &&& match self.offset {
            None => self.ring@.len() == 0,
            Some(h) => self.ring@.len() > 0 && self.ring@[0] == h as int,
        }
        &&& self.in_use + self.ring@.len() == spec_num_slots(self.slot_size as int)
    }

    /// Creates a new slab for slots of `slot_size` records, linking every
    /// `slot_size`-th record of the page into one free ring headed at
    /// record zero.
    pub fn new(slot_size: u16) -> (r: Self)
        requires
            1 <= slot_size,
        ensures
            r.wf(),
            r.spec_slot_size() == slot_size,
            r.spec_in_use() == 0,
            r.spec_head() == Some(0u16),
            r.spec_ring().len() == spec_num_slots(slot_size as int),
            forall|i: int|
                0 <= i < LINKS_PER_PAGE ==> (#[trigger] r.spec_free(i) <==> i % (
                slot_size as int) == 0),
    {
        let s = slot_size as usize;
        let cap = (LINKS_PER_PAGE - 1) / s + 1;
        let mut page_memory: Vec<FreeLink> = Vec::new();
        while page_memory.len() < LINKS_PER_PAGE
            invariant
                page_memory@.len() <= LINKS_PER_PAGE,
            decreases LINKS_PER_PAGE - page_memory@.len(),
        {
            page_memory.push(FreeLink { prev: 0, next: 0 });
        }
        let ghost ring = Seq::new(cap as nat, |k: int| k * s);
        let mut k: usize = 0;
        proof {
            assert forall|j: int| 0 <= j < cap implies 0 <= #[trigger] (j * s) < LINKS_PER_PAGE
                && (j * s) % (s as int) == 0 by {
                assert(j * s <= ((LINKS_PER_PAGE - 1) as int / s as int) * s <= (LINKS_PER_PAGE
                    - 1) as int && (j * s) % (s as int) == 0 && j * s >= 0) by (nonlinear_arith)
                    requires
                        0 <= j < cap,
                        s >= 1,
                        cap == (LINKS_PER_PAGE - 1) as int / s as int + 1,
                ;
            }
        }
        while k < cap
            invariant
                k <= cap,
                s == slot_size,
                1 <= s <= u16::MAX,
                cap == (LINKS_PER_PAGE - 1) as int / s as int + 1,
                page_memory@.len() == LINKS_PER_PAGE,
                ring == Seq::new(cap as nat, |j: int| j * s),
                forall|j: int|
                    0 <= j < cap ==> 0 <= #[trigger] (j * s) < LINKS_PER_PAGE && (j * s) % (
                    s as int) == 0,
                forall|j: int|
                    0 <= j < k ==> #[trigger] page_memory@[j * s] == (FreeLink {
                        prev: (if j == 0 {
                            ((cap - 1) as int * s) as u16
                        } else {
                            ((j - 1) * s) as u16
                        }),
                        next: (if j == cap - 1 {
                            0u16
                        } else {
                            ((j + 1) * s) as u16
                        }),
                    }),
            decreases cap - k,
        {
            proof {
                assert(0 <= k * s < LINKS_PER_PAGE);
                if k > 0 {
                    assert(0 <= (k - 1) as int * s < LINKS_PER_PAGE);
                }
                if k + 1 < cap {
                    assert(0 <= (k + 1) as int * s < LINKS_PER_PAGE);
                }
                assert(0 <= (cap - 1) as int * s < LINKS_PER_PAGE);
                assert(k * s == (k as int) * (s as int)) by (nonlinear_arith);
            }
            let m = k * s;
            let prev_val: u16 = if k == 0 {
                ((cap - 1) * s) as u16
            } else {
                ((k - 1) * s) as u16
            };
            let next_val: u16 = if k == cap - 1 {
                0
            } else {
                ((k + 1) * s) as u16
            };
            proof {
                assert((cap - 1) * s == (cap - 1) as int * s) by (nonlinear_arith);
                if k > 0 {
                    assert((k - 1) * s == (k - 1) as int * s) by (nonlinear_arith);
                }
                if k + 1 < cap {
                    assert((k + 1) * s == (k + 1) as int * s) by (nonlinear_arith);
                }
            }
            page_memory.set(m, FreeLink { prev: prev_val, next: next_val });
            proof {
                assert forall|j: int|
                    0 <= j < k + 1 implies #[trigger] page_memory@[j * s] == (FreeLink {
                        prev: (if j == 0 {
                            ((cap - 1) as int * s) as u16
                        } else {
                            ((j - 1) * s) as u16
                        }),
                        next: (if j == cap - 1 {
                            0u16
                        } else {
                            ((j + 1) * s) as u16
                        }),
                    }) by {
                    if j < k {
                        assert(j * s != k * s) by (nonlinear_arith)
                            requires
                                0 <= j < k,
                                s >= 1,
                        ;
                    }
                }
            }
            k = k + 1;
        }
        let r = Self {
            page_memory,
            slot_size,
            in_use: 0,
            offset: Some(0),
            ring: Ghost(ring),
        };
        proof {
            r.lemma_new_ring_wf(cap as int, s as int);
        }
        r
    }

    /// The freshly built ring of all slots is well-formed: its links walk
    /// the multiples of the slot size in order, wrapping at the ends.
    proof fn lemma_new_ring_wf(&self, cap: int, s: int)
        requires
            self.page_memory@.len() == LINKS_PER_PAGE,
            1 <= s,
            s == self.slot_size,
            self.in_use == 0,
            self.offset == Some(0u16),
            cap == (LINKS_PER_PAGE - 1) as int / s + 1,
            self.ring@ == Seq::new(cap as nat, |j: int| j * s),
            forall|j: int|
                0 <= j < cap ==> 0 <= #[trigger] (j * s) < LINKS_PER_PAGE && (j * s) % s == 0,
            forall|j: int|
                0 <= j < cap ==> #[trigger] self.page_memory@[j * s] == (FreeLink {
                    prev: (if j == 0 {
                        ((cap - 1) * s) as u16
                    } else {
                        ((j - 1) * s) as u16
                    }),
                    next: (if j == cap - 1 {
                        0u16
                    } else {
                        ((j + 1) * s) as u16
                    }),
                }),
        ensures
            self.wf(),
            self.spec_ring().len() == spec_num_slots(s),
            forall|i: int|
                0 <= i < LINKS_PER_PAGE ==> (#[trigger] self.spec_free(i) <==> i % s == 0),
    {
        let ring = self.ring@;
        assert forall|j1: int, j2: int| 0 <= j1 < j2 < cap implies ring[j1] != ring[j2] by {
            assert(j1 * s < j2 * s) by (nonlinear_arith)
                requires
                    j1 < j2,
                    s >= 1,
            ;
        }
        assert(ring.no_duplicates());
        assert forall|j: int| 0 <= j < cap implies crate::ring::ring_link_at(
            ring,
            self.prevs(),
            self.nexts(),
            j,
        ) by {
            assert(self.page_memory@[j * s].next as int == ring[crate::ring::next_pos(cap, j)]);
            assert(self.page_memory@[j * s].prev as int == ring[crate::ring::prev_pos(cap, j)]);
        }
        assert forall|i: int|
            0 <= i < LINKS_PER_PAGE implies (#[trigger] self.spec_free(i) <==> i % s == 0) by {
            if self.spec_free(i) {
                let j = choose|j: int| 0 <= j < ring.len() && ring[j] == i;
                assert(ring[j] % s == 0);
            }
            if i % s == 0 {
                let j = i / s;
                assert(0 <= j < cap && j * s == i) by (nonlinear_arith)
                    requires
                        0 <= i < LINKS_PER_PAGE,
                        i % s == 0,
                        s >= 1,
                        cap == (LINKS_PER_PAGE - 1) as int / s + 1,
                        j == i / s,
                ;
                assert(ring[j] == i);
            }
        }
    }

    /// The head names the free ring exactly: it is absent iff no slot is
    /// free, and otherwise it is the ring's first element — a free,
    /// in-bounds, slot-aligned index. Together with the accounting
    /// equation (active allocations plus free slots cover the page's
    /// slots), a slab is full exactly when `in_use` reaches the slot
    /// count, and then — and only then — allocation yields nothing.
    pub proof fn lemma_head_matches_ring(&self)
        requires
            self.wf(),
        ensures
            self.spec_head() is None <==> self.spec_ring().len() == 0,
            self.spec_head() is None <==> (forall|i: int| !self.spec_free(i)),
            self.spec_head() matches Some(h) ==> {
                &&& self.spec_ring()[0] == h as int
                &&& self.spec_free(h as int)
                &&& h < LINKS_PER_PAGE
                &&& h as int % (self.spec_slot_size() as int) == 0
            },
            self.spec_in_use() + self.spec_ring().len() == spec_num_slots(
                self.spec_slot_size() as int,
            ),
            forall|i: int|
                #[trigger] self.spec_free(i) ==> 0 <= i < LINKS_PER_PAGE && i % (
                self.spec_slot_size() as int) == 0,
    {
        assert forall|i: int|
            #[trigger] self.spec_free(i) implies 0 <= i < LINKS_PER_PAGE && i % (
        self.spec_slot_size() as int) == 0 by {
            let k = choose|k: int| 0 <= k < self.ring@.len() && self.ring@[k] == i;
            assert(self.ring@[k] % (self.slot_size as int) == 0);
        }
        if self.offset is Some {
            let h = self.offset->Some_0;
            assert(self.spec_free(h as int)) by {
                assert(self.ring@[0] == h as int);
            }
        }
        if self.ring@.len() > 0 {
            assert(self.spec_free(self.ring@[0])) by {
                assert(self.ring@.contains(self.ring@[0]));
            }
        }
    }

    /// Attempts an allocation, unlinking and returning the head of the
    /// free ring, or `None` if the page is fully allocated.
    pub fn allocate(&mut self) -> (r: Option<u16>)
        requires
            old(self).wf(),
        ensures
            final(self).wf(),
            final(self).spec_slot_size() == old(self).spec_slot_size(),
            match r {
                None => *final(self) == *old(self) && old(self).spec_head() is None && old(
                    self,
                ).spec_ring().len() == 0,
                Some(h) => {
                    &&& old(self).spec_head() == Some(h)
                    &&& h < LINKS_PER_PAGE
                    &&& h as int % (old(self).spec_slot_size() as int) == 0
                    &&& final(self).spec_in_use() == old(self).spec_in_use() + 1
                    &&& final(self).spec_ring() == ring_remove(old(self).spec_ring(), 0)
                    &&& forall|i: int|
                        #[trigger] final(self).spec_free(i) == (old(self).spec_free(i) && i
                            != h)
                },
            },
    {
        let head = match self.offset {
            None => {
                return None;
            },
            Some(h) => h,
        };
        let ghost ring0 = self.ring@;
        proof {
            assert(ring0[0] == head as int);
            assert(crate::ring::ring_link_at(ring0, self.prevs(), self.nexts(), 0));
        }
        let link = self.page_memory[head as usize];
        let prev_index = link.prev;
        let next_index = link.next;
        if prev_index == next_index {
            // At most two free slots; the ring collapses.
            if next_index == head {
                // Singleton ring: the page is now fully allocated.
                proof {
                    if ring0.len() >= 2 {
                        assert(ring0[crate::ring::next_pos(ring0.len() as int, 0)]
                            == head as int);
                        assert(false);
                    }
                }
                self.offset = None;
                self.in_use = self.in_use + 1;
                proof {
                    self.ring = Ghost(ring_remove(ring0, 0));
                    assert(ring_remove(ring0, 0).len() == 0);
                    assert forall|i: int|
                        #[trigger] self.spec_free(i) == (ring0.contains(i) && i
                            != head as int) by {}
                }
                return Some(head);
            }
            // Exactly two free slots: fall through to the stitch below,
            // which leaves the survivor self-linked.
        }
        proof {
            if ring0.len() < 2 {
                assert(ring0[crate::ring::next_pos(ring0.len() as int, 0)] == head as int);
                assert(false);
            }
            lemma_ring_remove(ring0, self.prevs(), self.nexts(), LINKS_PER_PAGE as int, 0);
        }
        let mut prev_link = self.page_memory[prev_index as usize];
        prev_link.next = next_index;
        self.page_memory.set(prev_index as usize, prev_link);
        let mut next_link = self.page_memory[next_index as usize];
        next_link.prev = prev_index;
        self.page_memory.set(next_index as usize, next_link);
        self.offset = Some(next_index);
        self.in_use = self.in_use + 1;
        proof {
            self.ring = Ghost(ring_remove(ring0, 0));
            assert(self.prevs() =~= old(self).prevs().update(
                old(self).nexts()[head as int],
                old(self).prevs()[head as int],
            ));
            assert(self.nexts() =~= old(self).nexts().update(
                old(self).prevs()[head as int],
                old(self).nexts()[head as int],
            ));
            assert forall|k: int|
                0 <= k < self.ring@.len() implies #[trigger] self.ring@[k] % (
            self.slot_size as int) == 0 by {
                assert(self.ring@.contains(self.ring@[k]));
                let j = choose|j: int| 0 <= j < ring0.len() && ring0[j] == self.ring@[k];
            }
        }
        Some(head)
    }

    /// Frees the slot at `index`, splicing it into the ring after the
    /// head (or as the new singleton ring). The index must start a slot,
    /// as the kernel asserts; freeing a slot that is already free
    /// corrupts the ring and is excluded, as is freeing when nothing is
    /// allocated.
    pub fn deallocate_at(&mut self, index: u16)
        requires
            old(self).wf(),
            index < LINKS_PER_PAGE,
            index as int % (old(self).spec_slot_size() as int) == 0,
            !old(self).spec_free(index as int),
            old(self).spec_in_use() >= 1,
        ensures
            final(self).wf(),
            final(self).spec_slot_size() == old(self).spec_slot_size(),
            final(self).spec_in_use() == old(self).spec_in_use() - 1,
            final(self).spec_head() == if old(self).spec_head() is None {
                Some(index)
            } else {
                old(self).spec_head()
            },
            final(self).spec_ring() == if old(self).spec_ring().len() == 0 {
                seq![index as int]
            } else {
                old(self).spec_ring().insert(1, index as int)
            },
            forall|i: int|
                #[trigger] final(self).spec_free(i) == (old(self).spec_free(i) || i == index),
    {
        let ghost ring0 = self.ring@;
        match self.offset {
            None => {
                self.page_memory.set(index as usize, FreeLink { prev: index, next: index });
                self.offset = Some(index);
                self.in_use = self.in_use - 1;
                proof {
                    self.ring = Ghost(seq![index as int]);
                    assert(self.ring@.no_duplicates());
                    assert(crate::ring::ring_link_at(self.ring@, self.prevs(), self.nexts(), 0));
                    assert forall|i: int|
                        #[trigger] self.spec_free(i) == (ring0.contains(i) || i
                            == index as int) by {
                        if self.ring@.contains(i) {
                            let k = choose|k: int| 0 <= k < self.ring@.len() && self.ring@[k] == i;
                            assert(i == index as int);
                        }
                        if i == index as int {
                            assert(self.ring@[0] == i);
                        }
                    }
                }
            },
            Some(head_index) => {
                proof {
                    assert(ring0.len() >= 1 && ring0[0] == head_index as int);
                    assert(crate::ring::ring_link_at(ring0, self.prevs(), self.nexts(), 0));
                    lemma_ring_insert(
                        ring0,
                        self.prevs(),
                        self.nexts(),
                        LINKS_PER_PAGE as int,
                        index as int,
                    );
                }
                let mut head_link = self.page_memory[head_index as usize];
                let next_index = head_link.next;
                head_link.next = index;
                self.page_memory.set(head_index as usize, head_link);
                self.page_memory.set(index as usize, FreeLink { prev: head_index, next: next_index });
                let mut next_link = self.page_memory[next_index as usize];
                next_link.prev = index;
                self.page_memory.set(next_index as usize, next_link);
                self.in_use = self.in_use - 1;
                proof {
                    self.ring = Ghost(ring0.insert(1, index as int));
                    assert(self.prevs() =~= old(self).prevs().update(
                        index as int,
                        head_index as int,
                    ).update(old(self).nexts()[head_index as int], index as int));
                    assert(self.nexts() =~= old(self).nexts().update(
                        head_index as int,
                        index as int,
                    ).update(index as int, old(self).nexts()[head_index as int]));
                    assert forall|k: int|
                        0 <= k < self.ring@.len() implies #[trigger] self.ring@[k] % (
                    self.slot_size as int) == 0 by {
                        assert(self.ring@.contains(self.ring@[k]));
                        if self.ring@[k] != index as int {
                            assert(ring0.contains(self.ring@[k]));
                            let j = choose|j: int| 0 <= j < ring0.len() && ring0[j] == self.ring@[k];
                        }
                    }
                }
            },
        }
    }

    /// The slot size of this slab, in records.
    pub fn get_slot_size(&self) -> (r: u16)
        ensures
            r == self.spec_slot_size(),
    {
        self.slot_size
    }

    /// The number of active allocations in this slab.
    pub fn get_in_use(&self) -> (r: u16)
        ensures
            r == self.spec_in_use(),
    {
        self.in_use
    }

    /// The head of the free ring, if any slot is free.
    pub fn get_offset(&self) -> (r: Option<u16>)
        ensures
            r == self.spec_head(),
    {
        self.offset
    }
}

/// A SLUB allocator: a sorted list of slab headers keyed by slot size.
/// At most one header exists per slot size; when a slab fills, further
/// allocations of that size return nothing rather than allocating another
/// page (a documented limitation of the design).
pub struct SlabAllocator {
    /// Slab headers, sorted ascending by slot size.
    headers: Vec<SlabHeader>,
}

impl SlabAllocator {
    /// The slab headers, sorted ascending by slot size.
    pub closed spec fn spec_headers(&self) -> Seq<SlabHeader> {
        self.headers@
    }

    /// Well-formed: every header is, and slot sizes strictly ascend.
    pub open spec fn wf(&self) -> bool {
        &&& forall|i: int|
            0 <= i < self.spec_headers().len() ==> (#[trigger] self.spec_headers()[i]).wf()
        &&& forall|i: int, j: int|
            0 <= i < j < self.spec_headers().len() ==> (#[trigger] self.spec_headers()[i]).spec_slot_size() < (
            #[trigger] self.spec_headers()[j]).spec_slot_size()
    }

    /// Whether a header for slot size `s` exists.
    pub open spec fn spec_has(&self, s: int) -> bool {
        exists|i: int|
            0 <= i < self.spec_headers().len() && (#[trigger] self.spec_headers()[i]).spec_slot_size()
                == s
    }

    /// The index of the header for slot size `s`, when one exists.
    pub open spec fn spec_find(&self, s: int) -> int {
        choose|i: int|
            0 <= i < self.spec_headers().len() && (#[trigger] self.spec_headers()[i]).spec_slot_size()
                == s
    }

    /// Creates a slab allocator with no slabs yet.
    pub fn new() -> (r: Self)
        ensures
            r.wf(),
            r.spec_headers().len() == 0,
    {
        Self { headers: Vec::new() }
    }

    /// Derives a slot size from a layout: the number of 16-byte records
    /// that cover the larger of its size and alignment. A slot size
    /// beyond `u16::MAX` is fatal for the kernel and excluded here.
    pub fn get_slot_size(size: usize, align: usize) -> (r: u16)
        requires
            size <= usize::MAX - FREE_LINK_SIZE,
            align <= usize::MAX - FREE_LINK_SIZE,
            spec_slot_size_for(size as int, align as int) <= u16::MAX,
        ensures
            r == spec_slot_size_for(size as int, align as int),
    {
        let larger = if size >= align {
            size
        } else {
            align
        };
        ((larger + (FREE_LINK_SIZE - 1)) / FREE_LINK_SIZE) as u16
    }

    /// Binary search over the sorted headers: the index holding `key`, or
    /// the insertion position keeping the order.
    fn find_index(&self, key: u16) -> (r: Result<usize, usize>)
        requires
            self.wf(),
        ensures
            match r {
                Ok(i) => i < self.spec_headers().len() && self.spec_headers()[
                    i as int
                ].spec_slot_size() == key,
                Err(j) => {
                    &&& j <= self.spec_headers().len()
                    &&& forall|k: int|
                        0 <= k < j ==> (#[trigger] self.spec_headers()[k]).spec_slot_size() < key
                    &&& forall|k: int|
                        j <= k < self.spec_headers().len() ==> (
                        #[trigger] self.spec_headers()[k]).spec_slot_size() > key
                },
            },
    {
        let mut lo: usize = 0;
        let mut hi: usize = self.headers.len();
        while lo < hi
            invariant
                self.wf(),
                lo <= hi <= self.spec_headers().len(),
                forall|k: int|
                    0 <= k < lo ==> (#[trigger] self.spec_headers()[k]).spec_slot_size() < key,
                forall|k: int|
                    hi <= k < self.spec_headers().len() ==> (
                    #[trigger] self.spec_headers()[k]).spec_slot_size() > key,
            decreases hi - lo,
        {
            let mid = lo + (hi - lo) / 2;
            let v = self.headers[mid].get_slot_size();
            if v == key {
                return Ok(mid);
            } else if v < key {
                proof {
                    assert forall|k: int|
                        0 <= k < mid + 1 implies (#[trigger] self.spec_headers()[k]).spec_slot_size()
                        < key by {
                        if k < mid {
                            assert(self.spec_headers()[k].spec_slot_size() < self.spec_headers()[
                                mid as int
                            ].spec_slot_size());
                        }
                    }
                }
                lo = mid + 1;
            } else {
                proof {
                    assert forall|k: int|
                        mid <= k < self.spec_headers().len() implies (
                    #[trigger] self.spec_headers()[k]).spec_slot_size() > key by {
                        if k > mid {
                            assert(self.spec_headers()[mid as int].spec_slot_size()
                                < self.spec_headers()[k].spec_slot_size());
                        }
                    }
                }
                hi = mid;
            }
        }
        Err(lo)
    }

    /// Allocates a slot for a layout of `size` bytes aligned to `align`,
    /// returning the record index of the slot inside the page of the slab
    /// for that slot size. A layout needing no records at all yields
    /// nothing; so does a full slab, which hands out null rather than
    /// allocating another page.
    pub fn allocate(&mut self, size: usize, align: usize) -> (r: Option<u16>)
        requires
            old(self).wf(),
            size <= usize::MAX - FREE_LINK_SIZE,
            align <= usize::MAX - FREE_LINK_SIZE,
            spec_slot_size_for(size as int, align as int) <= u16::MAX,
        ensures
            final(self).wf(),
            ({
                let s = spec_slot_size_for(size as int, align as int);
                &&& (s == 0 ==> r is None && final(self).spec_headers() == old(self).spec_headers())
                &&& (s >= 1 && old(self).spec_has(s) ==> {
                    let i = old(self).spec_find(s);
                    match old(self).spec_headers()[i].spec_head() {
                        None => r is None && final(self).spec_headers() == old(self).spec_headers(),
                        Some(h) => {
                            &&& r == Some(h)
                            &&& h < LINKS_PER_PAGE
                            &&& h as int % s == 0
                            &&& final(self).spec_headers().len() == old(self).spec_headers().len()
                            &&& forall|k: int|
                                0 <= k < old(self).spec_headers().len() && k != i
                                    ==> final(self).spec_headers()[k] == old(self).spec_headers()[k]
                            &&& final(self).spec_headers()[i].spec_slot_size() == s
                            &&& final(self).spec_headers()[i].spec_in_use() == old(self).spec_headers()[i].spec_in_use() + 1
                            &&& final(self).spec_headers()[i].spec_ring() == ring_remove(
                                old(self).spec_headers()[i].spec_ring(),
                                0,
                            )
                            &&& forall|q: int|
                                #[trigger] final(self).spec_headers()[i].spec_free(q) == (old(self).spec_headers()[i].spec_free(q) && q != h)
                        },
                    }
                })
                &&& (s >= 1 && !old(self).spec_has(s) ==> r == Some(0u16) && final(self).spec_headers().len() == old(self).spec_headers().len() + 1 && exists|j: int|
                    {
                        &&& 0 <= j <= old(self).spec_headers().len()
                        &&& forall|k: int|
                            0 <= k < j ==> #[trigger] final(self).spec_headers()[k] == old(self).spec_headers()[k]
                        &&& forall|k: int|
                            j < k < final(self).spec_headers().len() ==> #[trigger] final(self).spec_headers()[k] == old(self).spec_headers()[k - 1]
                        &&& (#[trigger] final(self).spec_headers()[j]).spec_slot_size() == s
                        &&& final(self).spec_headers()[j].spec_in_use() == 1
                        &&& forall|q: int|
                            0 <= q < LINKS_PER_PAGE ==> (#[trigger] final(self).spec_headers()[j].spec_free(q) <==> (q % s == 0 && q != 0))
                    })
            }),
    {
        let block_size = Self::get_slot_size(size, align);
        if block_size == 0 {
            return None;
        }
        let ghost pre = *self;
        match self.find_index(block_size) {
            Ok(i) => {
                proof {
                    assert(pre.spec_has(block_size as int));
                    assert(pre.spec_find(block_size as int) == i) by {
                        let f = pre.spec_find(block_size as int);
                        if f != i {
                            assert(pre.spec_headers()[f].spec_slot_size() == pre.spec_headers()[
                                i as int
                            ].spec_slot_size());
                        }
                    }
                }
                let outcome = self.headers[i].allocate();
                proof {
                    assert(self.headers@ =~= pre.spec_headers().update(
                        i as int,
                        self.spec_headers()[i as int],
                    ));
                    if outcome is None {
                        assert(self.headers@ =~= pre.spec_headers());
                    }
                }
                outcome
            },
            Err(j) => {
                proof {
                    if pre.spec_has(block_size as int) {
                        let f = pre.spec_find(block_size as int);
                        assert(pre.spec_headers()[f].spec_slot_size() == block_size);
                        assert(false);
                    }
                }
                self.headers.insert(j, SlabHeader::new(block_size));
                let outcome = self.headers[j].allocate();
                proof {
                    let inserted = pre.spec_headers().insert(j as int, old(self).spec_headers()[
                        j as int
                    ]);
                    assert(outcome == Some(0u16));
                }
                outcome
            },
        }
    }

    /// Frees the slot at record `index` of the slab for the layout's slot
    /// size. The kernel panics when no slab exists for the size, when
    /// the index does not start a slot, or (by way of ring corruption)
    /// when the slot is not live, so those are excluded.
    pub fn dealloc(&mut self, index: u16, size: usize, align: usize)
        requires
            old(self).wf(),
            size <= usize::MAX - FREE_LINK_SIZE,
            align <= usize::MAX - FREE_LINK_SIZE,
            spec_slot_size_for(size as int, align as int) <= u16::MAX,
            old(self).spec_has(spec_slot_size_for(size as int, align as int)),
            ({
                let i = old(self).spec_find(spec_slot_size_for(size as int, align as int));
                &&& index < LINKS_PER_PAGE
                &&& index as int % spec_slot_size_for(size as int, align as int) == 0
                &&& !old(self).spec_headers()[i].spec_free(index as int)
                &&& old(self).spec_headers()[i].spec_in_use() >= 1
            }),
        ensures
            final(self).wf(),
            ({
                let i = old(self).spec_find(spec_slot_size_for(size as int, align as int));
                &&& final(self).spec_headers().len() == old(self).spec_headers().len()
                &&& forall|k: int|
                    0 <= k < old(self).spec_headers().len() && k != i ==> final(self).spec_headers()[k] == old(self).spec_headers()[k]
                &&& final(self).spec_headers()[i].spec_slot_size() == old(self).spec_headers()[i].spec_slot_size()
                &&& final(self).spec_headers()[i].spec_in_use() == old(self).spec_headers()[i].spec_in_use() - 1
                &&& final(self).spec_headers()[i].spec_ring() == if old(
                    self,
                ).spec_headers()[i].spec_ring().len() == 0 {
                    seq![index as int]
                } else {
                    old(self).spec_headers()[i].spec_ring().insert(1, index as int)
                }
                &&& forall|q: int|
                    #[trigger] final(self).spec_headers()[i].spec_free(q) == (old(self).spec_headers()[i].spec_free(q) || q == index)
            }),
    {
        let block_size = Self::get_slot_size(size, align);
        let ghost pre = *self;
        match self.find_index(block_size) {
            Ok(i) => {
                proof {
                    assert(pre.spec_find(block_size as int) == i) by {
                        let f = pre.spec_find(block_size as int);
                        assert(pre.spec_headers()[f].spec_slot_size() == block_size);
                        if f != i {
                            assert(pre.spec_headers()[f].spec_slot_size() == pre.spec_headers()[
                                i as int
                            ].spec_slot_size());
                        }
                    }
                }
                self.headers[i].deallocate_at(index);
                proof {
                    assert(self.headers@ =~= pre.spec_headers().update(
                        i as int,
                        self.spec_headers()[i as int],
                    ));
                }
            },
            Err(_) => {
                proof {
                    let f = pre.spec_find(block_size as int);
                    assert(pre.spec_headers()[f].spec_slot_size() == block_size);
                    assert(false);
                }
            },
        }
    }

    /// The number of active allocations in the slab for `slot_size`, or
    /// `None` if no such slab exists.
    pub fn in_use_for(&self, slot_size: u16) -> (r: Option<u16>)
        requires
            self.wf(),
        ensures
            match r {
                Some(n) => self.spec_has(slot_size as int) && n == self.spec_headers()[
                    self.spec_find(slot_size as int)
                ].spec_in_use(),
                None => !self.spec_has(slot_size as int),
            },
    {
        match self.find_index(slot_size) {
            Ok(i) => {
                proof {
                    let f = self.spec_find(slot_size as int);
                    if f != i {
                        assert(self.spec_headers()[f].spec_slot_size() == self.spec_headers()[
                            i as int
                        ].spec_slot_size());
                    }
                }
                Some(self.headers[i].get_in_use())
            },
            Err(_) => {
                proof {
                    if self.spec_has(slot_size as int) {
                        let f = self.spec_find(slot_size as int);
                        assert(self.spec_headers()[f].spec_slot_size() == slot_size);
                        assert(false);
                    }
                }
                None
            },
        }
    }
}

/// Slab idempotence: allocating and immediately freeing the allocated
/// slot restores the slab's free-slot set and active-allocation count.
/// (The ring's head itself moves when more than one slot was free: the
/// freed slot is spliced in after the new head rather than back on top.)
pub proof fn lemma_slab_alloc_free_restores(h0: SlabHeader, h1: SlabHeader, h2: SlabHeader, x: u16)
    requires
        // h1 is h0 after a successful allocation returning slot x:
        h1.spec_in_use() == h0.spec_in_use() + 1,
        forall|i: int| #[trigger] h1.spec_free(i) == (h0.spec_free(i) && i != x),
        h0.spec_free(x as int),
        // h2 is h1 after freeing slot x again:
        h2.spec_in_use() == h1.spec_in_use() - 1,
        forall|i: int| #[trigger] h2.spec_free(i) == (h1.spec_free(i) || i == x),
    ensures
        h2.spec_in_use() == h0.spec_in_use(),
        forall|i: int| #[trigger] h2.spec_free(i) == h0.spec_free(i),
{
}

} // verus!
