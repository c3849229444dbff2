//! The buddy page allocator: per-grain free lists of page blocks with a
//! bitmap and an intrusive linked ring, and the split/coalesce logic over
//! them.
//!
//! In kernel memory the ring runs through the first bytes of the free
//! blocks themselves; here each list owns an array of link records, one
//! per block, that plays the same role: the record of a block is
//! meaningful exactly while the block is free.

use crate::data::AtomicBitVec;
use crate::ring::{lemma_ring_insert, lemma_ring_remove, ring_remove, ring_wf};
use vstd::arithmetic::div_mod::lemma_div_denominator;
use vstd::arithmetic::power2::{lemma_pow2_adds, lemma_pow2_pos, pow2};
use vstd::prelude::*;

verus! {

/// `value / 2^count`, computed by repeated halving: the number of blocks
/// of `2^count` pages that fit in `value` pages.
pub fn div_pow2(value: usize, count: usize) -> (r: usize)
    ensures
        r == value as int / pow2(count as nat) as int,
        r <= value,
{
    let mut v = value;
    let mut k: usize = 0;
    proof {
        vstd::arithmetic::power2::lemma2_to64();
    }
    while k < count
        invariant
            k <= count,
            pow2(k as nat) >= 1,
            v == value as int / pow2(k as nat) as int,
            v <= value,
        decreases count - k,
    {
        proof {
            lemma_pow2_pos(k as nat);
            lemma_pow2_adds(k as nat, 1);
            vstd::arithmetic::power2::lemma2_to64();
            lemma_div_denominator(value as int, pow2(k as nat) as int, 2);
            lemma_pow2_pos((k + 1) as nat);
        }
        v = v / 2;
        k = k + 1;
    }
    v
}

/// `value * 2^count`, computed by repeated doubling: the first page of
/// block `value` at grain `count`.
pub fn mul_pow2(value: usize, count: usize) -> (r: usize)
    requires
        value * pow2(count as nat) <= usize::MAX,
    ensures
        r == value * pow2(count as nat),
{
    let mut v = value;
    let mut k: usize = 0;
    proof {
        vstd::arithmetic::power2::lemma2_to64();
    }
    while k < count
        invariant
            k <= count,
            v == value * pow2(k as nat),
            value * pow2(count as nat) <= usize::MAX,
        decreases count - k,
    {
        proof {
            lemma_pow2_adds(k as nat, 1);
            vstd::arithmetic::power2::lemma2_to64();
            lemma_pow2_pos(k as nat);
            if k + 1 < count {
                vstd::arithmetic::power2::lemma_pow2_strictly_increases(
                    (k + 1) as nat,
                    count as nat,
                );
            }
            assert(value * pow2((k + 1) as nat) <= value * pow2(count as nat))
                by (nonlinear_arith)
                requires
                    pow2((k + 1) as nat) <= pow2(count as nat),
                    value >= 0,
            ;
            assert(value * pow2((k + 1) as nat) == (value * pow2(k as nat)) * 2)
                by (nonlinear_arith)
                requires
                    pow2((k + 1) as nat) == pow2(k as nat) * 2,
            ;
        }
        v = v * 2;
        k = k + 1;
    }
    v
}

/// The grain a request for `num_pages` pages is served at: the exponent
/// of the smallest power of two covering the request.
pub fn grain_for_pages(num_pages: usize) -> (g: usize)
    requires
        1 <= num_pages <= usize::MAX / 2,
    ensures
        g == ceil_log2(num_pages as int),
{
    let mut grain: usize = 0;
    let mut cap: usize = 1;
    proof {
        vstd::arithmetic::power2::lemma2_to64();
    }
    while cap < num_pages
        invariant
            cap == pow2(grain as nat),
            1 <= cap,
            grain <= cap,
            grain == 0 || pow2((grain - 1) as nat) < num_pages,
            cap < 2 * num_pages,
            num_pages <= usize::MAX / 2,
        decreases 2 * num_pages - cap,
    {
        proof {
            lemma_pow2_adds(grain as nat, 1);
            vstd::arithmetic::power2::lemma2_to64();
        }
        cap = cap * 2;
        grain = grain + 1;
    }
    proof {
        lemma_ceil_log2_unique(num_pages as int, grain as nat);
    }
    grain
}

/// The number of doublings needed to cover `n`: the exponent of the
/// smallest power of two at least `n`.
pub open spec fn ceil_log2(n: int) -> nat
    decreases n,
{
    if n <= 1 {
        0
    } else {
        (1 + ceil_log2((n + 1) / 2)) as nat
    }
}

/// A grain whose blocks cover `n` pages, and whose predecessor's do not,
/// is the grain of the smallest covering power of two.
pub proof fn lemma_ceil_log2_unique(n: int, g: nat)
    requires
        n >= 1,
        pow2(g) >= n,
        g == 0 || pow2((g - 1) as nat) < n,
    ensures
        g == ceil_log2(n),
    decreases n,
{
    vstd::arithmetic::power2::lemma2_to64();
    if n <= 1 {
        if g > 0 {
            lemma_pow2_pos((g - 1) as nat);
        }
    } else {
        let m = (n + 1) / 2;
        assert(g >= 1) by {
            if g == 0 {
                assert(pow2(0) == 1);
            }
        }
        lemma_pow2_adds((g - 1) as nat, 1);
        assert(pow2(g) == pow2((g - 1) as nat) * 2);
        // Halving the target steps the exponent down by one.
        assert(pow2((g - 1) as nat) >= m) by (nonlinear_arith)
            requires
                pow2(g) == pow2((g - 1) as nat) * 2,
                pow2(g) >= n,
                n >= 2,
                m == (n + 1) / 2,
        ;
        if g >= 2 {
            lemma_pow2_adds((g - 2) as nat, 1);
            assert(pow2((g - 1) as nat) == pow2((g - 2) as nat) * 2);
            assert(pow2((g - 2) as nat) < m) by (nonlinear_arith)
                requires
                    pow2((g - 1) as nat) == pow2((g - 2) as nat) * 2,
                    pow2((g - 1) as nat) < n,
                    m == (n + 1) / 2,
                    n >= 2,
            ;
        }
        lemma_ceil_log2_unique(m, (g - 1) as nat);
    }
}

/// The neighbour indices of one free block, which the kernel stores in
/// the free block's own first bytes.
#[derive(Clone, Copy, Debug, PartialEq, Eq, Structural)]
pub struct PageLink {
    /// The previous free block, or this block if no other free block
    /// exists.
    pub prev: usize,
    /// The next free block, or this block if no other free block exists.
    pub next: usize,
}

/// A free list of page blocks of one grain, represented as a bitmap plus
/// an intrusive ring. A block is in the ring exactly when its bitmap bit
/// is set.
pub struct PageFreeList {
    /// Bit vec recording whether each block is free.
    available: AtomicBitVec,
    /// The link records of the blocks; block `i`'s record is meaningful
    /// exactly while block `i` is free.
    links: Vec<PageLink>,
    /// One free block — the root of the ring — or `None` if no block is
    /// free.
    head: Option<usize>,
    /// Multiplier for page size, where the multiplier is `2^grain`.
    grain: usize,
    /// The cyclic order of the free blocks, starting at the head.
    ring: Ghost<Seq<int>>,
}

/// The buddy of block `i`: the block differing from it in the lowest
/// index bit.
pub open spec fn spec_buddy(i: int) -> int {
    if i % 2 == 0 {
        i + 1
    } else {
        i - 1
    }
}

/// The lower of block `i` and its buddy: the start of their common
/// parent.
pub open spec fn spec_lower(i: int) -> int {
    2 * (i / 2)
}

impl PageFreeList {
    /// The grain of this list: each block spans `2^grain` pages.
    pub closed spec fn spec_grain(&self) -> usize {
        self.grain
    }

    /// The number of blocks this list manages.
    pub closed spec fn spec_blocks(&self) -> nat {
        self.available@.len()
    }

    /// Whether block `i` is free.
    pub closed spec fn spec_free(&self, i: int) -> bool {
        0 <= i < self.available@.len() && self.available@[i]
    }

    /// The cyclic order of the free blocks, starting at the head.
    pub closed spec fn spec_ring(&self) -> Seq<int> {
        self.ring@
    }

    /// The head of the free ring.
    pub closed spec fn spec_head(&self) -> Option<usize> {
        self.head
    }

    /// The `prev` link records as a sequence.
    closed spec fn prevs(&self) -> Seq<int> {
        self.links@.map_values(|l: PageLink| l.prev as int)
    }

    /// The `next` link records as a sequence.
    closed spec fn nexts(&self) -> Seq<int> {
        self.links@.map_values(|l: PageLink| l.next as int)
    }

    /// Well-formed: the bitmap, the link records and the ghost ring
    /// describe one another — a block's bit is set exactly when the block
    /// is a member of the ring, the ring is realised by the link records,
    /// and the head is the ring's first element (or absent when no block
    /// is free).
    pub closed spec fn wf(&self) -> bool {
        &&& self.available.wf()
        &&& self.links@.len() == self.available@.len()
        &&& ring_wf(self.ring@, self.prevs(), self.nexts(), self.links@.len() as int)
        &&& forall|i: int|
            0 <= i < self.available@.len() ==> (#[trigger] self.available@[i]
                <==> self.ring@.contains(i))
        &&& match self.head {
            None => self.ring@.len() == 0,
            Some(h) => self.ring@.len() > 0 && self.ring@[0] == h as int,
        }
    }

    /// The block count always fits the machine word that indexes blocks.
    pub proof fn lemma_blocks_bound(&self)
        ensures
            self.spec_blocks() <= usize::MAX,
    {
        self.available.lemma_len_bound();
    }

    /// Buddy bitmap consistency: in a well-formed list the blocks whose
    /// bitmap bit is set are exactly the members of the free ring rooted
    /// at the head, and the head is absent exactly when no block is free.
    pub proof fn lemma_bitmap_matches_ring(&self)
        requires
            self.wf(),
        ensures
            forall|i: int|
                0 <= i < self.spec_blocks() ==> (#[trigger] self.spec_free(i)
                    <==> self.spec_ring().contains(i)),
            self.spec_head() is None <==> self.spec_ring().len() == 0,
            self.spec_head() matches Some(h) ==> self.spec_ring()[0] == h as int
                && self.spec_free(h as int),
    {
        if self.head is Some {
            let h = self.head->Some_0;
            assert(self.ring@.contains(h as int)) by {
                assert(self.ring@[0] == h as int);
            }
        }
    }

    /// Creates a page free list with `num_pages` pages in groups of
    /// `2^grain`, so `num_pages / 2^grain` blocks, all allocated.
    pub fn new(num_pages: usize, grain: usize) -> (r: Self)
        requires
            num_pages <= usize::MAX - 63,
        ensures
            r.wf(),
            r.spec_grain() == grain,
            r.spec_blocks() == num_pages as int / pow2(grain as nat) as int,
            forall|i: int| !r.spec_free(i),
            r.spec_ring().len() == 0,
    {
        let num_blocks = div_pow2(num_pages, grain);
        let available = AtomicBitVec::new_in(num_blocks);
        let mut links: Vec<PageLink> = Vec::new();
        while links.len() < num_blocks
            invariant
                links@.len() <= num_blocks,
            decreases num_blocks - links@.len(),
        {
            links.push(PageLink { prev: 0, next: 0 });
        }
        let r = Self {
            available,
            links,
            head: None,
            grain,
            ring: Ghost(Seq::empty()),
        };
        proof {
            assert(r.prevs().len() == r.links@.len());
            assert(r.ring@.len() == 0);
        }
        r
    }

    /// Whether block `index` is recorded free, or `None` out of bounds.
    pub fn is_free(&self, index: usize) -> (r: Option<bool>)
        requires
            self.wf(),
        ensures
            r == if index < self.spec_blocks() {
                Some(self.spec_free(index as int))
            } else {
                None::<bool>
            },
    {
        self.available.get(index)
    }

    /// Allocates (unlinks) the free block `index`, wherever it sits in
    /// the ring; the head moves to the block's successor. Unlinking a
    /// block that is not recorded free is a fatal bookkeeping error, so
    /// that is excluded.
    pub fn allocate_page_exact(&mut self, index: usize) -> (r: ())
        requires
            old(self).wf(),
            old(self).spec_free(index as int),
        ensures
            final(self).wf(),
            final(self).spec_grain() == old(self).spec_grain(),
            final(self).spec_blocks() == old(self).spec_blocks(),
            forall|i: int|
                0 <= i < old(self).spec_blocks() ==> (#[trigger] final(self).spec_free(i) == (old(
                    self,
                ).spec_free(i) && i != index)),
            final(self).spec_ring() == ring_remove(
                old(self).spec_ring(),
                old(self).spec_ring().index_of(index as int),
            ),
    {
        let ghost ring0 = self.ring@;
        let ghost pos = ring0.index_of(index as int);
        proof {
            assert(ring0.contains(index as int));
            assert(0 <= pos < ring0.len() && ring0[pos] == index as int);
            assert(crate::ring::ring_link_at(ring0, self.prevs(), self.nexts(), pos));
        }
        let link = self.links[index];
        let prev_index = link.prev;
        let next_index = link.next;
        if next_index == index {
            // This was the last free block: the ring had one element.
            proof {
                let len = ring0.len() as int;
                assert(ring0[crate::ring::next_pos(len, pos)] == index as int);
                if len >= 2 {
                    // Two distinct positions holding the same element
                    // contradict distinctness.
                    assert(crate::ring::next_pos(len, pos) != pos);
                    assert(false);
                }
            }
            self.head = None;
            self.available.set(index, false);
            proof {
                self.ring = Ghost(ring_remove(ring0, pos));
                assert(ring_remove(ring0, pos).len() == 0);
                assert forall|i: int| 0 <= i < self.available@.len() implies (
                #[trigger] self.available@[i] <==> self.ring@.contains(i)) by {}
            }
        } else {
            proof {
                lemma_ring_remove(
                    ring0,
                    self.prevs(),
                    self.nexts(),
                    self.links@.len() as int,
                    pos,
                );
                if ring0.len() < 2 {
                    assert(ring0[crate::ring::next_pos(ring0.len() as int, pos)]
                        == index as int);
                    assert(false);
                }
            }
            let mut prev_link = self.links[prev_index];
            prev_link.next = next_index;
            self.links.set(prev_index, prev_link);
            let mut next_link = self.links[next_index];
            next_link.prev = prev_index;
            self.links.set(next_index, next_link);
            self.head = Some(next_index);
            self.available.set(index, false);
            proof {
                self.ring = Ghost(ring_remove(ring0, pos));
                assert(self.prevs() =~= old(self).prevs().update(
                    old(self).nexts()[index as int],
                    old(self).prevs()[index as int],
                ));
                assert(self.nexts() =~= old(self).nexts().update(
                    old(self).prevs()[index as int],
                    old(self).nexts()[index as int],
                ));
            }
        }
    }

    /// Attempts to allocate a block, unlinking and returning the head of
    /// the free ring, or `None` if no block is free.
    pub fn allocate_page(&mut self) -> (r: Option<usize>)
        requires
            old(self).wf(),
        ensures
            final(self).wf(),
            final(self).spec_grain() == old(self).spec_grain(),
            final(self).spec_blocks() == old(self).spec_blocks(),
            match r {
                None => *final(self) == *old(self) && old(self).spec_head() is None && forall|
                    i: int,
                | !old(self).spec_free(i),
                Some(h) => {
                    &&& old(self).spec_head() == Some(h)
                    &&& old(self).spec_free(h as int)
                    &&& final(self).spec_ring() == ring_remove(old(self).spec_ring(), 0)
                    &&& final(self).spec_head() == if old(self).spec_ring().len() == 1 {
                        None::<usize>
                    } else {
                        Some(old(self).spec_ring()[1] as usize)
                    }
                    &&& forall|i: int|
                        0 <= i < old(self).spec_blocks() ==> (#[trigger] final(self).spec_free(i)
                            == (old(self).spec_free(i) && i != h))
                },
            },
    {
        match self.head {
            None => {
                proof {
                    assert forall|i: int| !self.spec_free(i) by {
                        if 0 <= i < self.available@.len() && self.available@[i] {
                            assert(self.ring@.contains(i));
                        }
                    }
                }
                None
            },
            Some(head_index) => {
                let ghost ring0 = self.ring@;
                proof {
                    assert(ring0.contains(head_index as int)) by {
                        assert(ring0[0] == head_index as int);
                    }
                    // The head sits at position zero, and by distinctness
                    // nowhere else, so it is the position unlinked.
                    assert(ring0.index_of(head_index as int) == 0) by {
                        let p = ring0.index_of(head_index as int);
                        assert(0 <= p < ring0.len() && ring0[p] == head_index as int);
                        if p != 0 {
                            assert(ring0[p] != ring0[0]);
                        }
                    }
                }
                self.allocate_page_exact(head_index);
                proof {
                    // The shortened ring starts at the old second
                    // element, which well-formedness makes the new head.
                    if ring0.len() > 1 {
                        assert(ring_remove(ring0, 0)[0] == ring0[1]);
                        assert(self.spec_head() == Some(ring0[1] as usize)) by {
                            assert(self.ring@.len() > 0);
                            let h2 = self.head->Some_0;
                            assert(self.ring@[0] == h2 as int);
                            assert(0 <= ring0[1] < self.links@.len() as int);
                        }
                    }
                }
                Some(head_index)
            },
        }
    }

    /// Deallocates block `index`. If its buddy is also free the buddy is
    /// unlinked instead and the start of their common parent is returned,
    /// to be freed one grain up; otherwise the block joins the ring and
    /// nothing is returned. Freeing a block that is already recorded free
    /// breaks the ring and is excluded, as the kernel's assertions do.
    pub fn deallocate_page_exact(&mut self, index: usize) -> (r: Option<usize>)
        requires
            old(self).wf(),
            index < old(self).spec_blocks(),
            !old(self).spec_free(index as int),
        ensures
            final(self).wf(),
            final(self).spec_grain() == old(self).spec_grain(),
            final(self).spec_blocks() == old(self).spec_blocks(),
            old(self).spec_free(spec_buddy(index as int)) ==> {
                &&& r == Some(spec_lower(index as int) as usize)
                &&& forall|i: int|
                    0 <= i < old(self).spec_blocks() ==> (#[trigger] final(self).spec_free(i)
                        == (old(self).spec_free(i) && i != spec_buddy(index as int)))
            },
            !old(self).spec_free(spec_buddy(index as int)) ==> {
                &&& r is None
                &&& forall|i: int|
                    0 <= i < old(self).spec_blocks() ==> (#[trigger] final(self).spec_free(i)
                        == (old(self).spec_free(i) || i == index))
            },
    {
        let buddy_index = if index % 2 == 0 {
            index + 1
        } else {
            index - 1
        };
        let lower_index = index - index % 2;
        let buddy_free = match self.available.get(buddy_index) {
            Some(b) => b,
            None => false,
        };
        if buddy_free {
            self.allocate_page_exact(buddy_index);
            Some(lower_index)
        } else {
            let ghost ring0 = self.ring@;
            proof {
                assert(!ring0.contains(index as int));
            }
            match self.head {
                None => {
                    self.links.set(index, PageLink { prev: index, next: index });
                    self.head = Some(index);
                    self.available.set(index, true);
                    proof {
                        self.ring = Ghost(seq![index as int]);
                        assert(ring0.len() == 0);
                        assert(self.ring@.no_duplicates());
                        assert(crate::ring::ring_link_at(
                            self.ring@,
                            self.prevs(),
                            self.nexts(),
                            0,
                        ));
                        assert forall|i: int|
                            0 <= i < self.available@.len() implies (#[trigger] self.available@[i]
                            <==> self.ring@.contains(i)) by {
                            if self.ring@.contains(i) {
                                let k = choose|k: int|
                                    0 <= k < self.ring@.len() && self.ring@[k] == i;
                                assert(i == index as int);
                            }
                        }
                    }
                    None
                },
                Some(head_index) => {
                    proof {
                        assert(ring0.len() >= 1 && ring0[0] == head_index as int);
                        assert(crate::ring::ring_link_at(ring0, self.prevs(), self.nexts(), 0));
                        lemma_ring_insert(
                            ring0,
                            self.prevs(),
                            self.nexts(),
                            self.links@.len() as int,
                            index as int,
                        );
                    }
                    let mut head_link = self.links[head_index];
                    let next_index = head_link.next;
                    head_link.next = index;
                    self.links.set(head_index, head_link);
                    self.links.set(index, PageLink { prev: head_index, next: next_index });
                    let mut next_link = self.links[next_index];
                    next_link.prev = index;
                    self.links.set(next_index, next_link);
                    self.available.set(index, true);
                    proof {
                        self.ring = Ghost(ring0.insert(1, index as int));
                        assert(self.prevs() =~= old(self).prevs().update(
                            index as int,
                            head_index as int,
                        ).update(old(self).nexts()[head_index as int], index as int));
                        assert(self.nexts() =~= old(self).nexts().update(
                            head_index as int,
                            index as int,
                        ).update(index as int, old(self).nexts()[head_index as int]));
                    }
                    None
                },
            }
        }
    }
}

/// An error occurring when allocating pages.
#[derive(Debug, Clone, Copy, PartialEq, Eq, Structural)]
pub enum PageAllocationError {
    /// Insufficient memory to allocate the requested number of pages.
    OutOfMemory,
}

/// An error occurring when freeing pages.
#[derive(Debug, Clone, Copy, PartialEq, Eq, Structural)]
pub enum PageDeallocationError {
    /// Tried to free a block at a grain no free list manages.
    OutOfBounds,
}

/// The pages a block at grain `g` and index `i` covers: page `p` lies in
/// the block exactly when `i * 2^g <= p < (i + 1) * 2^g`.
pub open spec fn block_covers(g: int, i: int, p: int) -> bool {
    i * pow2(g as nat) <= p < (i + 1) * pow2(g as nat)
}

/// What splitting a block down to `target` does to the free lists,
/// grain by grain: the source block — at `gp`, the smallest grain above
/// the target that had a free block — is unlinked, and at every grain
/// from the target up to it the upper half of the descending block is
/// freed, leaving the aligned lower half `block` in the caller's hands.
pub open spec fn spec_split_effect(
    pre: PageAllocator,
    post: PageAllocator,
    target: int,
    block: int,
    gp: int,
) -> bool {
    &&& target < gp < pre.spec_grains()
    &&& forall|g: int, i: int| target < g < gp ==> !pre.free_at(g, i)
    &&& block % pow2((gp - target) as nat) as int == 0
    &&& pre.free_at(gp, block / pow2((gp - target) as nat) as int)
    &&& forall|g: int, i: int|
        #![trigger post.free_at(g, i)]
        #![trigger pre.free_at(g, i)]
        0 <= g < pre.spec_grains() ==> post.free_at(g, i) == (if g == gp {
            pre.free_at(g, i) && i != block / pow2((gp - target) as nat) as int
        } else if target <= g < gp {
            pre.free_at(g, i) || i == block / pow2((g - target) as nat) as int + 1
        } else {
            pre.free_at(g, i)
        })
}

/// The block holding the freed block's pages at a higher grain `g`: the
/// index halves once per grain climbed.
pub open spec fn spec_block_at(index: int, grain: int, g: int) -> int {
    index / pow2((g - grain) as nat) as int
}

/// The grain at which a block freed at `grain` comes to rest: it merges
/// with its buddy while the buddy is free, climbing one grain per merge.
pub open spec fn spec_merge_grain(pre: PageAllocator, index: int, grain: int) -> int
    decreases pre.spec_grains() - grain,
{
    if pre.free_at(grain, spec_buddy(index)) {
        spec_merge_grain(pre, index / 2, grain + 1)
    } else {
        grain
    }
}

/// What freeing one block does to the lists, grain by grain — the
/// coalescing rule of the buddy system: while the climbing block's buddy
/// is free, the buddy leaves its grain and the merged parent climbs; the
/// block comes to rest in the first grain where its buddy is not free,
/// and no other list changes. Freeing every sub-block of an aligned
/// region therefore leaves the region as one block at its own grain.
pub open spec fn spec_dealloc_effect(
    pre: PageAllocator,
    post: PageAllocator,
    index: int,
    grain: int,
) -> bool {
    let top = spec_merge_grain(pre, index, grain);
    &&& grain <= top < pre.spec_grains()
    &&& forall|g: int, i: int|
        #![trigger post.free_at(g, i)]
        #![trigger pre.free_at(g, i)]
        0 <= g < pre.spec_grains() ==> post.free_at(g, i) == (if g == top {
            pre.free_at(g, i) || i == spec_block_at(index, grain, g)
        } else if grain <= g < top {
            pre.free_at(g, i) && i != spec_buddy(spec_block_at(index, grain, g))
        } else {
            pre.free_at(g, i)
        })
}

/// A page allocator, using a buddy system for efficient allocation.
/// Blocks are identified by the index of their first page; all page
/// indices count from the base of RAM.
pub struct PageAllocator {
    /// Page free lists, indexed by their granularity. The free list at
    /// index `i` manages pages in groups of `2^i`.
    grained_lists: Vec<PageFreeList>,
}

impl PageAllocator {
    /// The per-grain free lists.
    pub closed spec fn lists(&self) -> Seq<PageFreeList> {
        self.grained_lists@
    }

    /// The number of grains managed.
    pub open spec fn spec_grains(&self) -> int {
        self.lists().len() as int
    }

    /// The number of blocks the list of grain `g` manages.
    pub open spec fn blocks_at(&self, g: int) -> int {
        self.lists()[g].spec_blocks() as int
    }

    /// Whether the block at grain `g` and index `i` is free.
    pub open spec fn free_at(&self, g: int, i: int) -> bool {
        &&& 0 <= g < self.lists().len()
        &&& self.lists()[g].spec_free(i)
    }

    /// Whether page `p` lies in some free block, of any grain.
    pub open spec fn page_free(&self, p: int) -> bool {
        exists|g: int, i: int|
            #![trigger self.free_at(g, i), block_covers(g, i, p)]
            self.free_at(g, i) && block_covers(g, i, p)
    }

    /// No two distinct free blocks share a page: across all grains, the
    /// free blocks cover disjoint page ranges.
    pub open spec fn blocks_disjoint(&self) -> bool {
        forall|g1: int, i1: int, g2: int, i2: int, p: int|
            #![trigger self.free_at(g1, i1), self.free_at(g2, i2), block_covers(g1, i1, p), block_covers(g2, i2, p)]
            self.free_at(g1, i1) && self.free_at(g2, i2) && block_covers(g1, i1, p)
                && block_covers(g2, i2, p) ==> g1 == g2 && i1 == i2
    }

    /// Well-formed: each list is well-formed and sits at its own grain,
    /// the block counts halve from grain to grain, the top grain holds at
    /// most one block (so coalescing never outruns the lists), and free
    /// blocks are disjoint.
    pub closed spec fn wf(&self) -> bool {
        &&& forall|g: int|
            0 <= g < self.lists().len() ==> (#[trigger] self.lists()[g]).wf()
                && self.lists()[g].spec_grain() == g
        &&& forall|g: int|
            0 <= g < self.lists().len() ==> #[trigger] self.blocks_at(g) == self.blocks_at(0)
                / pow2(g as nat) as int
        &&& self.lists().len() > 0 ==> self.blocks_at(self.spec_grains() - 1) <= 1
        &&& self.blocks_disjoint()
    }

    /// After clearing the free bit of block `(g0, i0)` and touching
    /// nothing else, the free blocks are still disjoint and exactly that
    /// block's pages stopped being free.
    proof fn lemma_after_clear(pre: Self, post: Self, g0: int, i0: int)
        requires
            pre.blocks_disjoint(),
            pre.free_at(g0, i0),
            forall|g: int, i: int|
                #![trigger post.free_at(g, i)]
                #![trigger pre.free_at(g, i)]
                post.free_at(g, i) == (pre.free_at(g, i) && !(g == g0 && i == i0)),
        ensures
            post.blocks_disjoint(),
            forall|p: int|
                #[trigger] post.page_free(p) == (pre.page_free(p) && !block_covers(g0, i0, p)),
    {
        assert forall|p: int|
            #[trigger] post.page_free(p) == (pre.page_free(p) && !block_covers(
                g0,
                i0,
                p,
            )) by {
            if post.page_free(p) {
                let (g, i) = choose|g: int, i: int|
                    #![trigger post.free_at(g, i), block_covers(g, i, p)]
                    post.free_at(g, i) && block_covers(g, i, p);
                assert(pre.free_at(g, i) && block_covers(g, i, p));
                if block_covers(g0, i0, p) {
                    // Both blocks would be free in the prior state and
                    // share p, so they would be the same block.
                    assert(g == g0 && i == i0);
                    assert(false);
                }
            }
            if pre.page_free(p) && !block_covers(g0, i0, p) {
                let (g, i) = choose|g: int, i: int|
                    #![trigger pre.free_at(g, i), block_covers(g, i, p)]
                    pre.free_at(g, i) && block_covers(g, i, p);
                assert(post.free_at(g, i) && block_covers(g, i, p));
            }
        }
    }

    /// After setting the free bit of block `(g0, i0)` — none of whose
    /// pages were free — and touching nothing else, the free blocks are
    /// still disjoint and exactly that block's pages became free.
    proof fn lemma_after_set(pre: Self, post: Self, g0: int, i0: int)
        requires
            pre.blocks_disjoint(),
            forall|g: int, i: int|
                #![trigger post.free_at(g, i)]
                #![trigger pre.free_at(g, i)]
                post.free_at(g, i) == (pre.free_at(g, i) || (g == g0 && i == i0)),
            forall|p: int| block_covers(g0, i0, p) ==> !pre.page_free(p),
        ensures
            post.blocks_disjoint(),
            forall|p: int|
                #[trigger] post.page_free(p) == (pre.page_free(p) || block_covers(g0, i0, p)),
    {
        assert forall|g1: int, i1: int, g2: int, i2: int, p: int|
            #![trigger post.free_at(g1, i1), post.free_at(g2, i2), block_covers(g1, i1, p), block_covers(g2, i2, p)]
            post.free_at(g1, i1) && post.free_at(g2, i2) && block_covers(g1, i1, p)
                && block_covers(g2, i2, p) implies g1 == g2 && i1 == i2 by {
            if pre.free_at(g1, i1) && pre.free_at(g2, i2) {
            } else if !pre.free_at(g1, i1) && !pre.free_at(g2, i2) {
            } else if pre.free_at(g1, i1) {
                // (g2, i2) is the new block; a shared page would have
                // been free already.
                assert(pre.page_free(p));
                assert(false);
            } else {
                assert(pre.page_free(p));
                assert(false);
            }
        }
        assert forall|p: int|
            #[trigger] post.page_free(p) == (pre.page_free(p) || block_covers(
                g0,
                i0,
                p,
            )) by {
            if post.page_free(p) {
                let (g, i) = choose|g: int, i: int|
                    #![trigger post.free_at(g, i), block_covers(g, i, p)]
                    post.free_at(g, i) && block_covers(g, i, p);
                if !(g == g0 && i == i0) {
                    assert(pre.free_at(g, i) && block_covers(g, i, p));
                }
            }
            if pre.page_free(p) {
                let (g, i) = choose|g: int, i: int|
                    #![trigger pre.free_at(g, i), block_covers(g, i, p)]
                    pre.free_at(g, i) && block_covers(g, i, p);
                assert(post.free_at(g, i) && block_covers(g, i, p));
            }
            if block_covers(g0, i0, p) {
                assert(post.free_at(g0, i0) && block_covers(g0, i0, p));
            }
        }
    }

    /// A state whose lists view equals a well-formed state's is itself
    /// well-formed: every clause of well-formedness speaks of the lists
    /// alone.
    proof fn lemma_wf_from_views(pre: Self, post: Self)
        requires
            pre.wf(),
            post.lists() == pre.lists(),
        ensures
            post.wf(),
            forall|g: int, i: int|
                #![trigger post.free_at(g, i)]
                #![trigger pre.free_at(g, i)]
                post.free_at(g, i) == pre.free_at(g, i),
            forall|g: int| #[trigger] post.blocks_at(g) == pre.blocks_at(g),
    {
        assert forall|g: int, i: int|
            #![trigger post.free_at(g, i)]
            #![trigger pre.free_at(g, i)]
            post.free_at(g, i) == pre.free_at(g, i) by {}
        assert forall|g1: int, i1: int, g2: int, i2: int, p: int|
            #![trigger post.free_at(g1, i1), post.free_at(g2, i2), block_covers(g1, i1, p), block_covers(g2, i2, p)]
            post.free_at(g1, i1) && post.free_at(g2, i2) && block_covers(g1, i1, p)
                && block_covers(g2, i2, p) implies g1 == g2 && i1 == i2 by {
            assert(pre.free_at(g1, i1) && pre.free_at(g2, i2));
        }
        assert forall|g: int|
            0 <= g < post.lists().len() implies #[trigger] post.blocks_at(g) == post.blocks_at(0)
            / pow2(g as nat) as int by {
            assert(post.blocks_at(g) == pre.blocks_at(g));
            assert(post.blocks_at(0) == pre.blocks_at(0));
        }
    }

    /// The resting grain of a climb depends only on the lists at and
    /// above its starting grain.
    proof fn lemma_merge_grain_agrees(a: Self, b: Self, index: int, grain: int)
        requires
            a.spec_grains() == b.spec_grains(),
            forall|g: int, i: int|
                #![trigger a.free_at(g, i)]
                #![trigger b.free_at(g, i)]
                grain <= g ==> a.free_at(g, i) == b.free_at(g, i),
        ensures
            spec_merge_grain(a, index, grain) == spec_merge_grain(b, index, grain),
        decreases a.spec_grains() - grain,
    {
        if a.free_at(grain, spec_buddy(index)) {
            Self::lemma_merge_grain_agrees(a, b, index / 2, grain + 1);
        }
    }

    /// Block counts halve from one grain to the next.
    proof fn lemma_blocks_halve(&self, g: int)
        requires
            self.wf(),
            1 <= g < self.spec_grains(),
        ensures
            self.blocks_at(g) == self.blocks_at(g - 1) / 2,
    {
        lemma_pow2_pos((g - 1) as nat);
        lemma_pow2_adds((g - 1) as nat, 1);
        vstd::arithmetic::power2::lemma2_to64();
        lemma_div_denominator(self.blocks_at(0), pow2((g - 1) as nat) as int, 2);
        assert(pow2(g as nat) == pow2((g - 1) as nat) * 2);
    }

    /// Creates a page allocator with no free lists; [`Self::init`] builds
    /// them.
    pub fn new() -> (r: Self)
        ensures
            r.wf(),
            r.spec_grains() == 0,
    {
        Self { grained_lists: Vec::new() }
    }

    /// Every free list of a well-formed allocator is itself well-formed
    /// at its own grain, so [`PageFreeList::lemma_bitmap_matches_ring`]
    /// applies to each: per grain, the bitmap marks exactly the members
    /// of the free ring rooted at the head.
    pub proof fn lemma_lists_well_formed(&self)
        requires
            self.wf(),
        ensures
            forall|g: int|
                0 <= g < self.spec_grains() ==> (#[trigger] self.lists()[g]).wf()
                    && self.lists()[g].spec_grain() == g,
    {
    }

    /// Deallocates the block of `2^grain` pages starting at page index
    /// `index * 2^grain`. If the block's buddy is also free the two merge,
    /// repeatedly, moving up the grains. None of the block's pages may
    /// currently be free: freeing a free page corrupts the free rings,
    /// and the kernel asserts against it.
    pub fn deallocate_page_from_index(&mut self, index: usize, grain: usize) -> (r: Result<
        (),
        PageDeallocationError,
    >)
        requires
            old(self).wf(),
            grain < old(self).spec_grains() ==> index < old(self).blocks_at(grain as int) && (
            forall|p: int| block_covers(grain as int, index as int, p) ==> !old(self).page_free(p)),
        ensures
            final(self).wf(),
            final(self).spec_grains() == old(self).spec_grains(),
            forall|g: int|
                0 <= g < old(self).spec_grains() ==> #[trigger] final(self).blocks_at(g) == old(
                    self,
                ).blocks_at(g),
            grain >= old(self).spec_grains() ==> r == Err::<(), PageDeallocationError>(
                PageDeallocationError::OutOfBounds,
            ) && *final(self) == *old(self),
            grain < old(self).spec_grains() ==> r == Ok::<(), PageDeallocationError>(()) && (
            forall|p: int|
                #[trigger] final(self).page_free(p) == (old(self).page_free(p) || block_covers(
                    grain as int,
                    index as int,
                    p,
                ))) && spec_dealloc_effect(*old(self), *final(self), index as int, grain as int),
        decreases old(self).spec_grains() - grain,
    {
        let num_grains = self.grained_lists.len();
        if grain >= num_grains {
            return Err(PageDeallocationError::OutOfBounds);
        }
        let ghost pre = *self;
        proof {
            lemma_pow2_pos(grain as nat);
            // The block itself is not recorded free: its first page
            // would otherwise already be free.
            assert(block_covers(grain as int, index as int, index * pow2(grain as nat)))
                by (nonlinear_arith)
                requires
                    pow2(grain as nat) >= 1,
                    index >= 0,
            ;
            if pre.free_at(grain as int, index as int) {
                assert(pre.page_free(index * pow2(grain as nat)));
            }
        }
        let outcome = self.grained_lists[grain].deallocate_page_exact(index);
        match outcome {
            None => {
                proof {
                    assert(self.grained_lists@ =~= pre.lists().update(
                        grain as int,
                        self.lists()[grain as int],
                    ));
                    assert forall|g: int, i: int|
                        #![trigger self.free_at(g, i)]
                        #![trigger pre.free_at(g, i)]
                        self.free_at(g, i) == (pre.free_at(g, i) || (g == grain && i
                            == index)) by {}
                    Self::lemma_after_set(pre, *self, grain as int, index as int);
                    assert forall|g: int|
                        0 <= g < self.lists().len() implies (#[trigger] self.lists()[g]).wf()
                        && self.lists()[g].spec_grain() == g by {}
                    assert forall|g: int|
                        0 <= g < self.lists().len() implies #[trigger] self.blocks_at(g)
                        == self.blocks_at(0) / pow2(g as nat) as int by {
                        assert(self.blocks_at(g) == pre.blocks_at(g));
                        assert(self.blocks_at(0) == pre.blocks_at(0));
                    }
                    // No merge: the block comes to rest right here.
                    vstd::arithmetic::power2::lemma2_to64();
                    assert(!pre.free_at(grain as int, spec_buddy(index as int)));
                    assert(spec_merge_grain(pre, index as int, grain as int) == grain as int);
                    assert((grain as int - grain as int) as nat == 0 && pow2(0) == 1);
                    assert(index as int / pow2(0) as int == index as int);
                    assert(spec_block_at(index as int, grain as int, grain as int)
                        == index as int);
                    assert(spec_dealloc_effect(pre, *self, index as int, grain as int));
                }
                Ok(())
            },
            Some(lower) => {
                let ghost buddy = spec_buddy(index as int);
                proof {
                    assert(self.grained_lists@ =~= pre.lists().update(
                        grain as int,
                        self.lists()[grain as int],
                    ));
                    assert forall|g: int, i: int|
                        #![trigger self.free_at(g, i)]
                        #![trigger pre.free_at(g, i)]
                        self.free_at(g, i) == (pre.free_at(g, i) && !(g == grain && i
                            == buddy)) by {}
                    Self::lemma_after_clear(pre, *self, grain as int, buddy);
                }
                let parent = lower / 2;
                proof {
                    assert(pre.free_at(grain as int, buddy));
                    assert(buddy < pre.blocks_at(grain as int));
                    assert(lower as int == spec_lower(index as int) && lower % 2 == 0 && (lower
                        + 1 == buddy || lower + 1 == index)) by {}
                    assert(lower + 1 < pre.blocks_at(grain as int));
                    Self::lemma_parent_covers(
                        grain as int,
                        (grain + 1) as int,
                        lower as int,
                        parent as int,
                    );
                    // Both halves lie below the block count at this
                    // grain, so the parent lies below the halved count
                    // one grain up.
                    if grain + 1 < pre.spec_grains() {
                        lemma_pow2_pos(grain as nat);
                        lemma_pow2_adds(grain as nat, 1);
                        vstd::arithmetic::power2::lemma2_to64();
                        lemma_div_denominator(
                            pre.blocks_at(0),
                            pow2(grain as nat) as int,
                            2,
                        );
                        assert(pre.blocks_at((grain + 1) as int) == pre.blocks_at(grain as int)
                            / 2);
                        assert(parent < pre.blocks_at((grain + 1) as int)) by (nonlinear_arith)
                            requires
                                parent == lower / 2,
                                lower % 2 == 0,
                                lower as int + 1 < pre.blocks_at(grain as int),
                                pre.blocks_at((grain + 1) as int) == pre.blocks_at(grain as int)
                                    / 2,
                        ;
                    } else {
                        // The top grain holds at most one block, which
                        // has no buddy in range: coalescing cannot reach
                        // here.
                        assert(pre.blocks_at(grain as int) <= 1);
                        assert(false);
                    }
                    // The parent's pages are not free after the buddy
                    // was unlinked.
                    assert forall|p: int|
                        block_covers((grain + 1) as int, parent as int, p) implies !self.page_free(
                        p,
                    ) by {
                        assert(block_covers(grain as int, lower as int, p) || block_covers(
                            grain as int,
                            lower as int + 1,
                            p,
                        ));
                    }
                    assert forall|g: int|
                        0 <= g < self.lists().len() implies (#[trigger] self.lists()[g]).wf()
                        && self.lists()[g].spec_grain() == g by {}
                    assert forall|g: int|
                        0 <= g < self.lists().len() implies #[trigger] self.blocks_at(g)
                        == self.blocks_at(0) / pow2(g as nat) as int by {
                        assert(self.blocks_at(g) == pre.blocks_at(g));
                        assert(self.blocks_at(0) == pre.blocks_at(0));
                    }
                }
                let ghost mid = *self;
                let merged = self.deallocate_page_from_index(parent, grain + 1);
                proof {
                    assert(merged is Ok);
                    assert forall|p: int|
                        #[trigger] self.page_free(p) == (pre.page_free(p) || block_covers(
                            grain as int,
                            index as int,
                            p,
                        )) by {
                        assert(block_covers((grain + 1) as int, parent as int, p)
                            == (block_covers(grain as int, lower as int, p) || block_covers(
                            grain as int,
                            lower as int + 1,
                            p,
                        )));
                        // The merged parent covers the freed block and
                        // its buddy, whose pages were free before.
                        if block_covers(grain as int, buddy, p) {
                            assert(pre.free_at(grain as int, buddy));
                            assert(pre.page_free(p));
                        }
                    }
                    // The climb: the buddy leaves this grain and the
                    // merged parent continues from the next one up.
                    vstd::arithmetic::power2::lemma2_to64();
                    let g0 = grain as int;
                    assert(pre.free_at(g0, spec_buddy(index as int)));
                    assert(parent as int == index as int / 2);
                    assert forall|g: int, i: int|
                        #![trigger mid.free_at(g, i)]
                        #![trigger pre.free_at(g, i)]
                        g0 + 1 <= g ==> mid.free_at(g, i) == pre.free_at(g, i) by {}
                    Self::lemma_merge_grain_agrees(pre, mid, index as int / 2, g0 + 1);
                    let top = spec_merge_grain(pre, index as int, g0);
                    assert(top == spec_merge_grain(mid, parent as int, g0 + 1));
                    assert(g0 + 1 <= top < pre.spec_grains());
                    assert forall|g: int|
                        g0 + 1 <= g < pre.spec_grains() implies spec_block_at(
                        parent as int,
                        g0 + 1,
                        g,
                    ) == spec_block_at(index as int, g0, g) by {
                        lemma_pow2_pos((g - g0 - 1) as nat);
                        lemma_pow2_adds((g - g0 - 1) as nat, 1);
                        lemma_div_denominator(
                            index as int,
                            2,
                            pow2((g - g0 - 1) as nat) as int,
                        );
                        assert((g - g0) as nat == (g - g0 - 1) as nat + 1);
                        assert(pow2((g - g0) as nat) == pow2((g - g0 - 1) as nat) * 2);
                        assert(2 * pow2((g - g0 - 1) as nat) as int == pow2(
                            (g - g0) as nat,
                        ) as int) by (nonlinear_arith)
                            requires
                                pow2((g - g0) as nat) == pow2((g - g0 - 1) as nat) * 2,
                        ;
                    }
                    assert((g0 - g0) as nat == 0 && pow2(0) == 1);
                    assert(index as int / pow2(0) as int == index as int);
                    assert(spec_block_at(index as int, g0, g0) == index as int);
                    assert forall|g: int, i: int|
                        #![trigger self.free_at(g, i)]
                        #![trigger pre.free_at(g, i)]
                        0 <= g < pre.spec_grains() implies self.free_at(g, i) == (if g == top {
                        pre.free_at(g, i) || i == spec_block_at(index as int, g0, g)
                    } else if g0 <= g < top {
                        pre.free_at(g, i) && i != spec_buddy(spec_block_at(index as int, g0, g))
                    } else {
                        pre.free_at(g, i)
                    }) by {
                        assert(self.free_at(g, i) == (if g == top {
                            mid.free_at(g, i) || i == spec_block_at(parent as int, g0 + 1, g)
                        } else if g0 + 1 <= g < top {
                            mid.free_at(g, i) && i != spec_buddy(
                                spec_block_at(parent as int, g0 + 1, g),
                            )
                        } else {
                            mid.free_at(g, i)
                        }));
                    }
                    assert(spec_dealloc_effect(pre, *self, index as int, g0));
                }
                merged
            },
        }
    }

    /// Deallocates the block of `2^grain` pages whose first page is
    /// `first_page`, coalescing with free buddies. A misaligned start
    /// is a fatal bookkeeping error and is excluded.
    pub fn deallocate_page(&mut self, first_page: usize, grain: usize) -> (r: Result<
        (),
        PageDeallocationError,
    >)
        requires
            old(self).wf(),
            grain < old(self).spec_grains() ==> {
                &&& first_page as int % pow2(grain as nat) as int == 0
                &&& (first_page as int / pow2(grain as nat) as int) < old(self).blocks_at(
                    grain as int,
                )
                &&& forall|p: int|
                    block_covers(grain as int, first_page as int / pow2(grain as nat) as int, p)
                        ==> !old(self).page_free(p)
            },
        ensures
            final(self).wf(),
            final(self).spec_grains() == old(self).spec_grains(),
            forall|g: int|
                0 <= g < old(self).spec_grains() ==> #[trigger] final(self).blocks_at(g) == old(
                    self,
                ).blocks_at(g),
            grain >= old(self).spec_grains() ==> r == Err::<(), PageDeallocationError>(
                PageDeallocationError::OutOfBounds,
            ) && *final(self) == *old(self),
            grain < old(self).spec_grains() ==> r == Ok::<(), PageDeallocationError>(()) && (
            forall|p: int|
                #[trigger] final(self).page_free(p) == (old(self).page_free(p) || block_covers(
                    grain as int,
                    first_page as int / pow2(grain as nat) as int,
                    p,
                ))) && spec_dealloc_effect(
                *old(self),
                *final(self),
                first_page as int / pow2(grain as nat) as int,
                grain as int,
            ),
    {
        if grain >= self.grained_lists.len() {
            return Err(PageDeallocationError::OutOfBounds);
        }
        let index = div_pow2(first_page, grain);
        self.deallocate_page_from_index(index, grain)
    }

    /// Builds the free lists for every grain up to the top one and then
    /// frees every page strictly above the bump high-water mark, starting
    /// at `pages_allocated + 1`: the page right at the mark stays
    /// allocated for good, a deliberate guard.
    /// `pages_allocated` is the number of pages the bump allocator has
    /// consumed, in whole or part.
    pub fn init(&mut self, num_pages: usize, pages_allocated: usize)
        requires
            old(self).spec_grains() == 0,
            1 <= num_pages <= usize::MAX - 63,
            pages_allocated < usize::MAX,
        ensures
            final(self).wf(),
            final(self).spec_grains() >= 1,
            final(self).blocks_at(0) == num_pages,
            final(self).blocks_at(final(self).spec_grains() - 1) == 1,
            pow2((final(self).spec_grains() - 1) as nat) <= num_pages < pow2(
                final(self).spec_grains() as nat,
            ),
            forall|p: int|
                #[trigger] final(self).page_free(p) <==> pages_allocated + 1 <= p < num_pages,
    {
        // depth = the position of the highest set bit of num_pages: the
        // top grain, whose list holds exactly one block.
        let mut depth: usize = 0;
        let mut cap: u64 = 1;
        let pages64: u64 = num_pages as u64;
        proof {
            vstd::arithmetic::power2::lemma2_to64();
        }
        while cap <= pages64 / 2
            invariant
                cap == pow2(depth as nat),
                1 <= cap <= pages64,
                depth <= 63,
                pages64 == num_pages,
                num_pages <= usize::MAX - 63,
            decreases pages64 - cap,
        {
            proof {
                lemma_pow2_adds(depth as nat, 1);
                vstd::arithmetic::power2::lemma2_to64();
                if depth >= 63 {
                    vstd::arithmetic::power2::lemma2_to64_rest();
                    if depth > 63 {
                        vstd::arithmetic::power2::lemma_pow2_strictly_increases(63, depth as nat);
                    }
                    assert(cap >= pow2(63));
                    assert(false);
                }
            }
            cap = cap * 2;
            depth = depth + 1;
        }
        proof {
            assert(pow2(depth as nat) <= num_pages && num_pages < 2 * pow2(depth as nat));
            lemma_pow2_adds(depth as nat, 1);
            vstd::arithmetic::power2::lemma2_to64();
            assert(num_pages < pow2((depth + 1) as nat));
        }
        let mut grain: usize = 0;
        while grain <= depth
            invariant
                grain <= depth + 1,
                depth <= 63,
                self.spec_grains() == grain,
                forall|g: int|
                    0 <= g < grain ==> (#[trigger] self.lists()[g]).wf()
                        && self.lists()[g].spec_grain() == g && self.lists()[g].spec_ring().len()
                        == 0 && self.blocks_at(g) == num_pages as int / pow2(g as nat) as int
                        && (forall|i: int| !self.lists()[g].spec_free(i)),
                num_pages <= usize::MAX - 63,
            decreases depth + 1 - grain,
        {
            self.grained_lists.push(PageFreeList::new(num_pages, grain));
            grain = grain + 1;
        }
        proof {
            vstd::arithmetic::power2::lemma2_to64();
            assert(self.blocks_at(0) == num_pages as int / pow2(0) as int);
            assert(self.blocks_at(0) == num_pages);
            assert(self.blocks_at(depth as int) == num_pages as int / pow2(depth as nat) as int);
            assert(num_pages as int / pow2(depth as nat) as int == 1) by (nonlinear_arith)
                requires
                    pow2(depth as nat) <= num_pages < 2 * pow2(depth as nat),
            ;
            assert forall|g: int|
                0 <= g < self.lists().len() implies #[trigger] self.blocks_at(g)
                == self.blocks_at(0) / pow2(g as nat) as int by {
                assert(pow2(0) == 1);
            }
            assert forall|g1: int, i1: int, g2: int, i2: int, p: int|
                #![trigger self.free_at(g1, i1), self.free_at(g2, i2), block_covers(g1, i1, p), block_covers(g2, i2, p)]
                self.free_at(g1, i1) && self.free_at(g2, i2) && block_covers(g1, i1, p)
                    && block_covers(g2, i2, p) implies g1 == g2 && i1 == i2 by {}
            assert(self.wf());
            assert forall|p: int| !self.page_free(p) by {
                if self.page_free(p) {
                    let (g, i) = choose|g: int, i: int|
                        #![trigger self.free_at(g, i), block_covers(g, i, p)]
                        self.free_at(g, i) && block_covers(g, i, p);
                }
            }
        }
        // Free all pages above the bump mark, leaving the extra guard
        // page alone.
        let ghost built = *self;
        let mut page_index = pages_allocated + 1;
        while page_index < num_pages
            invariant
                self.wf(),
                pages_allocated + 1 <= page_index,
                page_index <= num_pages || page_index == pages_allocated + 1,
                self.spec_grains() == built.spec_grains(),
                forall|g: int|
                    0 <= g < built.spec_grains() ==> #[trigger] self.blocks_at(g)
                        == built.blocks_at(g),
                built.blocks_at(0) == num_pages,
                built.spec_grains() >= 1,
                forall|p: int|
                    #[trigger] self.page_free(p) <==> pages_allocated + 1 <= p < page_index,
            decreases num_pages - page_index,
        {
            proof {
                vstd::arithmetic::power2::lemma2_to64();
                assert((page_index as int) * pow2(0) as int == page_index as int && (
                page_index as int + 1) * pow2(0) as int == page_index as int + 1)
                    by (nonlinear_arith)
                    requires
                        pow2(0) == 1,
                ;
                assert forall|p: int|
                    block_covers(0, page_index as int, p) implies !self.page_free(p) by {
                    assert(p == page_index as int);
                }
            }
            let freed = self.deallocate_page_from_index(page_index, 0);
            proof {
                assert(freed is Ok);
                vstd::arithmetic::power2::lemma2_to64();
                assert((page_index as int) * pow2(0) as int == page_index as int && (
                page_index as int + 1) * pow2(0) as int == page_index as int + 1)
                    by (nonlinear_arith)
                    requires
                        pow2(0) == 1,
                ;
                assert forall|p: int|
                    #[trigger] self.page_free(p) <==> pages_allocated + 1 <= p < page_index
                        + 1 by {
                    assert(block_covers(0, page_index as int, p) <==> p == page_index as int);
                }
            }
            page_index = page_index + 1;
        }
        proof {
            if pages_allocated + 1 >= num_pages {
                assert forall|p: int|
                    #[trigger] self.page_free(p) <==> pages_allocated + 1 <= p < num_pages by {}
            }
        }
    }

    /// Splits a larger free block down to `target_grain`, freeing the
    /// upper half at each intermediate grain, and returns a block of the
    /// target grain, or `None` if no larger block is free. Does not check
    /// whether a block of the target grain itself is already free.
    pub fn split_block(&mut self, target_grain: usize) -> (r: Option<usize>)
        requires
            old(self).wf(),
            target_grain < old(self).spec_grains(),
        ensures
            final(self).wf(),
            final(self).spec_grains() == old(self).spec_grains(),
            forall|g: int|
                0 <= g < old(self).spec_grains() ==> #[trigger] final(self).blocks_at(g) == old(
                    self,
                ).blocks_at(g),
            match r {
                None => final(self).lists() == old(self).lists() && forall|g: int, i: int|
                    target_grain < g < old(self).spec_grains() ==> !old(self).free_at(g, i),
                Some(block) => {
                    &&& block < old(self).blocks_at(target_grain as int)
                    &&& forall|p: int|
                        block_covers(target_grain as int, block as int, p) ==> old(
                            self,
                        ).page_free(p)
                    &&& forall|p: int|
                        #[trigger] final(self).page_free(p) == (old(self).page_free(p)
                            && !block_covers(target_grain as int, block as int, p))
                    &&& exists|gp: int|
                        spec_split_effect(
                            *old(self),
                            *final(self),
                            target_grain as int,
                            block as int,
                            gp,
                        )
                },
            },
    {
        let ghost pre = *self;
        let num_grains = self.grained_lists.len();
        let mut search = target_grain + 1;
        loop
            invariant
                self.wf(),
                self.lists() == pre.lists(),
                pre.wf(),
                pre == *old(self),
                target_grain < search <= num_grains,
                num_grains == pre.spec_grains(),
                forall|g: int, i: int| target_grain < g < search ==> !pre.free_at(g, i),
            decreases num_grains - search,
        {
            if search >= num_grains {
                return None;
            }
            let found = self.grained_lists[search].allocate_page();
            match found {
                None => {
                    proof {
                        assert(self.grained_lists@ =~= pre.lists());
                        Self::lemma_wf_from_views(pre, *self);
                        assert forall|i: int| !pre.free_at(search as int, i) by {}
                    }
                },
                Some(top_block) => {
                    proof {
                        assert(self.grained_lists@ =~= pre.lists().update(
                            search as int,
                            self.lists()[search as int],
                        ));
                        assert forall|g: int, i: int|
                            #![trigger self.free_at(g, i)]
                            #![trigger pre.free_at(g, i)]
                            self.free_at(g, i) == (pre.free_at(g, i) && !(g == search && i
                                == top_block)) by {}
                        Self::lemma_after_clear(pre, *self, search as int, top_block as int);
                        assert forall|g: int|
                            0 <= g < self.lists().len() implies (#[trigger] self.lists()[g]).wf()
                            && self.lists()[g].spec_grain() == g by {}
                        assert forall|g: int|
                            0 <= g < self.lists().len() implies #[trigger] self.blocks_at(g)
                            == self.blocks_at(0) / pow2(g as nat) as int by {
                            assert(self.blocks_at(g) == pre.blocks_at(g));
                            assert(self.blocks_at(0) == pre.blocks_at(0));
                        }
                        assert forall|p: int|
                            block_covers(search as int, top_block as int, p) implies pre.page_free(
                            p,
                        ) by {
                            assert(pre.free_at(search as int, top_block as int));
                        }
                    }
                    // Walk back down, freeing the upper half at each
                    // grain and keeping the lower half.
                    let mut grain = search;
                    let mut block = top_block;
                    let ghost gp = search as int;
                    let ghost top = top_block as int;
                    proof {
                        vstd::arithmetic::power2::lemma2_to64();
                        assert((gp - grain) as nat == 0);
                        assert(pow2(0) == 1);
                        assert(block as int == top * 1) by (nonlinear_arith)
                            requires
                                block as int == top,
                        ;
                        assert(block as int == top * pow2((gp - grain) as nat) as int);
                    }
                    while grain > target_grain
                        invariant
                            self.wf(),
                            pre.wf(),
                            pre == *old(self),
                            target_grain <= grain <= search < num_grains,
                            gp == search,
                            num_grains == pre.spec_grains(),
                            self.spec_grains() == pre.spec_grains(),
                            forall|g: int|
                                0 <= g < pre.spec_grains() ==> #[trigger] self.blocks_at(g)
                                    == pre.blocks_at(g),
                            block < pre.blocks_at(grain as int),
                            block as int == top * pow2((gp - grain) as nat) as int,
                            pre.free_at(gp, top),
                            forall|g: int, i: int| target_grain < g < gp ==> !pre.free_at(g, i),
                            forall|g: int, i: int|
                                #![trigger self.free_at(g, i)]
                                #![trigger pre.free_at(g, i)]
                                0 <= g < pre.spec_grains() ==> self.free_at(g, i) == (if g == gp {
                                    pre.free_at(g, i) && i != top
                                } else if grain <= g < gp {
                                    pre.free_at(g, i) || i == top * pow2((gp - g) as nat) as int
                                        + 1
                                } else {
                                    pre.free_at(g, i)
                                }),
                            forall|p: int|
                                block_covers(grain as int, block as int, p) ==> pre.page_free(p),
                            forall|p: int|
                                #[trigger] self.page_free(p) == (pre.page_free(p)
                                    && !block_covers(grain as int, block as int, p)),
                        decreases grain,
                    {
                        let ghost step_pre = *self;
                        let ghost old_grain = grain as int;
                        let ghost old_block = block as int;
                        proof {
                            self.lemma_blocks_halve(old_grain);
                            assert(2 * old_block + 1 < self.blocks_at(old_grain - 1))
                                by (nonlinear_arith)
                                requires
                                    old_block < self.blocks_at(old_grain),
                                    self.blocks_at(old_grain) == self.blocks_at(old_grain - 1)
                                        / 2,
                            ;
                            self.lists()[old_grain - 1].lemma_blocks_bound();
                            assert(self.blocks_at(old_grain - 1) <= self.blocks_at(0)) by {
                                lemma_pow2_pos((old_grain - 1) as nat);
                                assert(self.blocks_at(old_grain - 1) == self.blocks_at(0) / pow2(
                                    (old_grain - 1) as nat,
                                ) as int);
                                assert(self.blocks_at(0) / pow2((old_grain - 1) as nat) as int
                                    <= self.blocks_at(0)) by (nonlinear_arith)
                                    requires
                                        pow2((old_grain - 1) as nat) >= 1,
                                        self.blocks_at(0) >= 0,
                                ;
                            }
                            Self::lemma_parent_covers(
                                old_grain - 1,
                                old_grain,
                                2 * old_block,
                                old_block,
                            );
                        }
                        grain = grain - 1;
                        block = 2 * block;
                        let upper = block + 1;
                        proof {
                            assert(grain as int == old_grain - 1 && block as int == 2 * old_block
                                && upper as int == 2 * old_block + 1);
                            // Neither half is recorded free: their pages
                            // are covered by the block being split.
                            lemma_pow2_pos(grain as nat);
                            assert forall|p: int|
                                block_covers(grain as int, upper as int, p) implies !self.page_free(
                                p,
                            ) by {
                                assert(block_covers(old_grain, old_block, p));
                            }
                            assert(!self.free_at(grain as int, upper as int)) by {
                                if self.free_at(grain as int, upper as int) {
                                    assert(block_covers(
                                        grain as int,
                                        upper as int,
                                        upper * pow2(grain as nat),
                                    )) by (nonlinear_arith)
                                        requires
                                            pow2(grain as nat) >= 1,
                                            upper >= 0,
                                    ;
                                    assert(self.page_free(upper * pow2(grain as nat)));
                                }
                            }
                        }
                        let outcome = self.grained_lists[grain].deallocate_page_exact(upper);
                        proof {
                            // The buddy of the upper half is the lower
                            // half, which is not free either, so no
                            // coalescing happens here.
                            assert(outcome is None) by {
                                if step_pre.free_at(grain as int, spec_buddy(upper as int)) {
                                    assert(spec_buddy(upper as int) == block as int);
                                    assert(block_covers(
                                        grain as int,
                                        block as int,
                                        block * pow2(grain as nat),
                                    )) by (nonlinear_arith)
                                        requires
                                            pow2(grain as nat) >= 1,
                                            block >= 0,
                                    ;
                                    assert(block_covers(old_grain, old_block, block * pow2(
                                        grain as nat,
                                    )));
                                    assert(step_pre.page_free(block * pow2(grain as nat)));
                                }
                            }
                            assert(self.grained_lists@ =~= step_pre.lists().update(
                                grain as int,
                                self.lists()[grain as int],
                            ));
                            assert forall|g: int, i: int|
                                #![trigger self.free_at(g, i)]
                                #![trigger step_pre.free_at(g, i)]
                                self.free_at(g, i) == (step_pre.free_at(g, i) || (g == grain && i
                                    == upper)) by {}
                            assert forall|p: int|
                                block_covers(grain as int, upper as int, p)
                                    implies !step_pre.page_free(p) by {
                                assert(block_covers(old_grain, old_block, p));
                            }
                            Self::lemma_after_set(step_pre, *self, grain as int, upper as int);
                            assert forall|g: int|
                                0 <= g < self.lists().len() implies (
                            #[trigger] self.lists()[g]).wf() && self.lists()[g].spec_grain()
                                == g by {}
                            assert forall|g: int|
                                0 <= g < self.lists().len() implies #[trigger] self.blocks_at(g)
                                == self.blocks_at(0) / pow2(g as nat) as int by {
                                assert(self.blocks_at(g) == step_pre.blocks_at(g));
                                assert(self.blocks_at(0) == step_pre.blocks_at(0));
                            }
                            assert forall|p: int|
                                #[trigger] self.page_free(p) == (pre.page_free(p)
                                    && !block_covers(grain as int, block as int, p)) by {
                                assert(block_covers(old_grain, old_block, p) == (block_covers(
                                    grain as int,
                                    block as int,
                                    p,
                                ) || block_covers(grain as int, upper as int, p)));
                                if block_covers(grain as int, upper as int, p) {
                                    assert(pre.page_free(p));
                                }
                            }
                            assert forall|p: int|
                                block_covers(grain as int, block as int, p) implies pre.page_free(
                                p,
                            ) by {
                                assert(block_covers(old_grain, old_block, p));
                            }
                            // The descending block and its freed upper
                            // half, one grain further down.
                            lemma_pow2_adds((gp - old_grain) as nat, 1);
                            vstd::arithmetic::power2::lemma2_to64();
                            assert((gp - grain) as nat == (gp - old_grain) as nat + 1);
                            assert(block as int == top * pow2((gp - grain) as nat) as int)
                                by (nonlinear_arith)
                                requires
                                    block as int == 2 * old_block,
                                    old_block == top * pow2((gp - old_grain) as nat) as int,
                                    pow2((gp - grain) as nat) == pow2((gp - old_grain) as nat)
                                        * 2,
                            ;
                            assert(upper as int == top * pow2((gp - grain) as nat) as int + 1);
                            assert forall|g: int, i: int|
                                #![trigger self.free_at(g, i)]
                                #![trigger pre.free_at(g, i)]
                                0 <= g < pre.spec_grains() implies self.free_at(g, i) == (if g
                                == gp {
                                pre.free_at(g, i) && i != top
                            } else if grain <= g < gp {
                                pre.free_at(g, i) || i == top * pow2((gp - g) as nat) as int + 1
                            } else {
                                pre.free_at(g, i)
                            }) by {
                                assert(self.free_at(g, i) == (step_pre.free_at(g, i) || (g
                                    == grain && i == upper)));
                            }
                        }
                    }
                    proof {
                        // The whole split, grain by grain, with the
                        // source grain as the witness.
                        vstd::arithmetic::power2::lemma2_to64();
                        let t = target_grain as int;
                        lemma_pow2_pos((gp - t) as nat);
                        assert(block as int % pow2((gp - t) as nat) as int == 0 && block as int
                            / pow2((gp - t) as nat) as int == top) by (nonlinear_arith)
                            requires
                                block as int == top * pow2((gp - t) as nat) as int,
                                pow2((gp - t) as nat) >= 1,
                                top >= 0,
                        ;
                        assert forall|g: int, i: int|
                            #![trigger self.free_at(g, i)]
                            #![trigger pre.free_at(g, i)]
                            0 <= g < pre.spec_grains() implies self.free_at(g, i) == (if g == gp {
                            pre.free_at(g, i) && i != block as int / pow2((gp - t) as nat) as int
                        } else if t <= g < gp {
                            pre.free_at(g, i) || i == block as int / pow2((g - t) as nat) as int
                                + 1
                        } else {
                            pre.free_at(g, i)
                        }) by {
                            if t <= g < gp {
                                lemma_pow2_pos((g - t) as nat);
                                lemma_pow2_pos((gp - g) as nat);
                                lemma_pow2_adds((gp - g) as nat, (g - t) as nat);
                                assert((gp - g) as nat + (g - t) as nat == (gp - t) as nat);
                                assert(block as int / pow2((g - t) as nat) as int == top * pow2(
                                    (gp - g) as nat,
                                ) as int) by (nonlinear_arith)
                                    requires
                                        block as int == top * pow2((gp - t) as nat) as int,
                                        pow2((gp - t) as nat) == pow2((gp - g) as nat) * pow2(
                                            (g - t) as nat,
                                        ),
                                        pow2((g - t) as nat) >= 1,
                                        pow2((gp - g) as nat) >= 1,
                                        top >= 0,
                                ;
                            }
                        }
                        assert(spec_split_effect(pre, *self, t, block as int, gp));
                    }
                    return Some(block);
                },
            }
            search = search + 1;
        }
    }

    /// Attempts to allocate `num_pages` pages, rounding the request up to
    /// the nearest power of two: the returned block spans
    /// `2^ceil_log2(num_pages)` pages and its first page index is
    /// returned. The block's pages were free and are no longer; nothing
    /// else changes. Allocation fails exactly when no free list at the
    /// required grain or above has a free block.
    pub fn allocate_pages(&mut self, num_pages: usize) -> (r: Result<usize, PageAllocationError>)
        requires
            old(self).wf(),
            1 <= num_pages <= usize::MAX / 2,
        ensures
            final(self).wf(),
            final(self).spec_grains() == old(self).spec_grains(),
            forall|g: int|
                0 <= g < old(self).spec_grains() ==> #[trigger] final(self).blocks_at(g) == old(
                    self,
                ).blocks_at(g),
            match r {
                Ok(first) => {
                    let g = ceil_log2(num_pages as int);
                    &&& g < old(self).spec_grains()
                    &&& exists|gi: int, ii: int|
                        #![trigger old(self).free_at(gi, ii)]
                        g <= gi < old(self).spec_grains() && old(self).free_at(gi, ii)
                    &&& first as int % pow2(g as nat) as int == 0
                    &&& (first as int / pow2(g as nat) as int) < old(self).blocks_at(g as int)
                    &&& forall|p: int|
                        block_covers(g as int, first as int / pow2(g as nat) as int, p) ==> old(
                            self,
                        ).page_free(p)
                    &&& forall|p: int|
                        #[trigger] final(self).page_free(p) == (old(self).page_free(p)
                            && !block_covers(g as int, first as int / pow2(g as nat) as int, p))
                },
                Err(e) => {
                    &&& e == PageAllocationError::OutOfMemory
                    &&& final(self).lists() == old(self).lists()
                    &&& forall|g: int, i: int|
                        ceil_log2(num_pages as int) <= g < old(self).spec_grains() ==> !old(
                            self,
                        ).free_at(g, i)
                },
            },
    {
        let ghost pre = *self;
        // The required grain: the smallest power of two covering the
        // request.
        let grain = grain_for_pages(num_pages);
        let num_grains = self.grained_lists.len();
        if grain >= num_grains {
            return Err(PageAllocationError::OutOfMemory);
        }
        let head = self.grained_lists[grain].allocate_page();
        let block = match head {
            Some(block) => {
                proof {
                    assert(self.grained_lists@ =~= pre.lists().update(
                        grain as int,
                        self.lists()[grain as int],
                    ));
                    assert forall|g: int, i: int|
                        #![trigger self.free_at(g, i)]
                        #![trigger pre.free_at(g, i)]
                        self.free_at(g, i) == (pre.free_at(g, i) && !(g == grain && i
                            == block)) by {}
                    Self::lemma_after_clear(pre, *self, grain as int, block as int);
                    assert forall|g: int|
                        0 <= g < self.lists().len() implies (#[trigger] self.lists()[g]).wf()
                        && self.lists()[g].spec_grain() == g by {}
                    assert forall|g: int|
                        0 <= g < self.lists().len() implies #[trigger] self.blocks_at(g)
                        == self.blocks_at(0) / pow2(g as nat) as int by {
                        assert(self.blocks_at(g) == pre.blocks_at(g));
                        assert(self.blocks_at(0) == pre.blocks_at(0));
                    }
                    assert forall|p: int|
                        block_covers(grain as int, block as int, p) implies pre.page_free(p) by {
                        assert(pre.free_at(grain as int, block as int));
                    }
                    // The block itself witnesses a free block at the
                    // required grain.
                    assert(pre.free_at(grain as int, block as int));
                }
                block
            },
            None => {
                proof {
                    assert(self.grained_lists@ =~= pre.lists());
                    Self::lemma_wf_from_views(pre, *self);
                }
                let ghost mid = *self;
                match self.split_block(grain) {
                    Some(block) => {
                        proof {
                            // The split's source block witnesses a free
                            // block above the required grain; the failed
                            // head probe left the lists as they were.
                            let gp = choose|gp: int|
                                spec_split_effect(mid, *self, grain as int, block as int, gp);
                            assert(mid.free_at(
                                gp,
                                block as int / pow2((gp - grain) as nat) as int,
                            ));
                            assert(pre.free_at(
                                gp,
                                block as int / pow2((gp - grain) as nat) as int,
                            ));
                        }
                        block
                    },
                    None => {
                        proof {
                            Self::lemma_wf_from_views(pre, *self);
                            assert forall|g: int, i: int|
                                grain <= g < pre.spec_grains() implies !pre.free_at(g, i) by {}
                        }
                        return Err(PageAllocationError::OutOfMemory);
                    },
                }
            },
        };
        proof {
            self.lists()[grain as int].lemma_blocks_bound();
            lemma_pow2_pos(grain as nat);
            assert(block < pre.blocks_at(grain as int));
            assert(pre.blocks_at(grain as int) == pre.blocks_at(0) / pow2(grain as nat) as int);
            pre.lists()[0].lemma_blocks_bound();
            assert(block as int * pow2(grain as nat) as int + pow2(grain as nat) as int
                <= pre.blocks_at(0)) by (nonlinear_arith)
                requires
                    0 <= block as int,
                    (block as int) < pre.blocks_at(0) / pow2(grain as nat) as int,
                    pow2(grain as nat) >= 1,
                    pre.blocks_at(0) >= 0,
            ;
        }
        let first = mul_pow2(block, grain);
        proof {
            lemma_pow2_pos(grain as nat);
            assert(first as int % pow2(grain as nat) as int == 0 && first as int / pow2(
                grain as nat,
            ) as int == block as int) by (nonlinear_arith)
                requires
                    first as int == block as int * pow2(grain as nat) as int,
                    pow2(grain as nat) >= 1,
            ;
        }
        Ok(first)
    }

    /// The number of grains managed, for callers outside the proofs.
    pub fn num_grains(&self) -> (r: usize)
        ensures
            r == self.spec_grains(),
    {
        self.grained_lists.len()
    }

    /// Whether the block at `grain` and `index` is recorded free.
    pub fn block_is_free(&self, grain: usize, index: usize) -> (r: bool)
        requires
            self.wf(),
        ensures
            r == self.free_at(grain as int, index as int),
    {
        if grain >= self.grained_lists.len() {
            return false;
        }
        match self.grained_lists[grain].is_free(index) {
            Some(b) => b,
            None => false,
        }
    }

    /// The number of pages a layout of `size` bytes aligned to `align`
    /// consumes when backed by whole pages.
    pub fn get_num_pages(size: usize, align: usize) -> (r: usize)
        requires
            size <= usize::MAX - crate::heap::PAGE_SIZE,
            align <= usize::MAX - crate::heap::PAGE_SIZE,
        ensures
            r == (if size >= align {
                (size + crate::heap::PAGE_SIZE - 1) as int
            } else {
                (align + crate::heap::PAGE_SIZE - 1) as int
            }) / crate::heap::PAGE_SIZE as int,
    {
        let larger = if size >= align {
            size
        } else {
            align
        };
        (larger + (crate::heap::PAGE_SIZE - 1)) / crate::heap::PAGE_SIZE
    }

    /// Covering a parent block is covering one of its two halves:
    /// `gp` is the grain above `g` and `parent` the index of the block
    /// holding `lower` and `lower + 1` there.
    proof fn lemma_parent_covers(g: int, gp: int, lower: int, parent: int)
        requires
            g >= 0,
            gp == g + 1,
            lower >= 0,
            lower % 2 == 0,
            parent == lower / 2,
        ensures
            forall|p: int|
                #[trigger] block_covers(gp, parent, p) == (block_covers(g, lower, p)
                    || block_covers(g, lower + 1, p)),
    {
        lemma_pow2_adds(g as nat, 1);
        vstd::arithmetic::power2::lemma2_to64();
        lemma_pow2_pos(g as nat);
        assert forall|p: int|
            #[trigger] block_covers(gp, parent, p) == (block_covers(g, lower, p) || block_covers(
                g,
                lower + 1,
                p,
            )) by {
            assert((lower / 2) * (pow2(g as nat) * 2) == lower * pow2(g as nat) && (lower / 2
                + 1) * (pow2(g as nat) * 2) == (lower + 2) * pow2(g as nat) && (lower + 1) * pow2(
                g as nat,
            ) + pow2(g as nat) == (lower + 2) * pow2(g as nat) && lower * pow2(g as nat) + pow2(
                g as nat,
            ) == (lower + 1) * pow2(g as nat)) by (nonlinear_arith)
                requires
                    lower >= 0,
                    lower % 2 == 0,
                    pow2(g as nat) >= 1,
            ;
        }
    }
}

/// Non-overlap of live allocations: a block handed out by one successful
/// allocation shares no page with a block handed out by a later one. The
/// first call's block stops being free, and the later call's block is
/// drawn from what is still free, exactly as
/// [`PageAllocator::allocate_pages`] ensures; freed pages only ever
/// re-enter through [`PageAllocator::deallocate_page`], which requires
/// them to be dead.
pub proof fn lemma_allocations_disjoint(
    s0: PageAllocator,
    s1: PageAllocator,
    ga: int,
    ia: int,
    gb: int,
    ib: int,
)
    requires
        // The earlier allocation returned the block (ga, ia):
        forall|p: int| block_covers(ga, ia, p) ==> s0.page_free(p),
        forall|p: int| #[trigger] s1.page_free(p) == (s0.page_free(p) && !block_covers(ga, ia, p)),
        // The later allocation, in the resulting state, returned (gb, ib):
        forall|p: int| block_covers(gb, ib, p) ==> s1.page_free(p),
    ensures
        forall|p: int| !(block_covers(ga, ia, p) && block_covers(gb, ib, p)),
{
    assert forall|p: int| !(block_covers(ga, ia, p) && block_covers(gb, ib, p)) by {
        if block_covers(ga, ia, p) && block_covers(gb, ib, p) {
            assert(s1.page_free(p));
        }
    }
}

} // verus!
