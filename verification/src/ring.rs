//! Circular doubly-linked rings of indices.
//!
//! Free blocks of the page allocator and free slots of the slab allocator
//! both form intrusive rings: element `i`'s neighbours are stored in link
//! records `prevs[i]` and `nexts[i]`. A ghost sequence `ring` records the
//! cyclic order starting from the head; these specifications say when the
//! link records realise that order, and the lemmas cover the two
//! operations the allocators perform: unlinking an element and splicing
//! one in after the head.

use vstd::prelude::*;

verus! {

/// The position after `k` in a cycle of length `len`.
pub open spec fn next_pos(len: int, k: int) -> int {
    if k + 1 >= len {
        0
    } else {
        k + 1
    }
}

/// The position before `k` in a cycle of length `len`.
pub open spec fn prev_pos(len: int, k: int) -> int {
    if k == 0 {
        len - 1
    } else {
        k - 1
    }
}

/// The link records of the element at position `k` name its cyclic
/// neighbours.
pub open spec fn ring_link_at(ring: Seq<int>, prevs: Seq<int>, nexts: Seq<int>, k: int) -> bool {
    &&& nexts[ring[k]] == ring[next_pos(ring.len() as int, k)]
    &&& prevs[ring[k]] == ring[prev_pos(ring.len() as int, k)]
}

/// Every element's link records name its cyclic neighbours.
pub open spec fn ring_linked(ring: Seq<int>, prevs: Seq<int>, nexts: Seq<int>) -> bool {
    forall|k: int| 0 <= k < ring.len() ==> #[trigger] ring_link_at(ring, prevs, nexts, k)
}

/// Every ring element is an index into the `n` link records.
pub open spec fn ring_bounded(ring: Seq<int>, n: int) -> bool {
    forall|k: int| 0 <= k < ring.len() ==> 0 <= #[trigger] ring[k] < n
}

/// A well-formed ring over `n` link records: each element appears once,
/// indices are in bounds, and the records realise the cyclic order.
pub open spec fn ring_wf(ring: Seq<int>, prevs: Seq<int>, nexts: Seq<int>, n: int) -> bool {
    &&& prevs.len() == n
    &&& nexts.len() == n
    &&& ring.no_duplicates()
    &&& ring_bounded(ring, n)
    &&& ring_linked(ring, prevs, nexts)
}

/// The ring after unlinking the element at position `k`, reordered to
/// start at that element's successor, as the allocators leave the head.
pub open spec fn ring_remove(ring: Seq<int>, k: int) -> Seq<int> {
    ring.subrange(k + 1, ring.len() as int) + ring.take(k)
}

/// Unlinking the element at position `k` — stitching its neighbours
/// together — yields a well-formed ring over the remaining elements,
/// headed by the removed element's successor.
pub proof fn lemma_ring_remove(ring: Seq<int>, prevs: Seq<int>, nexts: Seq<int>, n: int, k: int)
    requires
        ring_wf(ring, prevs, nexts, n),
        ring.len() >= 2,
        0 <= k < ring.len(),
    ensures
        ring_wf(
            ring_remove(ring, k),
            prevs.update(nexts[ring[k]], prevs[ring[k]]),
            nexts.update(prevs[ring[k]], nexts[ring[k]]),
            n,
        ),
        ring_remove(ring, k).len() == ring.len() - 1,
        ring_remove(ring, k)[0] == nexts[ring[k]],
        forall|x: int|
            ring_remove(ring, k).contains(x) <==> (ring.contains(x) && x != ring[k]),
{
    let len = ring.len() as int;
    let m = len - k - 1;
    let ring2 = ring_remove(ring, k);
    let i = ring[k];
    let kp = prev_pos(len, k);
    let kn = next_pos(len, k);
    assert(ring_link_at(ring, prevs, nexts, k));
    let p = ring[kp];
    let nx = ring[kn];
    let prevs2 = prevs.update(nx, p);
    let nexts2 = nexts.update(p, nx);

    // Position j of the shortened ring holds the element at position
    // phi(j) of the full ring, where phi walks the cycle from k + 1.
    let phi = |j: int| if j < m { k + 1 + j } else { j - m };
    assert forall|j: int| 0 <= j < len - 1 implies ring2[j] == ring[phi(j)] by {}

    // phi skips position k, so the removed element is gone and nothing
    // else is: distinctness carries over.
    assert forall|j1: int, j2: int| 0 <= j1 < j2 < len - 1 implies ring2[j1] != ring2[j2] by {
        assert(phi(j1) != phi(j2));
    }
    assert(ring2.no_duplicates());

    // The predecessor sits last in the shortened ring and the successor
    // first; every other element keeps both its neighbours.
    assert(ring2[len - 2] == p) by {
        if k >= 1 {
            assert(phi(len - 2) == k - 1);
        } else {
            assert(phi(len - 2) == len - 1);
        }
    }
    assert(ring2[0] == nx) by {
        if k < len - 1 {
            assert(phi(0) == k + 1);
        } else {
            assert(phi(0) == 0);
        }
    }
    assert forall|j: int| 0 <= j < len - 1 implies ring_link_at(ring2, prevs2, nexts2, j) by {
        let e = ring2[j];
        let pj = phi(j);
        assert(e == ring[pj]);
        assert(ring_link_at(ring, prevs, nexts, pj));
        // Positions of the cycle are distinct elements, so the two
        // stitched records touch exactly the predecessor and successor.
        assert(e != i);
        let jn = next_pos(len - 1, j);
        let jp = prev_pos(len - 1, j);
        if pj == kp {
            // The predecessor: j is the last position, its new successor
            // is the head nx, and its predecessor is untouched.
            assert(j == len - 2);
            assert(nexts2[e] == nx);
            assert(ring2[jn] == nx);
            if len == 2 {
                assert(prevs2[e] == prevs.update(nx, p)[e]);
                assert(e == nx && e == p);
                assert(prevs2[e] == p);
            } else {
                assert(e != nx);
                assert(prevs2[e] == prevs[e]);
                assert(prev_pos(len, pj) != k);
                assert(ring2[jp] == ring[phi(jp)] && phi(jp) == prev_pos(len, pj));
            }
        } else {
            assert(e != p);
            assert(nexts2[e] == nexts[e]);
            assert(next_pos(len, pj) != k);
            assert(ring2[jn] == ring[phi(jn)] && phi(jn) == next_pos(len, pj));
            if pj == kn {
                assert(j == 0);
                assert(prevs2[e] == p);
                assert(ring2[jp] == p);
            } else {
                assert(e != nx);
                assert(prevs2[e] == prevs[e]);
                assert(prev_pos(len, pj) != k);
                assert(ring2[jp] == ring[phi(jp)] && phi(jp) == prev_pos(len, pj));
            }
        }
    }

    assert forall|x: int| ring2.contains(x) implies (ring.contains(x) && x != i) by {
        let j = choose|j: int| 0 <= j < ring2.len() && ring2[j] == x;
        assert(ring[phi(j)] == x);
    }
    assert forall|x: int| ring.contains(x) && x != i implies ring2.contains(x) by {
        let j = choose|j: int| 0 <= j < ring.len() && ring[j] == x;
        assert(j != k);
        if j > k {
            assert(ring2[j - k - 1] == x);
        } else {
            assert(ring2[m + j] == x);
        }
    }
}

/// Splicing a fresh element in directly after the head yields a
/// well-formed ring with the same head and the new element second.
pub proof fn lemma_ring_insert(ring: Seq<int>, prevs: Seq<int>, nexts: Seq<int>, n: int, x: int)
    requires
        ring_wf(ring, prevs, nexts, n),
        ring.len() >= 1,
        0 <= x < n,
        !ring.contains(x),
    ensures
        ring_wf(
            ring.insert(1, x),
            prevs.update(x, ring[0]).update(nexts[ring[0]], x),
            nexts.update(ring[0], x).update(x, nexts[ring[0]]),
            n,
        ),
        ring.insert(1, x).len() == ring.len() + 1,
        ring.insert(1, x)[0] == ring[0],
        forall|y: int| ring.insert(1, x).contains(y) <==> (ring.contains(y) || y == x),
{
    let len = ring.len() as int;
    let h = ring[0];
    assert(ring_link_at(ring, prevs, nexts, 0));
    let n0 = nexts[h];
    let pos_n0 = next_pos(len, 0);
    assert(n0 == ring[pos_n0]);
    let ring2 = ring.insert(1, x);
    let prevs2 = prevs.update(x, h).update(n0, x);
    let nexts2 = nexts.update(h, x).update(x, n0);

    assert forall|j: int| 0 <= j < len + 1 implies ring2[j] == (if j == 1 {
        x
    } else if j < 1 {
        ring[j]
    } else {
        ring[j - 1]
    }) by {}

    assert forall|j1: int, j2: int| 0 <= j1 < j2 < len + 1 implies ring2[j1] != ring2[j2] by {}
    assert(ring2.no_duplicates());

    assert forall|j: int| 0 <= j < len + 1 implies ring_link_at(ring2, prevs2, nexts2, j) by {
        let e = ring2[j];
        let jn = next_pos(len + 1, j);
        let jp = prev_pos(len + 1, j);
        if j == 0 {
            // The head: its successor becomes x, its predecessor is the
            // old last element (or x itself in a singleton).
            assert(e == h);
            if len == 1 {
                assert(n0 == h);
                assert(prevs2[e] == x && nexts2[e] == x);
                assert(ring2[jn] == x && ring2[jp] == x);
            } else {
                assert(e != x && e != n0);
                assert(nexts2[e] == x && ring2[jn] == x);
                assert(prevs2[e] == prevs[e]);
                assert(ring_link_at(ring, prevs, nexts, 0));
                assert(ring2[jp] == ring[len - 1]);
            }
        } else if j == 1 {
            // The new element: between the head and the old successor.
            assert(e == x);
            assert(prevs2[e] == h && ring2[jp] == h);
            assert(nexts2[e] == n0);
            if len == 1 {
                assert(ring2[jn] == h && n0 == h);
            } else {
                assert(ring2[jn] == ring[1] && n0 == ring[1]);
            }
        } else if j == 2 && len >= 2 {
            // The old successor: its predecessor becomes x.
            assert(e == ring[1] && e == n0);
            assert(prevs2[e] == x && ring2[jp] == x);
            assert(e != h && e != x);
            assert(nexts2[e] == nexts[e]);
            assert(ring_link_at(ring, prevs, nexts, 1));
            assert(ring2[jn] == ring[next_pos(len, 1)]);
        } else {
            let pj = j - 1;
            assert(e == ring[pj]);
            assert(ring_link_at(ring, prevs, nexts, pj));
            assert(e != h && e != x && e != n0);
            assert(prevs2[e] == prevs[e] && nexts2[e] == nexts[e]);
            assert(ring2[jn] == ring[next_pos(len, pj)]);
            assert(ring2[jp] == ring[prev_pos(len, pj)]);
        }
    }

    assert forall|y: int| ring2.contains(y) implies (ring.contains(y) || y == x) by {
        let j = choose|j: int| 0 <= j < ring2.len() && ring2[j] == y;
        if j != 1 {
            let pj = if j < 1 {
                j
            } else {
                j - 1
            };
            assert(ring[pj] == y);
        }
    }
    assert forall|y: int| ring.contains(y) || y == x implies ring2.contains(y) by {
        if y == x {
            assert(ring2[1] == y);
        } else {
            let j = choose|j: int| 0 <= j < ring.len() && ring[j] == y;
            if j == 0 {
                assert(ring2[0] == y);
            } else {
                assert(ring2[j + 1] == y);
            }
        }
    }
}

} // verus!
