//! Tests for the memory managers: bit vector, bump allocator, buddy page
//! allocator and slab allocator.

use eepyos::data::AtomicBitVec;
use eepyos::heap::BumpAllocator;
use eepyos::page::{PageAllocationError, PageAllocator, PageDeallocationError};
use eepyos::slab::SlabAllocator;

#[test]
fn bitvec_set_and_get() {
    let mut bits = AtomicBitVec::new_in(130);
    assert_eq!(bits._len(), 130);
    assert_eq!(bits.get(0), Some(false));
    assert_eq!(bits.set(0, true), Some(true));
    assert_eq!(bits.get(0), Some(true));
    assert_eq!(bits.set(129, true), Some(true));
    assert_eq!(bits.get(129), Some(true));
    assert_eq!(bits.get(130), None);
    assert_eq!(bits.set(130, true), None);
    assert_eq!(bits.set(0, false), Some(false));
    assert_eq!(bits.get(0), Some(false));
}

#[test]
fn bitvec_find_false_scans_in_order() {
    let mut bits = AtomicBitVec::new_in(70);
    assert_eq!(bits._find_false(), Some(0));
    for i in 0..65 {
        bits.set(i, true);
    }
    assert_eq!(bits._find_false(), Some(65));
    for i in 65..70 {
        bits.set(i, true);
    }
    assert_eq!(bits._find_false(), None);
}

#[test]
fn bitvec_bulk_write_spans_words() {
    let mut bits = AtomicBitVec::new_in(200);
    // 60..=140 crosses two word boundaries.
    assert_eq!(bits._bulk_write(60, 140, true), Some(81));
    assert_eq!(bits.get(59), Some(false));
    assert_eq!(bits.get(60), Some(true));
    assert_eq!(bits.get(100), Some(true));
    assert_eq!(bits.get(140), Some(true));
    assert_eq!(bits.get(141), Some(false));
    // Clearing the middle leaves the edges.
    assert_eq!(bits._bulk_write(70, 130, false), Some(61));
    assert_eq!(bits.get(69), Some(true));
    assert_eq!(bits.get(70), Some(false));
    assert_eq!(bits.get(130), Some(false));
    assert_eq!(bits.get(131), Some(true));
    // A reversed or out-of-range span writes nothing.
    assert_eq!(bits._bulk_write(10, 5, true), None);
    assert_eq!(bits._bulk_write(190, 200, true), None);
}

#[test]
fn bump_allocates_monotonically() {
    let mut bump = BumpAllocator::new(10000);
    let a1 = bump.allocate(100, 1).unwrap();
    assert_eq!(a1, 0);
    // The second allocation starts past the first and aligns up.
    let a2 = bump.allocate(16, 64).unwrap();
    assert_eq!(a2, 128);
    assert!(a2 + 16 > a1 + 100);
    let a3 = bump.allocate(1, 1).unwrap();
    assert_eq!(a3, 144);
    assert_eq!(bump.get_heap_top(), 145);
}

#[test]
fn bump_runs_out_of_memory() {
    let mut bump = BumpAllocator::new(100);
    assert!(bump.allocate(60, 1).is_ok());
    assert!(bump.allocate(60, 1).is_err());
}

#[test]
fn bump_reports_absolute_address() {
    let mut bump = BumpAllocator::new(4096);
    bump.allocate(16, 1).unwrap();
    assert_eq!(bump.get_bump_addr(), 0x4000_0000 + 16);
}

/// The buddy-allocator scenario: sixteen pages of RAM, one consumed by
/// the bump allocator. Freeing the rest (minus the guard page) builds
/// coalesced blocks; one single-page and one four-page allocation carve
/// them up, and freeing both restores the coalesced state.
#[test]
fn page_allocator_buddy_basic() {
    let mut pages = PageAllocator::new();
    pages.init(16, 1);
    // Pages 2..16 are free: pages 2-3 at grain 1, 4-7 at grain 2,
    // 8-15 at grain 3. Page 0 is bump memory and page 1 the guard.
    assert!(pages.block_is_free(1, 1));
    assert!(pages.block_is_free(2, 1));
    assert!(pages.block_is_free(3, 1));
    assert!(!pages.block_is_free(0, 0));
    assert!(!pages.block_is_free(0, 1));
    assert!(!pages.block_is_free(0, 2));

    // One page: split the grain-1 block, freeing page 3 back.
    let a = pages.allocate_pages(1).unwrap();
    assert_eq!(a, 2);
    assert!(pages.block_is_free(0, 3));
    assert!(!pages.block_is_free(1, 1));

    // Four pages: the grain-2 block.
    let b = pages.allocate_pages(4).unwrap();
    assert_eq!(b, 4);
    assert!(!pages.block_is_free(2, 1));

    // Freeing page 2 coalesces with its buddy page 3 back to grain 1.
    pages.deallocate_page(a, 0).unwrap();
    assert!(pages.block_is_free(1, 1));
    assert!(!pages.block_is_free(0, 2));
    assert!(!pages.block_is_free(0, 3));

    // Freeing the four-page block restores grain 2.
    pages.deallocate_page(b, 2).unwrap();
    assert!(pages.block_is_free(2, 1));
    assert!(pages.block_is_free(3, 1));

    // Fourteen pages are free in all: 2 + 4 + 8.
    let mut free_pages: usize = 0;
    for grain in 0..pages.num_grains() {
        let span = 1usize << grain;
        for index in 0..(16 >> grain) {
            if pages.block_is_free(grain, index) {
                free_pages += span;
            }
        }
    }
    assert_eq!(free_pages, 14);
}

#[test]
fn page_allocator_coalesces_a_region() {
    // Freeing all four pages of an aligned region one by one yields a
    // single grain-2 block and nothing below.
    let mut pages = PageAllocator::new();
    pages.init(16, 1);
    let b = pages.allocate_pages(4).unwrap();
    assert_eq!(b, 4);
    for page in 4..8 {
        pages.deallocate_page(page, 0).unwrap();
    }
    assert!(pages.block_is_free(2, 1));
    for page in 4..8 {
        assert!(!pages.block_is_free(0, page));
    }
    assert!(!pages.block_is_free(1, 2));
    assert!(!pages.block_is_free(1, 3));
}

#[test]
fn page_allocator_runs_out() {
    let mut pages = PageAllocator::new();
    pages.init(16, 1);
    // The largest free block spans eight pages; sixteen cannot be had.
    assert_eq!(pages.allocate_pages(16), Err(PageAllocationError::OutOfMemory));
    // Two eight-page requests exhaust the top block.
    let first = pages.allocate_pages(8).unwrap();
    assert_eq!(first, 8);
    assert_eq!(pages.allocate_pages(8), Err(PageAllocationError::OutOfMemory));
}

#[test]
fn page_allocator_rejects_unknown_grain() {
    let mut pages = PageAllocator::new();
    pages.init(16, 1);
    assert_eq!(pages.deallocate_page(0, 99), Err(PageDeallocationError::OutOfBounds));
}

/// The slab scenario: slots of 32 bytes aligned to 8 give a slot size of
/// two records, so a page holds exactly 128 slots. Allocate until full,
/// free everything in reverse, and the slab is as fresh as it started.
#[test]
fn slab_roundtrip_fills_and_drains() {
    assert_eq!(SlabAllocator::get_slot_size(32, 8), 2);
    let mut slab = SlabAllocator::new();
    let mut slots = Vec::new();
    for _ in 0..128 {
        let slot = slab.allocate(32, 8);
        assert!(slot.is_some());
        slots.push(slot.unwrap());
    }
    assert_eq!(slab.in_use_for(2), Some(128));
    // The page is full: the next allocation yields nothing rather than
    // growing the slab.
    assert_eq!(slab.allocate(32, 8), None);
    for slot in slots.iter().rev() {
        slab.dealloc(*slot, 32, 8);
    }
    assert_eq!(slab.in_use_for(2), Some(0));
    assert!(slab.allocate(32, 8).is_some());
}

#[test]
fn slab_alloc_free_restores_state() {
    let mut slab = SlabAllocator::new();
    let first = slab.allocate(32, 8).unwrap();
    assert_eq!(first, 0);
    let x = slab.allocate(32, 8).unwrap();
    assert_eq!(slab.in_use_for(2), Some(2));
    slab.dealloc(x, 32, 8);
    assert_eq!(slab.in_use_for(2), Some(1));
    // The freed slot is spliced in after the head, so the next
    // allocation takes the head first; the freed slot follows.
    let y = slab.allocate(32, 8).unwrap();
    assert_eq!(y, 4);
    let z = slab.allocate(32, 8).unwrap();
    assert_eq!(z, x);
}

#[test]
fn slab_keys_by_slot_size() {
    let mut slab = SlabAllocator::new();
    let a = slab.allocate(32, 8);
    let b = slab.allocate(100, 8);
    let c = slab.allocate(16, 16);
    assert!(a.is_some() && b.is_some() && c.is_some());
    // 32 bytes -> 2 records, 100 bytes -> 7 records, 16 bytes -> 1.
    assert_eq!(slab.in_use_for(2), Some(1));
    assert_eq!(slab.in_use_for(7), Some(1));
    assert_eq!(slab.in_use_for(1), Some(1));
    assert_eq!(slab.in_use_for(3), None);
    // A zero-sized layout allocates nothing.
    assert_eq!(slab.allocate(0, 0), None);
}
