//! The bump allocator: a monotonic byte offset into RAM used for
//! permanent bootstrap allocations.
//!
//! Offsets are relative to the base of RAM; the base address itself is a
//! platform constant that callers add when they need an absolute address.
//! Deallocation is undefined for a bump allocator, a fatal error when
//! attempted, so no deallocation function exists.

use crate::sync::Mutex;
use vstd::prelude::*;

verus! {

/// Size of a page in bytes.
pub const PAGE_SIZE: usize = 4096;

/// The lowest physical address used for RAM.
pub const RAM_BASE: u64 = 0x4000_0000;

/// The number of bytes available in RAM on the target board.
pub const RAM_LENGTH: u64 = 4 * 1024 * 1024 * 1024;

/// An error occurring when the bump allocator runs out of RAM.
#[derive(Debug, Clone, Copy, PartialEq, Eq, Structural)]
pub enum BumpAllocationError {
    /// The new top of the heap would lie beyond the end of RAM.
    OutOfMemory,
}

/// `addr` rounded up to the next multiple of `align`.
pub open spec fn spec_align_up(addr: int, align: int) -> int {
    ((addr + align - 1) / align) * align
}

/// Rounding up to a multiple of `align` moves an address forward by less
/// than `align` and lands on a multiple of it.
pub proof fn lemma_align_up(addr: int, align: int)
    requires
        addr >= 0,
        align >= 1,
    ensures
        addr <= spec_align_up(addr, align) < addr + align,
        spec_align_up(addr, align) % align == 0,
{
    assert(addr <= ((addr + align - 1) / align) * align < addr + align && ((addr + align - 1)
        / align) * align % align == 0) by (nonlinear_arith)
        requires
            addr >= 0,
            align >= 1,
    ;
}

/// An allocator used to permanently claim heap memory during bootstrap.
pub struct BumpAllocator {
    /// Offset in bytes from the base of RAM representing heap RAM that
    /// has been permanently claimed by the kernel.
    offset: Mutex<usize>,
    /// The number of bytes of RAM this allocator hands out.
    ram_length: usize,
}

impl BumpAllocator {
    /// The current bump offset.
    pub closed spec fn spec_offset(&self) -> usize {
        self.offset.spec_value()
    }

    /// The RAM size this allocator was created with.
    pub closed spec fn spec_ram_length(&self) -> usize {
        self.ram_length
    }

    /// Well-formed: the offset mutex is intact and free.
    pub closed spec fn wf(&self) -> bool {
        self.offset.wf() && !self.offset.spec_held()
    }

    /// Creates a bump allocator over `ram_length` bytes of RAM, starting
    /// empty.
    pub fn new(ram_length: usize) -> (r: Self)
        ensures
            r.wf(),
            r.spec_offset() == 0,
            r.spec_ram_length() == ram_length,
    {
        Self { offset: Mutex::new(0), ram_length }
    }

    /// Allocates `size` bytes aligned to `align`, returning the offset of
    /// the allocation from the base of RAM. The base of RAM is itself
    /// aligned far beyond any layout in use, so aligning the offset
    /// aligns the address. The new offset is recorded even when the
    /// allocation fails: it is written before the bounds of RAM are
    /// checked.
    pub fn allocate(&mut self, size: usize, align: usize) -> (r: Result<
        usize,
        BumpAllocationError,
    >)
        requires
            old(self).wf(),
            align >= 1,
            old(self).spec_offset() + align + size <= usize::MAX,
        ensures
            final(self).wf(),
            final(self).spec_ram_length() == old(self).spec_ram_length(),
            final(self).spec_offset() == spec_align_up(
                old(self).spec_offset() as int,
                align as int,
            ) + size,
            r == if spec_align_up(old(self).spec_offset() as int, align as int) + size <= old(
                self,
            ).spec_ram_length() {
                Ok::<usize, BumpAllocationError>(
                    spec_align_up(old(self).spec_offset() as int, align as int) as usize,
                )
            } else {
                Err::<usize, BumpAllocationError>(BumpAllocationError::OutOfMemory)
            },
    {
        let mut guard = self.offset.lock_blocking_mut();
        let current = *guard.get();
        proof {
            lemma_align_up(current as int, align as int);
        }
        let aligned = ((current + (align - 1)) / align) * align;
        let new_offset = aligned + size;
        guard.replace(new_offset);
        self.offset.release_mut(guard);
        if new_offset <= self.ram_length {
            Ok(aligned)
        } else {
            Err(BumpAllocationError::OutOfMemory)
        }
    }

    /// Returns the next offset that will be allocated: the current top of
    /// the bump heap, relative to the base of RAM. A top beyond the end
    /// of RAM is fatal, so it is excluded.
    pub fn get_heap_top(&mut self) -> (r: usize)
        requires
            old(self).wf(),
            old(self).spec_offset() < old(self).spec_ram_length(),
        ensures
            final(self).wf(),
            final(self).spec_offset() == old(self).spec_offset(),
            final(self).spec_ram_length() == old(self).spec_ram_length(),
            r == old(self).spec_offset(),
    {
        let guard = self.offset.lock_blocking();
        let top = *guard.get();
        self.offset.release(guard);
        top
    }

    /// Returns the absolute address of the next byte that this allocator
    /// would hand out.
    pub fn get_bump_addr(&mut self) -> (r: u64)
        requires
            old(self).wf(),
            RAM_BASE + old(self).spec_offset() <= u64::MAX,
        ensures
            final(self).wf(),
            final(self).spec_offset() == old(self).spec_offset(),
            final(self).spec_ram_length() == old(self).spec_ram_length(),
            r == RAM_BASE + old(self).spec_offset(),
    {
        let guard = self.offset.lock_blocking();
        let top = *guard.get();
        self.offset.release(guard);
        RAM_BASE + top as u64
    }
}

/// Bump monotonicity: for two successive successful allocations, the end
/// of the second lies strictly beyond the end of the first, whenever the
/// second allocation is not empty. No deallocation exists at all, so
/// every allocation is permanent.
pub proof fn lemma_bump_monotonicity(
    offset0: int,
    size1: int,
    align1: int,
    size2: int,
    align2: int,
)
    requires
        offset0 >= 0,
        size1 >= 0,
        size2 >= 1,
        align1 >= 1,
        align2 >= 1,
    ensures
        ({
            let addr1 = spec_align_up(offset0, align1);
            let addr2 = spec_align_up(addr1 + size1, align2);
            addr2 + size2 > addr1 + size1
        }),
{
    let addr1 = spec_align_up(offset0, align1);
    lemma_align_up(offset0, align1);
    lemma_align_up(addr1 + size1, align2);
}

} // verus!
