//! Helper functions for working with addresses.

use vstd::prelude::*;

verus! {

/// An error occurring during offset calculation between addresses.
#[derive(Debug, Clone, Copy, PartialEq, Eq, Structural)]
pub enum OffsetCalculationError {
    /// The offset overflows an `isize`.
    OffsetDiffOverflowed,
    /// The size of the underlying element type does not fit in an `isize`.
    TypeDoesNotFitInIsize,
}

/// Calculates the offset between the addresses `from` and `to`, in
/// increments of `elem_size` bytes, truncated toward zero as pointer
/// offsets are.
///
/// Addresses are below `isize::MAX`, as they are in the kernel's address
/// space, so the difference itself cannot overflow; an element size above
/// `isize::MAX` is still rejected. An element size of zero divides by zero
/// and is excluded.
pub fn offset_between(to: usize, from: usize, elem_size: usize) -> (r: Result<
    isize,
    OffsetCalculationError,
>)
    requires
        to <= isize::MAX,
        from <= isize::MAX,
        elem_size >= 1,
    ensures
        elem_size > isize::MAX ==> r == Err::<isize, OffsetCalculationError>(
            OffsetCalculationError::TypeDoesNotFitInIsize,
        ),
        elem_size <= isize::MAX ==> r == Ok::<isize, OffsetCalculationError>(
            if to >= from {
                (((to - from) as usize / elem_size) as int) as isize
            } else {
                (-(((from - to) as usize / elem_size) as int)) as isize
            },
        ),
{
    if elem_size > isize::MAX as usize {
        return Err(OffsetCalculationError::TypeDoesNotFitInIsize);
    }
    if to >= from {
        let q = (to - from) / elem_size;
        Ok(q as isize)
    } else {
        let q = (from - to) / elem_size;
        Ok(-(q as isize))
    }
}

} // verus!
