use vstd::prelude::*;

verus! {

/// The maximum number of processes.
pub const MAX_PROCESSES: usize = 4;

/// The maximum number of threads per process.
pub const MAX_THREADS: usize = 2;

/// Number of cycles to wait before failing to acquire a lock.
/// The locks used by the kernel must never be held excessively long.
pub const MAX_LOCK_ACQUIRE_CYCLES: usize = 10_000_000;

} // verus!
