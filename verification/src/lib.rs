//! A verified model of a small RISC-V supervisor-mode kernel: physical
//! memory management (bump, buddy and slab allocators), Sv39 page tables,
//! thread and process scheduling, trap dispatch, and the synchronization
//! primitives they share.
//!
//! Hardware access (UART bytes, CSR writes, the context-switch trampoline)
//! is out of scope here: callers perform it and hand the results to the
//! verified logic as plain values.

/// Constants unified in one module.
pub mod consts;
/// Structs used to store trap frames (registers) when threads are
/// interrupted.
pub mod context;
/// Generic data structures.
pub mod data;
/// Handler for exceptions after thread activation.
pub mod exception;
/// The bootstrap bump allocator.
pub mod heap;
/// Handler for interrupts after thread activation.
pub mod interrupt;
/// Trait definitions for readable and writable objects.
pub mod io;
/// The Sv39 page-table engine.
pub mod mmu;
/// The buddy page allocator.
pub mod page;
/// Helper functions for working with addresses.
pub mod pointer;
/// Process control block definitions.
pub mod process;
/// Resource trait to manage exhaustable resources.
pub mod resource;
/// Circular doubly-linked rings of indices.
pub mod ring;
/// The SLUB-style object allocator.
pub mod slab;
/// Synchronization primitives.
pub mod sync;
/// Syscall code constants and dispatch.
pub mod syscall;
/// Thread control block definitions.
pub mod thread;
/// Functions for computing timer deadlines.
pub mod time;
/// UART register addressing.
pub mod uart;
