//! Handler for interrupts taken during a thread activation.

use crate::thread::{ThreadControlBlock, ThreadState};
use vstd::prelude::*;

verus! {

/// Bitmask fetching the bit of the scause CSR indicating if an interrupt
/// occurred.
pub const IS_INTERRUPT_MASK: u64 = 0x8000_0000_0000_0000;

/// A software interrupt (syscall).
pub const SOFTWARE_INTERRUPT: u64 = 1;

/// A timer interrupt.
pub const TIMER_INTERRUPT: u64 = 5;

/// An external interrupt.
pub const EXTERNAL_INTERRUPT: u64 = 9;

/// Handles an interrupt taken during a thread activation: a timer
/// interrupt resolves the thread back to ready (it only needs to be
/// rescheduled), while software and external interrupts kill it. An
/// unknown interrupt cause is fatal to the kernel and is excluded here.
pub fn handle_interrupt(thread: &mut ThreadControlBlock, cause: u64)
    requires
        old(thread).spec_state() != ThreadState::Running,
        (cause ^ IS_INTERRUPT_MASK) == SOFTWARE_INTERRUPT || (cause ^ IS_INTERRUPT_MASK)
            == TIMER_INTERRUPT || (cause ^ IS_INTERRUPT_MASK) == EXTERNAL_INTERRUPT,
    ensures
        (cause ^ IS_INTERRUPT_MASK) != TIMER_INTERRUPT ==> *final(thread) == old(
            thread,
        ).with_scheduling(ThreadState::Zombie, old(thread).spec_pc(), old(thread).spec_need()),
        (cause ^ IS_INTERRUPT_MASK) == TIMER_INTERRUPT ==> (if old(thread).spec_state()
            == ThreadState::Interrupted {
            *final(thread) == old(thread).with_scheduling(
                ThreadState::Ready,
                old(thread).spec_pc(),
                old(thread).spec_need(),
            )
        } else {
            *final(thread) == old(thread).with_scheduling(
                ThreadState::Zombie,
                old(thread).spec_pc(),
                old(thread).spec_need(),
            )
        }),
{
    let reason = cause ^ IS_INTERRUPT_MASK;
    if reason == TIMER_INTERRUPT {
        thread.resolve_interrupt_or_kill(false);
    } else {
        thread.kill();
    }
}

} // verus!
