//! Syscall code constants and the syscall dispatcher.
//!
//! A thread passes the syscall code in `a0` and its argument in `a1`;
//! both are read back from the interrupted thread's saved registers.
//! Issuing a syscall from a thread goes through an assembly shim and is
//! outside this model.

use crate::thread::{ThreadControlBlock, ThreadState};
use vstd::prelude::*;

verus! {

/// Never schedule this thread again.
pub const EXIT: usize = 0;

/// Schedule another thread (if possible).
pub const YIELD: usize = 1;

/// Handles an incoming syscall from the interrupted thread: `EXIT` kills
/// it, `YIELD` resolves it back to ready, advancing its program counter
/// past the `ecall`. An unknown syscall code is fatal to the kernel and
/// is excluded here.
pub fn handle_syscall(thread: &mut ThreadControlBlock, _supervisor: bool)
    requires
        old(thread).spec_state() != ThreadState::Running,
        old(thread).spec_registers().a0 == EXIT || old(thread).spec_registers().a0 == YIELD,
        old(thread).spec_registers().a0 == YIELD && old(thread).spec_state()
            == ThreadState::Interrupted ==> old(thread).spec_pc() + 4 <= usize::MAX,
    ensures
        old(thread).spec_registers().a0 == EXIT ==> *final(thread) == old(
            thread,
        ).with_scheduling(ThreadState::Zombie, old(thread).spec_pc(), old(thread).spec_need()),
        old(thread).spec_registers().a0 == YIELD ==> (if old(thread).spec_state()
            == ThreadState::Interrupted {
            *final(thread) == old(thread).with_scheduling(
                ThreadState::Ready,
                (old(thread).spec_pc() + 4) as usize,
                old(thread).spec_need(),
            )
        } else {
            *final(thread) == old(thread).with_scheduling(
                ThreadState::Zombie,
                old(thread).spec_pc(),
                old(thread).spec_need(),
            )
        }),
{
    let args = thread.get_args();
    let code = args[0];
    if code == EXIT {
        thread.kill();
    } else {
        thread.resolve_interrupt_or_kill(true);
    }
}

} // verus!
