//! Handler for synchronous exceptions taken during a thread activation.

use crate::syscall::{handle_syscall, EXIT, YIELD};
use crate::thread::{ThreadControlBlock, ThreadState};
use vstd::prelude::*;

verus! {

/// `pc` has been set to a misaligned value.
pub const INSTUCTION_ADDRESS_MISALIGNED: u64 = 0;

/// Tried to execute instructions in protected memory.
pub const INSTRUCTION_ACCESS_FAULT: u64 = 1;

/// Tried to execute an unknown instruction.
pub const ILLEGAL_INSTRUCTION: u64 = 2;

/// Executed a breakpoint.
pub const BREAKPOINT: u64 = 3;

/// Tried to load a misaligned address.
pub const LOAD_ADDRESS_MISALIGNED: u64 = 4;

/// Tried to load protected memory.
pub const LOAD_ACCESS_FAULT: u64 = 5;

/// Tried to access a misaligned address as part of an atomic instruction.
pub const STORE_AMO_ADDRESS_MISALIGNED: u64 = 6;

/// Tried to access protected memory as part of an atomic instruction.
pub const STORE_AMO_ACCESS_FAULT: u64 = 7;

/// Userspace program made a syscall.
pub const USER_ENVIRONMENT_CALL: u64 = 8;

/// Kernel made a syscall.
pub const SUPERVISOR_ENVIRONMENT_CALL: u64 = 9;

/// Tried to execute instructions in a non-executable (or unmapped) page.
pub const INSTRUCTION_PAGE_FAULT: u64 = 12;

/// Tried to load from a non-readable (or unmapped) page.
pub const LOAD_PAGE_FAULT: u64 = 13;

/// Tried to access memory from a page that is either unmapped or does not
/// have sufficient permissions, as part of an atomic operation.
pub const STORE_AMO_PAGE_FAULT: u64 = 15;

/// The exception causes this handler services: servicing any other is
/// unimplemented and fatal, so they are excluded here.
pub open spec fn exception_handled(cause: u64) -> bool {
    ||| cause == ILLEGAL_INSTRUCTION
    ||| cause == LOAD_ADDRESS_MISALIGNED
    ||| cause == STORE_AMO_ADDRESS_MISALIGNED
    ||| cause == USER_ENVIRONMENT_CALL
    ||| cause == SUPERVISOR_ENVIRONMENT_CALL
    ||| cause == INSTRUCTION_PAGE_FAULT
}

/// Handles an exception with the given cause in the interrupted thread:
/// illegal instructions, misaligned accesses and instruction page faults
/// kill the thread; environment calls dispatch to the syscall handler.
pub fn handle_exception(thread: &mut ThreadControlBlock, cause: u64)
    requires
        old(thread).spec_state() != ThreadState::Running,
        exception_handled(cause),
        cause == USER_ENVIRONMENT_CALL || cause == SUPERVISOR_ENVIRONMENT_CALL ==> (old(
            thread,
        ).spec_registers().a0 == EXIT || old(thread).spec_registers().a0 == YIELD) && (old(
            thread,
        ).spec_registers().a0 == YIELD && old(thread).spec_state() == ThreadState::Interrupted
            ==> old(thread).spec_pc() + 4 <= usize::MAX),
    ensures
        cause == ILLEGAL_INSTRUCTION || cause == LOAD_ADDRESS_MISALIGNED || cause
            == STORE_AMO_ADDRESS_MISALIGNED || cause == INSTRUCTION_PAGE_FAULT ==> *final(thread)
            == old(thread).with_scheduling(
            ThreadState::Zombie,
            old(thread).spec_pc(),
            old(thread).spec_need(),
        ),
        (cause == USER_ENVIRONMENT_CALL || cause == SUPERVISOR_ENVIRONMENT_CALL) ==> (if old(
            thread,
        ).spec_registers().a0 == EXIT {
            *final(thread) == old(thread).with_scheduling(
                ThreadState::Zombie,
                old(thread).spec_pc(),
                old(thread).spec_need(),
            )
        } else if old(thread).spec_state() == ThreadState::Interrupted {
            *final(thread) == old(thread).with_scheduling(
                ThreadState::Ready,
                (old(thread).spec_pc() + 4) as usize,
                old(thread).spec_need(),
            )
        } else {
            *final(thread) == old(thread).with_scheduling(
                ThreadState::Zombie,
                old(thread).spec_pc(),
                old(thread).spec_need(),
            )
        }),
{
    if cause == USER_ENVIRONMENT_CALL {
        handle_syscall(thread, false);
    } else if cause == SUPERVISOR_ENVIRONMENT_CALL {
        handle_syscall(thread, true);
    } else {
        thread.kill();
    }
}

} // verus!
