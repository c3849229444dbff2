//! Tests for the thread state machine, scheduling, trap dispatch, and
//! the small supporting pieces: locks, timers, UART addressing, offsets.

use eepyos::consts::{MAX_PROCESSES, MAX_THREADS};
use eepyos::context::RegisterContext;
use eepyos::exception::{
    handle_exception, ILLEGAL_INSTRUCTION, INSTRUCTION_PAGE_FAULT, USER_ENVIRONMENT_CALL,
};
use eepyos::interrupt::{handle_interrupt, IS_INTERRUPT_MASK, TIMER_INTERRUPT};
use eepyos::pointer::{offset_between, OffsetCalculationError};
use eepyos::process::{ProcessControlBlock, ProcessStatus};
use eepyos::resource::{Resource, ResourceClaimError, ResourceManager};
use eepyos::sync::{Lock, Mutex, MutexLockError};
use eepyos::syscall::handle_syscall;
use eepyos::thread::{
    CandidateThread, ThreadActivationError, ThreadControlBlock, ThreadHandle,
    ThreadResolveInterruptError, ThreadState,
};
use eepyos::time::{set_timecmp_delay, set_timecmp_delay_ms};
use eepyos::uart::UartHandler;

/// A stand-in entry point address for test threads.
const ENTRY: usize = 0x8000_0000;

/// A stand-in exit-shim address for test threads.
const EXIT_SHIM: usize = 0x8000_F000;

fn process_table() -> ResourceManager<Option<ProcessControlBlock>, MAX_PROCESSES> {
    ResourceManager::new([None, None, None, None])
}

fn run_once(
    table: &mut ResourceManager<Option<ProcessControlBlock>, MAX_PROCESSES>,
    handle: ThreadHandle,
    cause: u64,
) {
    let process = table
        .get_absolute_mut(handle.process_index)
        .as_mut()
        .unwrap();
    let thread = process.thread_mut(handle.thread_index).as_mut().unwrap();
    let pc = thread.begin_activation().unwrap();
    let result = thread.complete_activation(pc, cause);
    if result.cause & IS_INTERRUPT_MASK > 0 {
        handle_interrupt(thread, result.cause);
    } else {
        handle_exception(thread, result.cause);
    }
}

#[test]
fn lock_claims_and_releases() {
    let mut lock = Lock::new();
    assert!(!lock.is_held());
    assert_eq!(lock.claim(), Ok(false));
    assert!(lock.is_held());
    assert_eq!(lock.claim(), Err(true));
    assert_eq!(lock.release(), Ok(true));
    assert_eq!(lock.release(), Err(false));
    lock.claim_blocking();
    assert!(lock.is_held());
}

#[test]
fn mutex_moves_its_value_through_guards() {
    let mut mutex = Mutex::new(41);
    let mut guard = mutex.lock_mut().unwrap();
    assert!(matches!(mutex.lock_mut(), Err(MutexLockError::AlreadyHeld)));
    assert!(matches!(mutex.lock(), Err(MutexLockError::AlreadyHeld)));
    assert_eq!(guard.replace(42), 41);
    mutex.release_mut(guard);
    let guard = mutex.lock().unwrap();
    assert_eq!(*guard.get(), 42);
    mutex.release(guard);
    assert!(!mutex.is_held());
}

#[test]
fn thread_state_machine_follows_the_table() {
    let mut thread = ThreadControlBlock::new(ENTRY, 0, 7, 0x5000_0000, 3, EXIT_SHIM);
    assert_eq!(thread.get_need(), 7);
    let args = thread.get_args();
    assert_eq!(args, [0, 0]);

    // Ready -> Running -> Interrupted -> Ready, with the synchronous
    // resolution stepping over the trapping instruction.
    let pc = thread.begin_activation().unwrap();
    assert_eq!(pc, ENTRY);
    assert_eq!(thread.get_need(), 7);
    assert!(thread.begin_activation().is_err());
    let outcome = thread.complete_activation(ENTRY + 8, 42);
    assert_eq!(outcome.cause, 42);
    thread.resolve_interrupt(true).unwrap();
    let pc2 = thread.begin_activation().unwrap();
    assert_eq!(pc2, ENTRY + 12);

    // Resolving a thread that is not interrupted reports its state.
    let mut ready = ThreadControlBlock::new(ENTRY, 1, 7, 0, 3, EXIT_SHIM);
    assert_eq!(
        ready.resolve_interrupt(false),
        Err(ThreadResolveInterruptError::ThreadNotInterrupted(
            ThreadState::Ready
        ))
    );

    // Killing a ready thread zombifies it; activation then fails.
    ready.kill();
    assert_eq!(
        ready.begin_activation(),
        Err(ThreadActivationError::ThreadNotReady(ThreadState::Zombie))
    );
    // A second kill is a no-op on a zombie.
    ready.kill();
}

#[test]
fn thread_consider_ages_and_compares() {
    let mut thread = ThreadControlBlock::new(ENTRY, 0, 3, 0, 0, EXIT_SHIM);
    // The thread competes at its current need and then ages.
    assert_eq!(thread.consider(0), Some(3));
    assert_eq!(thread.get_need(), 6);
    assert_eq!(thread.consider(100), None);
    assert_eq!(thread.get_need(), 9);
    thread.kill();
    assert_eq!(thread.consider(0), None);
    assert_eq!(thread.get_need(), 9);
}

#[test]
fn thread_handles_claim_once() {
    let mut thread = ThreadControlBlock::new(ENTRY, 0, 3, 0, 0, EXIT_SHIM);
    assert!(thread.get_handle().is_ok());
    assert!(thread.get_handle().is_err());
    thread.release_handle();
    assert!(thread.get_handle().is_ok());
}

#[test]
fn thread_returns_values_in_a0() {
    let mut thread = ThreadControlBlock::new(ENTRY, 0, 3, 0x1000, 0, EXIT_SHIM);
    thread.set_return_val(55);
    assert_eq!(thread.get_args(), [55, 0]);
}

#[test]
fn register_context_starts_zeroed() {
    let registers = RegisterContext::all_zero();
    assert_eq!(registers.ra, 0);
    assert_eq!(registers.sp, 0);
    assert_eq!(registers.a0, 0);
    assert_eq!(registers.ft11, 0);
}

#[test]
fn process_creation_places_the_entry_thread() {
    let mut process = ProcessControlBlock::new(ENTRY, 4, 9, 0x5000_0000, EXIT_SHIM).unwrap();
    // The entry thread sits in slot zero, ready, with the process's
    // priority as its starting need.
    let entry_thread = process.thread_mut(0).as_mut().unwrap();
    assert_eq!(entry_thread.get_need(), 9);
    assert_eq!(entry_thread.begin_activation(), Ok(ENTRY));
    assert!(process.thread_mut(1).is_none());
    let mut table = process_table();
    let fresh = ProcessControlBlock::new(ENTRY, 5, 2, 0x5100_0000, EXIT_SHIM).unwrap();
    assert_eq!(table.claim_first(Some(fresh)), Ok(0));
    assert!(table.get_absolute(0).unwrap().is_some());
}

#[test]
fn resource_manager_claims_first_open_slot() {
    let mut threads: ResourceManager<Option<ThreadControlBlock>, MAX_THREADS> =
        ResourceManager::new([None, None]);
    // An exhausted resource is refused outright.
    assert_eq!(
        threads.claim_first(None),
        Err(ResourceClaimError::AddedExhaustedResource)
    );
    let t0 = ThreadControlBlock::new(ENTRY, 0, 1, 0, 0, EXIT_SHIM);
    let t1 = ThreadControlBlock::new(ENTRY, 1, 1, 0, 0, EXIT_SHIM);
    let t2 = ThreadControlBlock::new(ENTRY, 2, 1, 0, 0, EXIT_SHIM);
    assert_eq!(threads.claim_first(Some(t0)), Ok(0));
    assert_eq!(threads.claim_first(Some(t1)), Ok(1));
    assert_eq!(
        threads.claim_first(Some(t2)),
        Err(ResourceClaimError::NoSpaceAvailable)
    );
    // A zombie slot is exhausted and gets reused.
    threads.get_absolute_mut(0).as_mut().unwrap().kill();
    let t3 = ThreadControlBlock::new(ENTRY, 3, 1, 0, 0, EXIT_SHIM);
    assert_eq!(threads.claim_first(Some(t3)), Ok(0));
    assert_eq!(threads.iter(), vec![0, 1]);
}

#[test]
fn resource_manager_emplaces_by_index() {
    let mut threads: ResourceManager<Option<ThreadControlBlock>, MAX_THREADS> =
        ResourceManager::new([None, None]);
    let made = threads.emplace_first(|index| {
        Some(ThreadControlBlock::new(ENTRY, index as u16, 1, 0, 0, EXIT_SHIM))
    });
    assert_eq!(made, Ok(0));
    assert!(threads.get_absolute(0).unwrap().is_some());
    assert!(threads.get_absolute(1).unwrap().is_none());
    assert!(threads.get_absolute(2).is_none());
}

/// The scheduling-aging scenario: two ready threads with priorities 3
/// and 5 in one process. Each round compares the threads at their
/// current needs; the winner's need resets to its priority on activation
/// while the loser gains its priority, so the two alternate with the
/// faster thread taking every other turn.
#[test]
fn scheduler_ages_and_alternates() {
    let mut table = process_table();
    let mut process = ProcessControlBlock::new(ENTRY, 0, 3, 0x5000_0000, EXIT_SHIM).unwrap();
    *process.thread_mut(1) = Some(ThreadControlBlock::new(ENTRY, 1, 5, 0x5100_0000, 0, EXIT_SHIM));
    table.claim_first(Some(process)).unwrap();

    let mut order = Vec::new();
    for _ in 0..5 {
        let handle = table.choose_next_thread().unwrap();
        order.push(handle.thread_index);
        // A timer interrupt preempts the thread back to ready.
        run_once(&mut table, handle, IS_INTERRUPT_MASK | TIMER_INTERRUPT);
    }
    // Needs start at (3, 5): rounds compare (3,5) -> T2, (6,5) -> T1,
    // (3,10) -> T2, (6,5) -> T1, (3,10) -> T2.
    assert_eq!(order, vec![1, 0, 1, 0, 1]);
}

/// The exception-to-kill scenario: a thread traps on an illegal
/// instruction, the handler zombifies it, and the scheduler then finds
/// nothing left to run.
#[test]
fn illegal_instruction_kills_the_thread() {
    let mut table = process_table();
    let process = ProcessControlBlock::new(ENTRY, 0, 3, 0x5000_0000, EXIT_SHIM).unwrap();
    table.claim_first(Some(process)).unwrap();

    let handle = table.choose_next_thread().unwrap();
    assert_eq!(handle, ThreadHandle { process_index: 0, thread_index: 0 });
    run_once(&mut table, handle, ILLEGAL_INSTRUCTION);

    // The zombie is skipped: no runnable thread remains, and the
    // scheduling loop would drop into the shell.
    assert!(table.choose_next_thread().is_none());
}

#[test]
fn syscalls_exit_and_yield() {
    // EXIT zombifies the thread.
    let mut exiting = ThreadControlBlock::new(ENTRY, 0, 3, 0, 0, EXIT_SHIM);
    exiting.begin_activation().unwrap();
    exiting.complete_activation(ENTRY, USER_ENVIRONMENT_CALL);
    // a0 is still zero: the EXIT code.
    handle_syscall(&mut exiting, false);
    assert_eq!(
        exiting.begin_activation(),
        Err(ThreadActivationError::ThreadNotReady(ThreadState::Zombie))
    );

    // YIELD resolves the thread and steps past the ecall.
    let mut yielding = ThreadControlBlock::new(ENTRY, 1, 3, 0, 0, EXIT_SHIM);
    yielding.begin_activation().unwrap();
    yielding.complete_activation(ENTRY + 4, USER_ENVIRONMENT_CALL);
    yielding.set_return_val(1);
    handle_syscall(&mut yielding, false);
    assert_eq!(yielding.begin_activation(), Ok(ENTRY + 8));
}

#[test]
fn timer_interrupts_resolve_other_interrupts_kill() {
    let mut preempted = ThreadControlBlock::new(ENTRY, 0, 3, 0, 0, EXIT_SHIM);
    preempted.begin_activation().unwrap();
    preempted.complete_activation(ENTRY + 40, IS_INTERRUPT_MASK | TIMER_INTERRUPT);
    handle_interrupt(&mut preempted, IS_INTERRUPT_MASK | TIMER_INTERRUPT);
    // The program counter is untouched: the thread re-executes nothing.
    assert_eq!(preempted.begin_activation(), Ok(ENTRY + 40));

    let mut poked = ThreadControlBlock::new(ENTRY, 1, 3, 0, 0, EXIT_SHIM);
    poked.begin_activation().unwrap();
    poked.complete_activation(ENTRY, IS_INTERRUPT_MASK | 1);
    handle_interrupt(&mut poked, IS_INTERRUPT_MASK | 1);
    assert_eq!(
        poked.begin_activation(),
        Err(ThreadActivationError::ThreadNotReady(ThreadState::Zombie))
    );
}

#[test]
fn external_interrupts_and_page_faults_kill() {
    let mut poked = ThreadControlBlock::new(ENTRY, 0, 3, 0, 0, EXIT_SHIM);
    poked.begin_activation().unwrap();
    poked.complete_activation(ENTRY, IS_INTERRUPT_MASK | 9);
    handle_interrupt(&mut poked, IS_INTERRUPT_MASK | 9);
    assert!(matches!(
        poked.begin_activation(),
        Err(ThreadActivationError::ThreadNotReady(ThreadState::Zombie))
    ));

    let mut faulted = ThreadControlBlock::new(ENTRY, 1, 3, 0, 0, EXIT_SHIM);
    faulted.begin_activation().unwrap();
    faulted.complete_activation(ENTRY, INSTRUCTION_PAGE_FAULT);
    handle_exception(&mut faulted, INSTRUCTION_PAGE_FAULT);
    assert!(matches!(
        faulted.begin_activation(),
        Err(ThreadActivationError::ThreadNotReady(ThreadState::Zombie))
    ));
}

#[test]
fn candidate_thread_defaults_empty() {
    let empty = CandidateThread::default();
    assert_eq!(empty.best, 0);
    assert!(empty.handle.is_none());
    let chosen = CandidateThread::new(9, Some(ThreadHandle { process_index: 1, thread_index: 0 }));
    assert_eq!(chosen.best, 9);
    assert_eq!(chosen.handle.unwrap().process_index, 1);
}

#[test]
fn process_status_variants_mark_exhaustion() {
    assert_ne!(ProcessStatus::Ready, ProcessStatus::_Zombie);
    let empty: Option<ProcessControlBlock> = None;
    assert!(empty.exhausted());
}

#[test]
fn timer_deadline_arithmetic() {
    // Four ticks per microsecond.
    assert_eq!(set_timecmp_delay(1000, 250), 2000);
    assert_eq!(set_timecmp_delay_ms(0, 1000), 4_000_000);
    assert_eq!(set_timecmp_delay_ms(5, 1), 4005);
}

#[test]
fn offsets_between_addresses() {
    assert_eq!(offset_between(3, 0, 1), Ok(3));
    assert_eq!(offset_between(0, 3, 1), Ok(-3));
    assert_eq!(offset_between(0, 0, 1), Ok(0));
    assert_eq!(offset_between(4096, 0, 4096), Ok(1));
    assert_eq!(offset_between(7, 0, 2), Ok(3));
    assert_eq!(offset_between(0, 7, 2), Ok(-3));
    assert_eq!(
        offset_between(0, 0, usize::MAX),
        Err(OffsetCalculationError::TypeDoesNotFitInIsize)
    );
}

#[test]
fn uart_registers_sit_at_their_offsets() {
    let uart = UartHandler::new_from_uart_index(0).unwrap();
    assert_eq!(uart.rbr, 0x1000_0000);
    assert_eq!(uart.thr, 0x1000_0000);
    assert_eq!(uart.lcr, 0x1000_000C);
    assert_eq!(uart.lsr, 0x1000_0014);
    assert!(UartHandler::new_from_uart_index(1).is_none());
}
