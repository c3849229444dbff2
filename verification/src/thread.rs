//! Thread control block definitions: register context, the thread state
//! machine, and the priority-aging score used by the scheduler.
//!
//! Running a thread goes through the context-switch trampoline, which the
//! caller invokes between [`ThreadControlBlock::begin_activation`] and
//! [`ThreadControlBlock::complete_activation`].

use crate::context::RegisterContext;
use crate::resource::Resource;
use crate::sync::Lock;
use vstd::prelude::*;

verus! {

/// The state of a thread.
#[derive(Clone, Copy, Debug, PartialEq, Eq, Structural)]
pub enum ThreadState {
    /// This thread has been interrupted. The interrupt itself is being
    /// processed by the kernel.
    Interrupted,
    /// This thread is currently running.
    Running,
    /// This thread is ready and able to run.
    Ready,
    /// This thread is never permitted to run again.
    Zombie,
}

/// A thread, and all the information needed to run it.
pub struct ThreadControlBlock {
    /// The thread's register values.
    registers: RegisterContext,
    /// The thread's program counter.
    pc: usize,
    /// The thread's state.
    state: ThreadState,
    /// A process-wise unique value.
    id: u16,
    /// This thread's scheduling priority.
    priority: u16,
    /// The number of times this thread has not been selected since last
    /// being run, multiplied by its priority.
    need: u32,
    /// A globally unique value associated with the process that owns this
    /// thread.
    owning_process_id: u16,
    /// A lock to guard the creation of handles to this thread.
    handle_lock: Lock,
}

/// The result of running a thread.
#[derive(Clone, Copy, PartialEq, Eq, Structural)]
pub struct ThreadActivationResult {
    /// A code indicating why the thread stopped running (the scause CSR,
    /// a 64-bit value).
    pub cause: u64,
}

/// A handle to a thread: the indices that locate it in the process table.
/// Claiming one takes the thread's handle lock through
/// [`ThreadControlBlock::get_handle`].
#[derive(Clone, Copy, Debug, PartialEq, Eq, Structural)]
pub struct ThreadHandle {
    /// Index of the owning process in the process table.
    pub process_index: usize,
    /// Index of the thread within its process.
    pub thread_index: usize,
}

/// An error that may occur when activating (running) a thread.
#[derive(Debug, Clone, Copy, PartialEq, Eq, Structural)]
pub enum ThreadActivationError {
    /// Failed to claim a thread's handle.
    FailedToClaim(ThreadHandleClaimError),
    /// Thread state is not [`ThreadState::Ready`]. Contains the actual
    /// thread state.
    ThreadNotReady(ThreadState),
}

/// An error that may occur when resolving a thread that has been
/// interrupted.
#[derive(Debug, Clone, Copy, PartialEq, Eq, Structural)]
pub enum ThreadResolveInterruptError {
    /// Thread state is not [`ThreadState::Interrupted`]. Contains the
    /// actual thread state.
    ThreadNotInterrupted(ThreadState),
}

/// An error that may occur when claiming a thread handle.
#[derive(Debug, Clone, Copy, PartialEq, Eq, Structural)]
pub enum ThreadHandleClaimError {
    /// The thread already has a handle.
    HandleAlreadyClaimed(crate::sync::MutexLockError),
}

/// A possible thread considered for activation.
pub struct CandidateThread {
    /// The best 'need' value observed.
    pub best: u32,
    /// A handle to the thread with the highest observed need.
    pub handle: Option<ThreadHandle>,
}

impl CandidateThread {
    /// Creates a new candidate thread.
    pub fn new(best: u32, handle: Option<ThreadHandle>) -> (r: Self)
        ensures
            r.best == best,
            r.handle == handle,
    {
        CandidateThread { best, handle }
    }
}

impl Default for CandidateThread {
    /// The empty candidate: no thread seen yet, beaten by any need above
    /// zero.
    fn default() -> (r: Self)
        ensures
            r.best == 0,
            r.handle is None,
    {
        Self { best: 0, handle: None }
    }
}

impl ThreadControlBlock {
    /// The thread's state.
    pub closed spec fn spec_state(&self) -> ThreadState {
        self.state
    }

    /// The thread's program counter.
    pub closed spec fn spec_pc(&self) -> usize {
        self.pc
    }

    /// The thread's register values.
    pub closed spec fn spec_registers(&self) -> RegisterContext {
        self.registers
    }

    /// The thread's process-wise unique id.
    pub closed spec fn spec_id(&self) -> u16 {
        self.id
    }

    /// The thread's scheduling priority.
    pub closed spec fn spec_priority(&self) -> u16 {
        self.priority
    }

    /// The thread's accumulated scheduling score.
    pub closed spec fn spec_need(&self) -> u32 {
        self.need
    }

    /// The id of the process that owns this thread.
    pub closed spec fn spec_owning_process_id(&self) -> u16 {
        self.owning_process_id
    }

    /// Whether a handle to this thread is currently claimed.
    pub closed spec fn spec_handle_claimed(&self) -> bool {
        self.handle_lock.spec_held()
    }

    /// The same thread with another state, program counter and need: what
    /// the state machine is allowed to touch.
    pub closed spec fn with_scheduling(
        &self,
        state: ThreadState,
        pc: usize,
        need: u32,
    ) -> ThreadControlBlock {
        ThreadControlBlock { state, pc, need, ..*self }
    }

    /// What [`Self::with_scheduling`] yields: the named state, program
    /// counter and need, with every other part of the thread unchanged.
    pub broadcast proof fn lemma_with_scheduling(
        t: ThreadControlBlock,
        state: ThreadState,
        pc: usize,
        need: u32,
    )
        ensures
            (#[trigger] t.with_scheduling(state, pc, need)).spec_state() == state,
            t.with_scheduling(state, pc, need).spec_pc() == pc,
            t.with_scheduling(state, pc, need).spec_need() == need,
            t.with_scheduling(state, pc, need).spec_registers() == t.spec_registers(),
            t.with_scheduling(state, pc, need).spec_id() == t.spec_id(),
            t.with_scheduling(state, pc, need).spec_priority() == t.spec_priority(),
            t.with_scheduling(state, pc, need).spec_owning_process_id()
                == t.spec_owning_process_id(),
            t.with_scheduling(state, pc, need).spec_handle_claimed() == t.spec_handle_claimed(),
    {
    }

    /// Creates a new thread control block, ready to run. `code` is the
    /// entry point; the stack pointer starts at `stack_base` and the
    /// return address at `exit_shim`, the address of the exit syscall
    /// shim, so that falling off the entry function exits the thread.
    pub fn new(code: usize, id: u16, priority: u16, stack_base: usize, owning_process_id: u16, exit_shim: usize) -> (r: Self)
        ensures
            r.spec_state() == ThreadState::Ready,
            r.spec_pc() == code,
            r.spec_id() == id,
            r.spec_priority() == priority,
            r.spec_need() == priority as u32,
            r.spec_owning_process_id() == owning_process_id,
            !r.spec_handle_claimed(),
            r.spec_registers() == (RegisterContext {
                sp: stack_base,
                ra: exit_shim,
                ..RegisterContext::spec_zero()
            }),
    {
        let mut registers = RegisterContext::all_zero();
        registers.sp = stack_base;
        registers.ra = exit_shim;
        Self {
            registers,
            pc: code,
            state: ThreadState::Ready,
            id,
            priority,
            need: priority as u32,
            owning_process_id,
            handle_lock: Lock::new(),
        }
    }

    /// Attempts to claim a handle to this thread, taking its handle lock.
    /// Errors if a handle is already held. Release it again with
    /// [`Self::release_handle`].
    pub fn get_handle(&mut self) -> (r: Result<(), ThreadHandleClaimError>)
        ensures
            final(self).spec_state() == old(self).spec_state(),
            final(self).spec_pc() == old(self).spec_pc(),
            final(self).spec_need() == old(self).spec_need(),
            final(self).spec_registers() == old(self).spec_registers(),
            final(self).spec_id() == old(self).spec_id(),
            final(self).spec_priority() == old(self).spec_priority(),
            final(self).spec_owning_process_id() == old(self).spec_owning_process_id(),
            final(self).spec_handle_claimed(),
            r == if old(self).spec_handle_claimed() {
                Err::<(), ThreadHandleClaimError>(
                    ThreadHandleClaimError::HandleAlreadyClaimed(
                        crate::sync::MutexLockError::AlreadyHeld,
                    ),
                )
            } else {
                Ok::<(), ThreadHandleClaimError>(())
            },
    {
        match self.handle_lock.claim() {
            Ok(_) => Ok(()),
            Err(_) => Err(ThreadHandleClaimError::HandleAlreadyClaimed(
                crate::sync::MutexLockError::AlreadyHeld,
            )),
        }
    }

    /// Releases a handle claimed with [`Self::get_handle`].
    pub fn release_handle(&mut self)
        ensures
            !final(self).spec_handle_claimed(),
            final(self).spec_state() == old(self).spec_state(),
            final(self).spec_pc() == old(self).spec_pc(),
            final(self).spec_need() == old(self).spec_need(),
            final(self).spec_registers() == old(self).spec_registers(),
            final(self).spec_id() == old(self).spec_id(),
            final(self).spec_priority() == old(self).spec_priority(),
            final(self).spec_owning_process_id() == old(self).spec_owning_process_id(),
    {
        let _ = self.handle_lock.release();
    }

    /// Begins running this thread: requires it to be ready, resets its
    /// need to its priority and marks it running. Returns the program
    /// counter to hand to the context-switch trampoline; feed the
    /// trampoline's results back through [`Self::complete_activation`].
    pub fn begin_activation(&mut self) -> (r: Result<usize, ThreadActivationError>)
        ensures
            match r {
                Ok(pc) => {
                    &&& old(self).spec_state() == ThreadState::Ready
                    &&& pc == old(self).spec_pc()
                    &&& *final(self) == old(self).with_scheduling(
                        ThreadState::Running,
                        old(self).spec_pc(),
                        old(self).spec_priority() as u32,
                    )
                    &&& spec_thread_step(old(self).spec_state(), ThreadEvent::Activate) == Some(
                        final(self).spec_state(),
                    )
                },
                Err(e) => {
                    &&& old(self).spec_state() != ThreadState::Ready
                    &&& e == ThreadActivationError::ThreadNotReady(old(self).spec_state())
                    &&& *final(self) == *old(self)
                },
            },
    {
        match self.state {
            ThreadState::Ready => {
                self.need = self.priority as u32;
                self.state = ThreadState::Running;
                Ok(self.pc)
            },
            _ => Err(ThreadActivationError::ThreadNotReady(self.state)),
        }
    }

    /// Completes a thread activation after the context-switch trampoline
    /// returned: records the trapped program counter and marks the thread
    /// interrupted, yielding the trap cause for dispatch.
    pub fn complete_activation(&mut self, new_pc: usize, cause: u64) -> (r:
        ThreadActivationResult)
        requires
            old(self).spec_state() == ThreadState::Running,
        ensures
            *final(self) == old(self).with_scheduling(
                ThreadState::Interrupted,
                new_pc,
                old(self).spec_need(),
            ),
            spec_thread_step(old(self).spec_state(), ThreadEvent::Trap) == Some(
                final(self).spec_state(),
            ),
            r.cause == cause,
    {
        self.pc = new_pc;
        self.state = ThreadState::Interrupted;
        ThreadActivationResult { cause }
    }

    /// What [`Self::consider`] returns, in specifications: a ready thread
    /// is compared at its current need, and it beats `best` exactly when
    /// that need strictly exceeds it.
    pub open spec fn consider_spec(&self, best: u32) -> Option<u32> {
        if self.spec_state() == ThreadState::Ready {
            if self.spec_need() > best {
                Some(self.spec_need())
            } else {
                None
            }
        } else {
            None
        }
    }

    /// Considers this thread for running, returning `None` if this thread
    /// is not a better candidate than the thread corresponding to `best`.
    /// A ready thread competes at its current need and ages by its
    /// priority for the round; the round's winner has its need reset to
    /// its priority when it is activated, so only the threads passed over
    /// keep the increment.
    pub fn consider(&mut self, best: u32) -> (r: Option<u32>)
        requires
            old(self).spec_state() == ThreadState::Ready ==> old(self).spec_need() + old(
                self,
            ).spec_priority() <= u32::MAX,
        ensures
            r == old(self).consider_spec(best),
            old(self).spec_state() == ThreadState::Ready ==> *final(self) == old(
                self,
            ).with_scheduling(
                ThreadState::Ready,
                old(self).spec_pc(),
                (old(self).spec_need() + old(self).spec_priority()) as u32,
            ),
            old(self).spec_state() != ThreadState::Ready ==> *final(self) == *old(self),
    {
        match self.state {
            ThreadState::Ready => {
                let current = self.need;
                self.need = self.need + self.priority as u32;
                if current > best {
                    Some(current)
                } else {
                    None
                }
            },
            _ => None,
        }
    }

    /// Retrieves the registers corresponding to arguments (a0, a1).
    /// This function is intended to be used when handling syscalls,
    /// since this is the only way a thread can pass args to the kernel.
    pub fn get_args(&self) -> (r: [usize; 2])
        ensures
            r@[0] == self.spec_registers().a0,
            r@[1] == self.spec_registers().a1,
    {
        [self.registers.a0, self.registers.a1]
    }

    /// Sets a return value for the thread, by setting the a0 register.
    /// This function is intended to be used when handling syscalls,
    /// since this is an idiomatic way to return something to the thread
    /// from the kernel.
    pub fn set_return_val(&mut self, val: usize)
        ensures
            final(self).spec_registers() == (RegisterContext {
                a0: val,
                ..old(self).spec_registers()
            }),
            final(self).spec_state() == old(self).spec_state(),
            final(self).spec_pc() == old(self).spec_pc(),
            final(self).spec_need() == old(self).spec_need(),
            final(self).spec_id() == old(self).spec_id(),
            final(self).spec_priority() == old(self).spec_priority(),
            final(self).spec_owning_process_id() == old(self).spec_owning_process_id(),
            final(self).spec_handle_claimed() == old(self).spec_handle_claimed(),
    {
        self.registers.a0 = val;
    }

    /// Returns this thread's need value, indicating how much priority
    /// should be given towards running this thread.
    pub fn get_need(&self) -> (r: u32)
        ensures
            r == self.spec_need(),
    {
        self.need
    }

    /// Prevents this thread from being run again, by setting its state to
    /// [`ThreadState::Zombie`]. Killing a running thread is a kernel bug:
    /// the kernel treats it as fatal, so it is excluded here.
    pub fn kill(&mut self)
        requires
            old(self).spec_state() != ThreadState::Running,
        ensures
            *final(self) == old(self).with_scheduling(
                ThreadState::Zombie,
                old(self).spec_pc(),
                old(self).spec_need(),
            ),
            spec_thread_step(old(self).spec_state(), ThreadEvent::Kill) == Some(
                final(self).spec_state(),
            ),
    {
        match self.state {
            ThreadState::Running => {
                // Excluded by the precondition.
                assert(false);
            },
            _ => {
                self.state = ThreadState::Zombie;
            },
        }
    }

    /// Prepares this thread to run again, after being interrupted. A
    /// synchronous resolution (the syscall return path) advances the
    /// program counter past the `ecall` instruction.
    pub fn resolve_interrupt(&mut self, synchronous: bool) -> (r: Result<
        (),
        ThreadResolveInterruptError,
    >)
        requires
            old(self).spec_state() == ThreadState::Interrupted && synchronous ==> old(
                self,
            ).spec_pc() + 4 <= usize::MAX,
        ensures
            match r {
                Ok(()) => {
                    &&& old(self).spec_state() == ThreadState::Interrupted
                    &&& *final(self) == old(self).with_scheduling(
                        ThreadState::Ready,
                        if synchronous {
                            (old(self).spec_pc() + 4) as usize
                        } else {
                            old(self).spec_pc()
                        },
                        old(self).spec_need(),
                    )
                    &&& spec_thread_step(old(self).spec_state(), ThreadEvent::Resolve(synchronous))
                        == Some(final(self).spec_state())
                },
                Err(e) => {
                    &&& old(self).spec_state() != ThreadState::Interrupted
                    &&& e == ThreadResolveInterruptError::ThreadNotInterrupted(
                        old(self).spec_state(),
                    )
                    &&& *final(self) == *old(self)
                },
            },
    {
        match self.state {
            ThreadState::Interrupted => {
                self.state = ThreadState::Ready;
                if synchronous {
                    self.pc = self.pc + 4;
                }
                Ok(())
            },
            _ => Err(ThreadResolveInterruptError::ThreadNotInterrupted(self.state)),
        }
    }

    /// Resolves an interrupted thread back to ready, and kills the thread
    /// instead if it was not interrupted. Killing a running thread is a
    /// kernel bug, so a running thread is excluded.
    pub fn resolve_interrupt_or_kill(&mut self, synchronous: bool)
        requires
            old(self).spec_state() != ThreadState::Running,
            old(self).spec_state() == ThreadState::Interrupted && synchronous ==> old(
                self,
            ).spec_pc() + 4 <= usize::MAX,
        ensures
            old(self).spec_state() == ThreadState::Interrupted ==> *final(self) == old(
                self,
            ).with_scheduling(
                ThreadState::Ready,
                if synchronous {
                    (old(self).spec_pc() + 4) as usize
                } else {
                    old(self).spec_pc()
                },
                old(self).spec_need(),
            ),
            old(self).spec_state() != ThreadState::Interrupted ==> *final(self) == old(
                self,
            ).with_scheduling(ThreadState::Zombie, old(self).spec_pc(), old(self).spec_need()),
    {
        if self.resolve_interrupt(synchronous).is_err() {
            self.kill();
        }
    }
}

impl Resource for Option<ThreadControlBlock> {
    /// An empty slot or a zombie thread is exhausted.
    open spec fn spec_exhausted(&self) -> bool {
        match self {
            None => true,
            Some(thread) => thread.spec_state() == ThreadState::Zombie,
        }
    }

    fn exhausted(&self) -> (r: bool) {
        match self {
            None => true,
            Some(thread) => matches!(thread.state, ThreadState::Zombie),
        }
    }
}

/// An event the thread state machine consumes.
#[derive(Clone, Copy, Debug, PartialEq, Eq, Structural)]
pub enum ThreadEvent {
    /// The scheduler begins running the thread.
    Activate,
    /// A trap returns control to the kernel while the thread runs.
    Trap,
    /// The trap handler resolves the thread; a synchronous resolution
    /// steps the program counter past the trapping instruction.
    Resolve(bool),
    /// The trap handler gives the thread up for dead.
    Kill,
}

/// The thread state transition table: what each event does to each
/// state, `None` standing for the transitions that are refused (with an
/// error) or fatal (killing a running thread, activating a non-ready
/// one, resolving a non-interrupted one).
pub open spec fn spec_thread_step(state: ThreadState, event: ThreadEvent) -> Option<ThreadState> {
    match (state, event) {
        (ThreadState::Ready, ThreadEvent::Activate) => Some(ThreadState::Running),
        (ThreadState::Running, ThreadEvent::Trap) => Some(ThreadState::Interrupted),
        (ThreadState::Interrupted, ThreadEvent::Resolve(_)) => Some(ThreadState::Ready),
        (ThreadState::Ready, ThreadEvent::Kill) => Some(ThreadState::Zombie),
        (ThreadState::Interrupted, ThreadEvent::Kill) => Some(ThreadState::Zombie),
        (ThreadState::Zombie, ThreadEvent::Kill) => Some(ThreadState::Zombie),
        _ => None,
    }
}

/// The state a trace of events leaves a thread in, stepping through the
/// transition table and stopping at the first refused event. Each
/// operation's contract pins its row of the table — activation, the
/// trap return, resolution and killing each name the one state they
/// produce — so the state after any trace is the fold below and nothing
/// else.
pub open spec fn spec_thread_trace(start: ThreadState, events: Seq<ThreadEvent>) -> Option<
    ThreadState,
>
    decreases events.len(),
{
    if events.len() == 0 {
        Some(start)
    } else {
        match spec_thread_step(start, events[0]) {
            Some(next) => spec_thread_trace(next, events.drop_first()),
            None => None,
        }
    }
}

} // verus!
