//! Process control block definitions and thread selection.
//!
//! Selection folds every ready thread of every ready process through
//! [`ThreadControlBlock::consider`]: each ready thread competes at its
//! current need and ages by its priority for the round, and the thread
//! whose need strictly exceeds the best seen so far becomes the
//! candidate. Activation then resets the winner's need to its priority,
//! so the threads passed over gain ground each round.

use crate::consts::MAX_THREADS;
use crate::resource::{Resource, ResourceClaimError, ResourceManager};
use crate::thread::{CandidateThread, ThreadControlBlock, ThreadHandle, ThreadState};
use vstd::prelude::*;

verus! {

broadcast use ResourceManager::lemma_view_len;

/// The status of a process.
#[derive(Clone, Copy, Debug, PartialEq, Eq, Structural)]
pub enum ProcessStatus {
    /// Possibly has runnable threads.
    Ready,
    /// All threads are dead.
    _Zombie,
}

/// A process: a fixed table of threads and scheduling metadata.
pub struct ProcessControlBlock {
    /// A unique value identifying this process.
    _id: u16,
    /// A container for threads belonging to this process.
    threads: ResourceManager<Option<ThreadControlBlock>, MAX_THREADS>,
    /// The priority of this process, used (eventually...) for scheduling.
    _priority: u16,
    /// The status of this process.
    status: ProcessStatus,
    /// A reference memory address for the process's stacks.
    _memory_base: usize,
}

/// An error that may occur when creating a process control block.
#[derive(Debug, Clone, Copy, PartialEq, Eq, Structural)]
pub enum ProcessControlBlockCreationError {
    /// Failed to reserve space for the initial thread of this process.
    CouldNotClaimMainThread(ResourceClaimError),
    /// Initial thread of this process has a non-zero id somehow.
    MainThreadHasNonZeroID,
}

/// A ready thread aged by one consideration: its need grew by its
/// priority. Any other thread is unchanged.
pub open spec fn thread_aged(t: ThreadControlBlock) -> ThreadControlBlock {
    if t.spec_state() == ThreadState::Ready {
        t.with_scheduling(
            ThreadState::Ready,
            t.spec_pc(),
            (t.spec_need() + t.spec_priority()) as u32,
        )
    } else {
        t
    }
}

/// A thread slot after one consideration pass.
pub open spec fn slot_aged(s: Option<ThreadControlBlock>) -> Option<ThreadControlBlock> {
    match s {
        Some(t) => Some(thread_aged(t)),
        None => None,
    }
}

/// No considered thread overflows its need when aged.
pub open spec fn threads_age_safely(threads: Seq<Option<ThreadControlBlock>>) -> bool {
    forall|t: int|
        0 <= t < threads.len() ==> (#[trigger] threads[t] matches Some(th) ==> th.spec_need()
            + th.spec_priority() <= u32::MAX)
}

/// The candidate after folding the first `k` thread slots of process
/// `pidx` through consideration, starting from `acc`: each ready thread
/// competes at its current need, which must strictly exceed the best
/// seen to replace it.
pub open spec fn choose_prefix(
    threads: Seq<Option<ThreadControlBlock>>,
    pidx: int,
    k: int,
    acc: (u32, Option<ThreadHandle>),
) -> (u32, Option<ThreadHandle>)
    decreases k,
{
    if k <= 0 {
        acc
    } else {
        let prev = choose_prefix(threads, pidx, k - 1, acc);
        match threads[k - 1] {
            Some(t) => match t.consider_spec(prev.0) {
                Some(winning_need) => (
                    winning_need,
                    Some(
                        ThreadHandle {
                            process_index: pidx as usize,
                            thread_index: (k - 1) as usize,
                        },
                    ),
                ),
                None => prev,
            },
            None => prev,
        }
    }
}

impl ProcessControlBlock {
    /// The process's unique id.
    pub closed spec fn spec_id(&self) -> u16 {
        self._id
    }

    /// The process's thread slots.
    pub closed spec fn spec_threads(&self) -> Seq<Option<ThreadControlBlock>> {
        self.threads@
    }

    /// The process's priority.
    pub closed spec fn spec_priority(&self) -> u16 {
        self._priority
    }

    /// The process's status.
    pub closed spec fn spec_status(&self) -> ProcessStatus {
        self.status
    }

    /// The process's memory base.
    pub closed spec fn spec_memory_base(&self) -> usize {
        self._memory_base
    }

    /// Creates a new process control block, with entry function address
    /// `main` and the entry thread in slot zero. `exit_shim` is the
    /// address of the exit syscall shim for the entry thread's return
    /// address.
    pub fn new(main: usize, id: u16, priority: u16, memory_base: usize, exit_shim: usize) -> (r:
        Result<Self, ProcessControlBlockCreationError>)
        ensures
            r matches Ok(p) && {
                &&& p.spec_id() == id
                &&& p.spec_priority() == priority
                &&& p.spec_status() == ProcessStatus::Ready
                &&& p.spec_memory_base() == memory_base
                &&& p.spec_threads().len() == MAX_THREADS
                &&& p.spec_threads()[0] matches Some(t0) && {
                    &&& t0.spec_state() == ThreadState::Ready
                    &&& t0.spec_pc() == main
                    &&& t0.spec_id() == 0
                    &&& t0.spec_priority() == priority
                    &&& t0.spec_need() == priority as u32
                    &&& t0.spec_owning_process_id() == id
                    &&& t0.spec_registers() == (crate::context::RegisterContext {
                        sp: memory_base,
                        ra: exit_shim,
                        ..crate::context::RegisterContext::spec_zero()
                    })
                }
                &&& forall|j: int| 1 <= j < MAX_THREADS ==> p.spec_threads()[j] is None
            },
    {
        let mut empty = Self {
            _id: id,
            threads: ResourceManager::new([None, None]),
            _priority: priority,
            status: ProcessStatus::Ready,
            _memory_base: memory_base,
        };

        match empty.threads.claim_first(
            Some(ThreadControlBlock::new(main, 0, priority, memory_base, id, exit_shim)),
        ) {
            Ok(index) => match index {
                0 => Ok(empty),
                _ => Err(ProcessControlBlockCreationError::MainThreadHasNonZeroID),
            },
            Err(err) => Err(ProcessControlBlockCreationError::CouldNotClaimMainThread(err)),
        }
    }

    /// The thread table always has its fixed capacity of slots, so the
    /// selection fold's contract ranges over all of them.
    pub proof fn lemma_threads_capacity(&self)
        ensures
            self.spec_threads().len() == MAX_THREADS,
    {
    }

    /// Returns the thread slot at `index` for mutation: the path the trap
    /// loop takes from a [`ThreadHandle`] to its thread.
    pub fn thread_mut(&mut self, index: usize) -> (r: &mut Option<ThreadControlBlock>)
        requires
            index < MAX_THREADS,
        ensures
            *r == old(self).spec_threads()[index as int],
            final(self).spec_threads() == old(self).spec_threads().update(
                index as int,
                *final(r),
            ),
            final(self).spec_id() == old(self).spec_id(),
            final(self).spec_priority() == old(self).spec_priority(),
            final(self).spec_status() == old(self).spec_status(),
            final(self).spec_memory_base() == old(self).spec_memory_base(),
    {
        self.threads.get_absolute_mut(index)
    }

    /// Chooses a thread from among the threads owned by this process,
    /// aging every ready thread by one consideration. `self_index` is this
    /// process's index in the process table, recorded in the winning
    /// handle.
    ///
    /// The kernel claims each thread's handle lock while considering it
    /// and skips threads whose handle is already out; on a single hart no
    /// handle is outstanding when the scheduler runs, so claiming is
    /// deferred to the activation path.
    pub fn choose_thread(&mut self, self_index: usize, candidate: CandidateThread) -> (r: CandidateThread)
        requires
            threads_age_safely(old(self).spec_threads()),
        ensures
            process_aged_to(*old(self), *final(self)),
            (r.best, r.handle) == choose_prefix(
                old(self).spec_threads(),
                self_index as int,
                MAX_THREADS as int,
                (candidate.best, candidate.handle),
            ),
    {
        broadcast use ThreadControlBlock::lemma_with_scheduling;

        let mut best = candidate.best;
        let mut handle = candidate.handle;
        let ghost snapshot = *old(self);
        let mut t: usize = 0;
        while t < MAX_THREADS
            invariant
                t <= MAX_THREADS,
                threads_age_safely(snapshot.spec_threads()),
                snapshot.spec_threads().len() == MAX_THREADS,
                self.spec_threads().len() == MAX_THREADS,
                (best, handle) == choose_prefix(
                    snapshot.spec_threads(),
                    self_index as int,
                    t as int,
                    (candidate.best, candidate.handle),
                ),
                forall|j: int|
                    0 <= j < t ==> self.spec_threads()[j] == slot_aged(
                        #[trigger] snapshot.spec_threads()[j],
                    ),
                forall|j: int|
                    t <= j < MAX_THREADS ==> self.spec_threads()[j]
                        == snapshot.spec_threads()[j],
                self.spec_id() == snapshot.spec_id(),
                self.spec_priority() == snapshot.spec_priority(),
                self.spec_status() == snapshot.spec_status(),
                self.spec_memory_base() == snapshot.spec_memory_base(),
            decreases MAX_THREADS - t,
        {
            broadcast use ThreadControlBlock::lemma_with_scheduling;

            proof {
                assert(self.spec_threads()[t as int] == snapshot.spec_threads()[t as int]);
                assert(snapshot.spec_threads()[t as int] matches Some(th) ==> th.spec_need()
                    + th.spec_priority() <= u32::MAX);
            }
            let slot = self.threads.get_absolute_mut(t);
            match slot {
                Some(thread) => {
                    match thread.consider(best) {
                        Some(new_best) => {
                            best = new_best;
                            handle = Some(
                                ThreadHandle { process_index: self_index, thread_index: t },
                            );
                        },
                        None => {},
                    }
                },
                None => {},
            }
            t += 1;
        }
        proof {
            assert(self.spec_threads() =~= Seq::new(
                snapshot.spec_threads().len(),
                |j: int| slot_aged(snapshot.spec_threads()[j]),
            ));
        }
        CandidateThread::new(best, handle)
    }
}

impl Resource for Option<ProcessControlBlock> {
    /// An empty slot or a zombie process is exhausted.
    open spec fn spec_exhausted(&self) -> bool {
        match self {
            None => true,
            Some(process) => process.spec_status() == ProcessStatus::_Zombie,
        }
    }

    fn exhausted(&self) -> (r: bool) {
        match self {
            None => true,
            Some(process) => matches!(process.status, ProcessStatus::_Zombie),
        }
    }
}

/// Every thread of every ready process ages without overflowing its need.
pub open spec fn processes_age_safely(procs: Seq<Option<ProcessControlBlock>>) -> bool {
    forall|p: int|
        0 <= p < procs.len() ==> (#[trigger] procs[p] matches Some(pcb) ==> threads_age_safely(
            pcb.spec_threads(),
        ))
}

/// `after` is `before` with all its ready threads aged by one
/// consideration and everything else unchanged.
pub open spec fn process_aged_to(
    before: ProcessControlBlock,
    after: ProcessControlBlock,
) -> bool {
    &&& after.spec_threads() == Seq::new(
        before.spec_threads().len(),
        |t: int| slot_aged(before.spec_threads()[t]),
    )
    &&& after.spec_id() == before.spec_id()
    &&& after.spec_priority() == before.spec_priority()
    &&& after.spec_status() == before.spec_status()
    &&& after.spec_memory_base() == before.spec_memory_base()
}

/// A process slot after one selection pass: a ready process has all its
/// ready threads aged; a zombie process and an empty slot are untouched.
pub open spec fn process_slot_aged_to(
    before: Option<ProcessControlBlock>,
    after: Option<ProcessControlBlock>,
) -> bool {
    match before {
        None => after is None,
        Some(bp) => after matches Some(ap) && if bp.spec_status() == ProcessStatus::Ready {
            process_aged_to(bp, ap)
        } else {
            ap == bp
        },
    }
}

/// The candidate after folding the first `k` process slots through
/// [`ProcessControlBlock::choose_thread`], starting from `acc`.
pub open spec fn choose_processes(
    procs: Seq<Option<ProcessControlBlock>>,
    k: int,
    acc: (u32, Option<ThreadHandle>),
) -> (u32, Option<ThreadHandle>)
    decreases k,
{
    if k <= 0 {
        acc
    } else {
        let prev = choose_processes(procs, k - 1, acc);
        match procs[k - 1] {
            Some(p) => if p.spec_status() == ProcessStatus::Ready {
                choose_prefix(p.spec_threads(), k - 1, MAX_THREADS as int, prev)
            } else {
                prev
            },
            None => prev,
        }
    }
}

impl<const SIZE: usize> ResourceManager<Option<ProcessControlBlock>, SIZE> {
    /// Chooses a thread from among a pool of processes, aging every ready
    /// thread of every ready process, and returns a handle to the winner,
    /// or `None` when the entire system has no runnable thread.
    pub fn choose_next_thread(&mut self) -> (r: Option<ThreadHandle>)
        requires
            processes_age_safely(old(self)@),
        ensures
            final(self)@.len() == old(self)@.len(),
            forall|p: int|
                0 <= p < SIZE ==> process_slot_aged_to(old(self)@[p], #[trigger] final(self)@[p]),
            r == choose_processes(old(self)@, SIZE as int, (0u32, None::<ThreadHandle>)).1,
    {
        let mut candidate = CandidateThread::default();
        let ghost snapshot = *old(self);
        let mut p: usize = 0;
        while p < SIZE
            invariant
                p <= SIZE,
                processes_age_safely(snapshot@),
                snapshot@.len() == SIZE,
                self@.len() == SIZE,
                (candidate.best, candidate.handle) == choose_processes(
                    snapshot@,
                    p as int,
                    (0u32, None::<ThreadHandle>),
                ),
                forall|j: int|
                    0 <= j < p ==> process_slot_aged_to(snapshot@[j], #[trigger] self@[j]),
                forall|j: int| p <= j < SIZE ==> self@[j] == snapshot@[j],
            decreases SIZE - p,
        {
            proof {
                assert(self@[p as int] == snapshot@[p as int]);
                assert(snapshot@[p as int] matches Some(pcb0) ==> threads_age_safely(
                    pcb0.spec_threads(),
                ));
            }
            let slot = self.get_absolute_mut(p);
            match slot {
                Some(pcb) => {
                    if !matches!(pcb.status, ProcessStatus::_Zombie) {
                        let prior = CandidateThread::new(candidate.best, candidate.handle);
                        candidate = pcb.choose_thread(p, prior);
                    }
                },
                None => {},
            }
            p += 1;
        }
        candidate.handle
    }
}

/// The aging discipline behind scheduling fairness: one selection pass
/// compares every ready thread at its current need and ages it by its
/// priority, and the winning need is at least the starting one and at
/// least the need of every ready thread considered — the selected thread
/// has the greatest need, while everyone passed over keeps growing. (A
/// fixed window of `max priority / min priority` activations is still
/// not enough to run every thread: with three ready threads of
/// priorities 1, 10 and 10, the two fast threads trade places while the
/// slow one's need climbs by one per round, and it first wins around
/// twice the stated window.)
pub proof fn lemma_choose_prefix_dominates(
    threads: Seq<Option<ThreadControlBlock>>,
    pidx: int,
    k: int,
    acc: (u32, Option<ThreadHandle>),
)
    requires
        k <= threads.len(),
    ensures
        choose_prefix(threads, pidx, k, acc).0 >= acc.0,
        forall|t: int|
            0 <= t < k ==> (#[trigger] threads[t] matches Some(th) ==> (th.spec_state()
                == ThreadState::Ready ==> choose_prefix(threads, pidx, k, acc).0
                >= th.spec_need())),
    decreases k,
{
    if k > 0 {
        lemma_choose_prefix_dominates(threads, pidx, k - 1, acc);
    }
}

/// What folding one process's threads can hand back: either the
/// accumulator unchanged, or a handle naming a ready thread of this
/// process whose need is the new, strictly larger score.
pub proof fn lemma_choose_prefix_sound(
    threads: Seq<Option<ThreadControlBlock>>,
    pidx: int,
    k: int,
    acc: (u32, Option<ThreadHandle>),
)
    requires
        k <= threads.len(),
        0 <= pidx <= usize::MAX,
        k <= usize::MAX,
    ensures
        choose_prefix(threads, pidx, k, acc) == acc || (choose_prefix(threads, pidx, k, acc).1
            matches Some(h) && {
            let r = choose_prefix(threads, pidx, k, acc);
            &&& h.process_index == pidx
            &&& 0 <= h.thread_index < k
            &&& threads[h.thread_index as int] matches Some(t) && t.spec_state()
                == ThreadState::Ready && t.spec_need() == r.0
            &&& r.0 > acc.0
        }),
    decreases k,
{
    if k > 0 {
        lemma_choose_prefix_sound(threads, pidx, k - 1, acc);
    }
}

/// The winning score of a whole selection pass dominates the needs of
/// all ready threads in all ready processes considered.
pub proof fn lemma_choose_processes_dominates(
    procs: Seq<Option<ProcessControlBlock>>,
    k: int,
    acc: (u32, Option<ThreadHandle>),
)
    requires
        k <= procs.len(),
        k <= usize::MAX,
    ensures
        choose_processes(procs, k, acc).0 >= acc.0,
        forall|p: int, t: int|
            #![trigger procs[p]->Some_0.spec_threads()[t]]
            0 <= p < k && 0 <= t < MAX_THREADS && procs[p] is Some
                && procs[p]->Some_0.spec_status() == ProcessStatus::Ready
                && procs[p]->Some_0.spec_threads()[t] is Some
                && procs[p]->Some_0.spec_threads()[t]->Some_0.spec_state() == ThreadState::Ready
                ==> choose_processes(procs, k, acc).0
                >= procs[p]->Some_0.spec_threads()[t]->Some_0.spec_need(),
    decreases k,
{
    broadcast use ResourceManager::lemma_view_len;

    if k > 0 {
        lemma_choose_processes_dominates(procs, k - 1, acc);
        let prev = choose_processes(procs, k - 1, acc);
        if procs[k - 1] is Some {
            let pcb = procs[k - 1]->Some_0;
            if pcb.spec_status() == ProcessStatus::Ready {
                pcb.lemma_threads_capacity();
                lemma_choose_prefix_dominates(pcb.spec_threads(), k - 1, MAX_THREADS as int, prev);
                lemma_choose_prefix_sound(pcb.spec_threads(), k - 1, MAX_THREADS as int, prev);
            }
        }
    }
}

/// What a whole selection pass hands back: a handle always names a
/// ready thread of a ready process whose need is the winning score —
/// the largest among all ready threads considered — and no handle comes
/// back only when every such thread's need is zero. (The kernel skips
/// threads whose handle is already claimed; on one hart no handle is
/// outstanding while the scheduler runs, so nothing is skipped here.)
pub proof fn lemma_selection_sound(procs: Seq<Option<ProcessControlBlock>>, size: int)
    requires
        0 <= size <= procs.len(),
        size <= usize::MAX,
    ensures
        ({
            let r = choose_processes(procs, size, (0u32, None::<ThreadHandle>));
            &&& (r.1 matches Some(h) ==> {
                &&& 0 <= h.process_index < size
                &&& procs[h.process_index as int] matches Some(pcb) && pcb.spec_status()
                    == ProcessStatus::Ready
                &&& 0 <= h.thread_index < MAX_THREADS
                &&& procs[h.process_index as int]->Some_0.spec_threads()[h.thread_index as int]
                    matches Some(th) && th.spec_state() == ThreadState::Ready && th.spec_need()
                    == r.0
            })
            &&& (r.1 is None ==> forall|p: int, t: int|
                #![trigger procs[p]->Some_0.spec_threads()[t]]
                0 <= p < size && 0 <= t < MAX_THREADS && procs[p] is Some
                    && procs[p]->Some_0.spec_status() == ProcessStatus::Ready
                    && procs[p]->Some_0.spec_threads()[t] is Some
                    && procs[p]->Some_0.spec_threads()[t]->Some_0.spec_state()
                    == ThreadState::Ready
                    ==> procs[p]->Some_0.spec_threads()[t]->Some_0.spec_need() == 0)
        }),
    decreases size,
{
    lemma_choose_processes_sound(procs, size, (0u32, None::<ThreadHandle>));
    lemma_choose_processes_dominates(procs, size, (0u32, None::<ThreadHandle>));
    let r = choose_processes(procs, size, (0u32, None::<ThreadHandle>));
    if r.1 is None {
        // No thread ever beat the zero score, and the winning score
        // dominates every ready need.
        assert(r == (0u32, None::<ThreadHandle>));
    }
}

/// What folding the whole process table can hand back: either the
/// accumulator unchanged, or a handle naming a ready thread of a ready
/// process whose need is the new, strictly larger score.
pub proof fn lemma_choose_processes_sound(
    procs: Seq<Option<ProcessControlBlock>>,
    k: int,
    acc: (u32, Option<ThreadHandle>),
)
    requires
        k <= procs.len(),
        k <= usize::MAX,
    ensures
        choose_processes(procs, k, acc) == acc || (choose_processes(procs, k, acc).1
            matches Some(h) && {
            let r = choose_processes(procs, k, acc);
            &&& 0 <= h.process_index < k
            &&& procs[h.process_index as int] matches Some(pcb) && pcb.spec_status()
                == ProcessStatus::Ready
            &&& 0 <= h.thread_index < MAX_THREADS
            &&& procs[h.process_index as int]->Some_0.spec_threads()[h.thread_index as int]
                matches Some(th) && th.spec_state() == ThreadState::Ready && th.spec_need() == r.0
            &&& r.0 > acc.0
        }),
    decreases k,
{
    broadcast use ResourceManager::lemma_view_len;

    if k > 0 {
        lemma_choose_processes_sound(procs, k - 1, acc);
        let prev = choose_processes(procs, k - 1, acc);
        if procs[k - 1] is Some {
            let pcb = procs[k - 1]->Some_0;
            if pcb.spec_status() == ProcessStatus::Ready {
                pcb.lemma_threads_capacity();
                lemma_choose_prefix_sound(pcb.spec_threads(), k - 1, MAX_THREADS as int, prev);
            }
        }
    }
}

} // verus!
