//! Spin lock and mutex.
//!
//! The kernel is single-hart: no other core can race a lock while one of
//! these functions runs. The lock is therefore modelled as a plain boolean
//! whose transitions mirror the results of the compare-and-swaps the
//! kernel issues, and the mutex hands its guarded value out by moving it
//! into a guard and taking it back on release. A guard belongs to the
//! mutex it came from: the release contracts describe what returning it
//! there does.

use vstd::prelude::*;

verus! {

/// A lock primitive for synchronization.
pub struct Lock {
    /// Whether this lock is currently held.
    claimed: bool,
}

/// A guard around an object of type `T` that synchronizes all accesses
/// with a lock.
pub struct Mutex<T> {
    /// The object being guarded by this mutex; `None` exactly while a
    /// guard holds it.
    guarded: Option<T>,
    /// A lock to synchronize accesses with.
    lock: Lock,
}

/// A held mutex, granting mutable access to the guarded data. Return it
/// with [`Mutex::release_mut`] so other callers can take the mutex again.
pub struct MutexGuardMut<T> {
    /// The guarded value, owned for the duration of the guard.
    value: T,
}

/// A held mutex, granting read access to the guarded data. Return it
/// with [`Mutex::release`] so other callers can take the mutex again.
pub struct MutexGuard<T> {
    /// The guarded value, owned for the duration of the guard.
    value: T,
}

/// An error that may occur when claiming a mutex.
#[derive(Debug, Clone, Copy, PartialEq, Eq, Structural)]
pub enum MutexLockError {
    /// The mutex is already held.
    AlreadyHeld,
}

impl Lock {
    /// True if this lock is currently held.
    pub closed spec fn spec_held(&self) -> bool {
        self.claimed
    }

    /// Creates a new lock, which is initially not held.
    pub fn new() -> (r: Self)
        ensures
            !r.spec_held(),
    {
        Self { claimed: false }
    }

    /// Tries to claim this lock. As with a compare-and-swap from `false`
    /// to `true`, success returns `Ok` with the prior value `false`, and
    /// failure returns `Err` with the actual value `true`.
    pub fn claim(&mut self) -> (r: Result<bool, bool>)
        ensures
            final(self).spec_held(),
            r == if old(self).spec_held() {
                Err::<bool, bool>(true)
            } else {
                Ok::<bool, bool>(false)
            },
    {
        if self.claimed {
            Err(true)
        } else {
            self.claimed = true;
            Ok(false)
        }
    }

    /// Repeatedly tries to claim this lock until successful. On a single
    /// hart nothing can release the lock during the spin, so the lock must
    /// not be held on entry: the spin would exhaust its attempts and be
    /// fatal.
    pub fn claim_blocking(&mut self)
        requires
            !old(self).spec_held(),
        ensures
            final(self).spec_held(),
    {
        let claimed = self.claim();
        assert(claimed is Ok);
    }

    /// Tries to release this lock. As with a compare-and-swap from `true`
    /// to `false`, success returns `Ok` with the prior value `true`, and
    /// failure returns `Err` with the actual value `false`.
    pub fn release(&mut self) -> (r: Result<bool, bool>)
        ensures
            !final(self).spec_held(),
            r == if old(self).spec_held() {
                Ok::<bool, bool>(true)
            } else {
                Err::<bool, bool>(false)
            },
    {
        if self.claimed {
            self.claimed = false;
            Ok(true)
        } else {
            Err(false)
        }
    }

    /// Returns `true` if this lock is currently held.
    pub fn is_held(&self) -> (r: bool)
        ensures
            r == self.spec_held(),
    {
        self.claimed
    }
}

impl<T> MutexGuardMut<T> {
    /// The guarded value.
    pub closed spec fn spec_value(&self) -> T {
        self.value
    }

    /// Reads the guarded value.
    pub fn get(&self) -> (r: &T)
        ensures
            *r == self.spec_value(),
    {
        &self.value
    }

    /// Replaces the guarded value, returning the previous one.
    pub fn replace(&mut self, value: T) -> (r: T)
        ensures
            r == old(self).spec_value(),
            final(self).spec_value() == value,
    {
        let mut value = value;
        core::mem::swap(&mut self.value, &mut value);
        value
    }

    /// Consumes the guard without releasing the mutex, yielding the value.
    /// The mutex stays held forever afterwards; prefer
    /// [`Mutex::release_mut`].
    pub fn into_inner(self) -> (r: T)
        ensures
            r == self.spec_value(),
    {
        self.value
    }
}

impl<T> MutexGuard<T> {
    /// The guarded value.
    pub closed spec fn spec_value(&self) -> T {
        self.value
    }

    /// Reads the guarded value.
    pub fn get(&self) -> (r: &T)
        ensures
            *r == self.spec_value(),
    {
        &self.value
    }
}

impl<T> Mutex<T> {
    /// Well-formed: the value is present exactly while no guard is out.
    pub closed spec fn wf(&self) -> bool {
        self.guarded is Some <==> !self.lock.spec_held()
    }

    /// True if this mutex's internal lock is currently held.
    pub closed spec fn spec_held(&self) -> bool {
        self.lock.spec_held()
    }

    /// The guarded value; meaningful only while the mutex is not held.
    pub closed spec fn spec_value(&self) -> T {
        self.guarded->Some_0
    }

    /// Creates a new mutex guarding `val`.
    pub fn new(val: T) -> (r: Self)
        ensures
            r.wf(),
            !r.spec_held(),
            r.spec_value() == val,
    {
        Self { guarded: Some(val), lock: Lock::new() }
    }

    /// Attempts to take the mutex for mutation, moving the guarded value
    /// into the returned guard. Errors if the mutex is already held.
    pub fn lock_mut(&mut self) -> (r: Result<MutexGuardMut<T>, MutexLockError>)
        requires
            old(self).wf(),
        ensures
            final(self).wf(),
            old(self).spec_held() ==> r == Err::<MutexGuardMut<T>, MutexLockError>(
                MutexLockError::AlreadyHeld,
            ) && *final(self) == *old(self),
            !old(self).spec_held() ==> final(self).spec_held() && (r matches Ok(g)
                && g.spec_value() == old(self).spec_value()),
    {
        match self.lock.claim() {
            Ok(_) => {
                let value = self.guarded.take().unwrap();
                Ok(MutexGuardMut { value })
            },
            Err(_) => Err(MutexLockError::AlreadyHeld),
        }
    }

    /// Attempts to take the mutex for reading, moving the guarded value
    /// into the returned guard. Errors if the mutex is already held.
    pub fn lock(&mut self) -> (r: Result<MutexGuard<T>, MutexLockError>)
        requires
            old(self).wf(),
        ensures
            final(self).wf(),
            old(self).spec_held() ==> r == Err::<MutexGuard<T>, MutexLockError>(
                MutexLockError::AlreadyHeld,
            ) && *final(self) == *old(self),
            !old(self).spec_held() ==> final(self).spec_held() && (r matches Ok(g)
                && g.spec_value() == old(self).spec_value()),
    {
        match self.lock.claim() {
            Ok(_) => {
                let value = self.guarded.take().unwrap();
                Ok(MutexGuard { value })
            },
            Err(_) => Err(MutexLockError::AlreadyHeld),
        }
    }

    /// Takes the mutex for mutation, spinning until successful. On a
    /// single hart the mutex must not be held on entry: the spin would
    /// exhaust its attempts and be fatal.
    pub fn lock_blocking_mut(&mut self) -> (r: MutexGuardMut<T>)
        requires
            old(self).wf(),
            !old(self).spec_held(),
        ensures
            final(self).wf(),
            final(self).spec_held(),
            r.spec_value() == old(self).spec_value(),
    {
        self.lock.claim_blocking();
        let value = self.guarded.take().unwrap();
        MutexGuardMut { value }
    }

    /// Takes the mutex for reading, spinning until successful. On a
    /// single hart the mutex must not be held on entry: the spin would
    /// exhaust its attempts and be fatal.
    pub fn lock_blocking(&mut self) -> (r: MutexGuard<T>)
        requires
            old(self).wf(),
            !old(self).spec_held(),
        ensures
            final(self).wf(),
            final(self).spec_held(),
            r.spec_value() == old(self).spec_value(),
    {
        self.lock.claim_blocking();
        let value = self.guarded.take().unwrap();
        MutexGuard { value }
    }

    /// Returns a mutable guard to the mutex it was taken from, storing its
    /// value back and releasing the lock.
    pub fn release_mut(&mut self, guard: MutexGuardMut<T>)
        requires
            old(self).wf(),
            old(self).spec_held(),
        ensures
            final(self).wf(),
            !final(self).spec_held(),
            final(self).spec_value() == guard.spec_value(),
    {
        self.guarded = Some(guard.value);
        let released = self.lock.release();
        assert(released is Ok);
    }

    /// Returns a read guard to the mutex it was taken from, storing its
    /// value back and releasing the lock.
    pub fn release(&mut self, guard: MutexGuard<T>)
        requires
            old(self).wf(),
            old(self).spec_held(),
        ensures
            final(self).wf(),
            !final(self).spec_held(),
            final(self).spec_value() == guard.spec_value(),
    {
        self.guarded = Some(guard.value);
        let released = self.lock.release();
        assert(released is Ok);
    }

    /// Returns `true` if this mutex's internal lock is currently held.
    pub fn is_held(&self) -> (r: bool)
        ensures
            r == self.spec_held(),
    {
        self.lock.is_held()
    }
}

} // verus!
