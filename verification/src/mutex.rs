//! A FIFO mutex whose guard may be held across a yield.
//!
//! Unlike a blocking lock, acquisition under contention parks the caller
//! after recording it in the mutex's wait queue; the holder's unlock
//! hands the first waiter back to the scheduler.  The model makes the
//! exclusivity structural: the protected value moves into the guard on
//! acquisition and back on release, so while the mutex is locked there is
//! nothing left in it to hand out, and a second acquisition can only
//! fail or wait.

use vstd::prelude::*;

use crate::context::ThreadId;

verus! {

/// The error of a failed non-blocking acquisition: the lock is held.
#[derive(Debug, Clone, Copy, PartialEq, Eq, Structural)]
pub struct TryLockError;

impl TryLockError {
    /// The diagnostic text of this error.
    pub fn message(&self) -> (r: &'static str)
        ensures
            r@ =~= "try_lock failed because the operation would block"@,
    {
        "try_lock failed because the operation would block"
    }
}

/// The lock token: holds the protected value for as long as the lock is
/// held.  Handing it back to [`Mutex::unlock`] releases the lock.
#[derive(Debug)]
pub struct MutexGuard<T> {
    pub value: T,
}

impl<T> MutexGuard<T> {
    /// The protected value.
    pub fn get(&self) -> (r: &T)
        ensures
            *r == self.value,
    {
        &self.value
    }

    /// The protected value, writable.
    pub fn get_mut(&mut self) -> (r: &mut T)
        ensures
            *r == old(self).value,
            *final(self) == (MutexGuard { value: *final(r) }),
    {
        &mut self.value
    }
}

/// The FIFO mutex: the protected value while unlocked, and the threads
/// waiting to acquire, in arrival order.
pub struct Mutex<T> {
    pub value: Option<T>,
    pub waiters: Vec<ThreadId>,
}

impl<T> Mutex<T> {
    /// Whether the lock is held: exactly when the value is out in a
    /// guard.
    pub open spec fn locked(self) -> bool {
        self.value is None
    }

    /// A fresh, unlocked mutex around `value`.
    pub fn new(value: T) -> (m: Mutex<T>)
        ensures
            !m.locked(),
            m.value == Some(value),
            m.waiters@.len() == 0,
    {
        Mutex { value: Some(value), waiters: Vec::new() }
    }

    /// Attempts to acquire without waiting: succeeds exactly when the
    /// lock is free, moving the value into the returned guard.
    pub fn try_lock(&mut self) -> (r: Result<MutexGuard<T>, TryLockError>)
        ensures
            old(self).locked() ==> r == Err::<MutexGuard<T>, TryLockError>(TryLockError)
                && *final(self) == *old(self),
            !old(self).locked() ==> ({
                &&& r matches Ok(g) && g.value == old(self).value->0
                &&& final(self).locked()
                &&& final(self).waiters@ == old(self).waiters@
            }),
    {
        match self.value.take() {
            None => Err(TryLockError),
            Some(value) => Ok(MutexGuard { value }),
        }
    }

    /// One turn of a contended acquisition: take the lock when free,
    /// otherwise join the wait queue — once — and report that the caller
    /// should park until the holder's unlock wakes it.
    pub fn lock_step(&mut self, me: ThreadId) -> (r: Result<MutexGuard<T>, TryLockError>)
        ensures
            !old(self).locked() ==> ({
                &&& r matches Ok(g) && g.value == old(self).value->0
                &&& final(self).locked()
                &&& final(self).waiters@ == old(self).waiters@
            }),
            old(self).locked() ==> ({
                &&& r == Err::<MutexGuard<T>, TryLockError>(TryLockError)
                &&& final(self).locked()
                &&& final(self).waiters@ == (if old(self).waiters@.contains(me) {
                    old(self).waiters@
                } else {
                    old(self).waiters@.push(me)
                })
            }),
    {
        match self.try_lock() {
            Ok(g) => Ok(g),
            Err(e) => {
                if !contains_thread(&self.waiters, me) {
                    self.waiters.push(me);
                }
                Err(e)
            },
        }
    }

    /// Releases the lock: the guard's value moves back into the mutex,
    /// and the earliest waiter — if any — is handed back so the caller
    /// can unpark it.  The queue is FIFO: waiters acquire in arrival
    /// order.
    pub fn unlock(&mut self, guard: MutexGuard<T>) -> (waiter: Option<ThreadId>)
        requires
            old(self).locked(),
        ensures
            !final(self).locked(),
            final(self).value == Some(guard.value),
            old(self).waiters@.len() == 0 ==> waiter is None && final(self).waiters@ == old(
                self,
            ).waiters@,
            old(self).waiters@.len() > 0 ==> waiter == Some(old(self).waiters@[0]) && final(self).waiters@ == old(self).waiters@.subrange(1, old(self).waiters@.len() as int),
    {
        self.value = Some(guard.value);
        if self.waiters.len() == 0 {
            None
        } else {
            let w = self.waiters.remove(0);
            proof {
                assert(old(self).waiters@.remove(0) =~= old(self).waiters@.subrange(
                    1,
                    old(self).waiters@.len() as int,
                ));
            }
            Some(w)
        }
    }

    /// The protected value, writable — callable whenever the caller has
    /// exclusive access to the mutex itself, which rules out a live
    /// guard.
    pub fn get_mut(&mut self) -> (r: &mut T)
        requires
            !old(self).locked(),
        ensures
            *r == old(self).value->0,
            final(self).value == Some(*final(r)),
            final(self).waiters@ == old(self).waiters@,
            !final(self).locked(),
    {
        match &mut self.value {
            Some(v) => v,
            None => vstd::pervasive::unreached(),
        }
    }

    /// Consumes the mutex and hands back the protected value.
    pub fn into_inner(self) -> (r: T)
        requires
            !self.locked(),
        ensures
            r == self.value->0,
    {
        match self.value {
            Some(v) => v,
            None => vstd::pervasive::unreached(),
        }
    }
}

impl<T: Default> Default for Mutex<T> {
    /// A fresh, unlocked mutex around the value type's default.
    fn default() -> (m: Mutex<T>)
        ensures
            !m.locked(),
            m.waiters@.len() == 0,
    {
        Mutex::new(T::default())
    }
}

/// Whether `waiters` already records `t`.
fn contains_thread(waiters: &Vec<ThreadId>, t: ThreadId) -> (r: bool)
    ensures
        r <==> waiters@.contains(t),
{
    let mut i: usize = 0;
    while i < waiters.len()
        invariant
            i <= waiters@.len(),
            forall|k: int| 0 <= k < i ==> waiters@[k] != t,
        decreases waiters@.len() - i,
    {
        if waiters[i].0 == t.0 {
            proof {
                assert(waiters@[i as int] == t);
            }
            return true;
        }
        i = i + 1;
    }
    false
}

} // verus!
