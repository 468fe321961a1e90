//! One-shot notifications between threads: a `Sender` raises a flag once and
//! wakes the threads that wait on the paired `Receiver`s.

use std::sync::{Arc, Condvar, Mutex, MutexGuard};
use vstd::prelude::*;

verus! {

#[verifier::external_type_specification]
#[verifier::external_body]
#[verifier::reject_recursive_types(T)]
pub struct ExMutex<T: ?Sized>(Mutex<T>);

#[verifier::external_type_specification]
#[verifier::external_body]
#[verifier::reject_recursive_types(T)]
pub struct ExMutexGuard<'a, T: ?Sized + 'a>(MutexGuard<'a, T>);

#[verifier::external_type_specification]
#[verifier::external_body]
pub struct ExCondvar(Condvar);

/// The state that a sender and its receivers share: the "ready" flag and the
/// condition variable that waiters sleep on.
pub type Shared = (Mutex<bool>, Condvar);

/// Calls `Mutex::new`: a new unlocked mutex holding `value`.
#[verifier::external_body]
fn new_mutex(value: bool) -> Mutex<bool> {
    Mutex::new(value)
}

/// Calls `Condvar::new`: a condition variable nobody waits on yet.
#[verifier::external_body]
fn new_condvar() -> Condvar {
    Condvar::new()
}

/// Calls `Arc::clone`: a second handle to the same shared value, which is
/// therefore equal to the first.
#[verifier::external_body]
fn share(arc: &Arc<Shared>) -> (r: Arc<Shared>)
    ensures
        *r == **arc,
{
    arc.clone()
}

/// Calls `Mutex::lock` and unwraps the result: blocks until this thread holds
/// the lock. The standard library fails the call when another holder of the
/// lock panicked while holding it; no code of this module panics while it
/// holds the lock.
#[verifier::external_body]
fn lock_flag(mutex: &Mutex<bool>) -> MutexGuard<'_, bool> {
    mutex.lock().unwrap()
}

/// Writes `value` into the locked flag (`DerefMut` of `MutexGuard`).
#[verifier::external_body]
fn set_flag(guard: &mut MutexGuard<'_, bool>, value: bool) {
    **guard = value;
}

/// Calls `Condvar::notify_all`: wakes every thread waiting on the condition
/// variable.
#[verifier::external_body]
fn wake_all(condvar: &Condvar) {
    condvar.notify_all()
}

/// Calls `Condvar::notify_one`: wakes one thread waiting on the condition
/// variable, if any.
#[verifier::external_body]
fn wake_one(condvar: &Condvar) {
    condvar.notify_one()
}

/// Whether a waiter must keep waiting: the flag is not raised yet.
fn still_waiting(ready: &mut bool) -> (r: bool)
    ensures
        r == !*old(ready),
        *final(ready) == *old(ready),
{
    !*ready
}

/// Calls `Condvar::wait_while` with `still_waiting` and unwraps the result:
/// releases the lock and sleeps until woken with the flag raised, then holds
/// the lock again. Fails, as `lock_flag` does, only after a panic of another
/// holder of the lock.
#[verifier::external_body]
fn wait_until_raised<'a>(condvar: &Condvar, guard: MutexGuard<'a, bool>) -> MutexGuard<'a, bool> {
    condvar.wait_while(guard, |ready| still_waiting(ready)).unwrap()
}

/// Raises the notification flag.
pub struct Sender(Arc<Shared>);

/// Waits for the notification flag.
#[derive(Clone)]
pub struct Receiver(Arc<Shared>);

impl Sender {
    /// The state this sender raises.
    pub closed spec fn shared(&self) -> Shared {
        *self.0
    }

    /// Raises the flag and wakes every waiting receiver.
    #[inline]
    pub fn notify_all(&self) {
        let mutex = &self.0.0;
        let condvar = &self.0.1;
        let mut ready = lock_flag(mutex);
        set_flag(&mut ready, true);
        wake_all(condvar)
    }

    /// Raises the flag and wakes one waiting receiver.
    #[inline]
    pub fn notify_one(&self) {
        let mutex = &self.0.0;
        let condvar = &self.0.1;
        let mut ready = lock_flag(mutex);
        set_flag(&mut ready, true);
        wake_one(condvar)
    }
}

impl Receiver {
    /// The state this receiver waits on.
    pub closed spec fn shared(&self) -> Shared {
        *self.0
    }

    /// Blocks the calling thread until the flag is raised.
    #[inline]
    pub fn wait(&self) {
        let mutex = &self.0.0;
        let condvar = &self.0.1;
        let ready = lock_flag(mutex);
        let _ready = wait_until_raised(condvar, ready);
    }
}

/// Creates a new notification: a sender and a receiver that share one flag,
/// not raised yet.
pub fn notification() -> (r: (Sender, Receiver))
    ensures
        r.0.shared() == r.1.shared(),
{
    let arc = Arc::new((new_mutex(false), new_condvar()));
    (Sender(share(&arc)), Receiver(arc))
}

} // verus!
