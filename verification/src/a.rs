//! A duplicate-friendly handle to one shared mutable value, backed by a
//! reference-counted reader/writer lock.

use vstd::prelude::*;
use std::sync::Arc;

verus! {

/// Declares parking_lot's raw reader/writer lock so that it can stand as a
/// type argument in signatures of this crate.
#[verifier::external_type_specification]
#[verifier::external_body]
pub struct ExRawRwLock(parking_lot::RawRwLock);

/// Declares lock_api's reader/writer lock (parking_lot::RwLock is an alias
/// of it) so that it can stand in fields and signatures of this crate.
#[verifier::external_type_specification]
#[verifier::external_body]
#[verifier::reject_recursive_types(R)]
#[verifier::reject_recursive_types(T)]
pub struct ExRwLock<R, T: ?Sized>(parking_lot::lock_api::RwLock<R, T>);

/// Holds parking_lot's reference-counted read guard, whose type declaration
/// Verus refuses (the struct's own generics carry a trait bound of
/// lock_api), so the guard stands in this hidden field instead.
#[verifier::external_body]
#[verifier::reject_recursive_types(T)]
struct RawReadGuard<T> {
    inner: parking_lot::ArcRwLockReadGuard<parking_lot::RawRwLock, T>,
}

/// Holds parking_lot's reference-counted write guard, hidden for the same
/// reason as the read guard.
#[verifier::external_body]
#[verifier::reject_recursive_types(T)]
struct RawWriteGuard<T> {
    inner: parking_lot::ArcRwLockWriteGuard<parking_lot::RawRwLock, T>,
}

/// A held shared lock on the value of an `A<T>`. While it is live no write
/// guard on the same value can be, so the value it shows cannot change;
/// dropping it releases the lock.
#[verifier::reject_recursive_types(T)]
pub struct ReadGuard<T> {
    raw: RawReadGuard<T>,
    lock_id: Ghost<Arc<parking_lot::RwLock<T>>>,
    value_seen: Ghost<T>,
}

/// A held exclusive lock on the value of an `A<T>`. While it is live no
/// other guard on the same value can be, so the value it protects is
/// exactly what this guard last left; dropping it releases the lock.
#[verifier::reject_recursive_types(T)]
pub struct WriteGuard<T> {
    raw: RawWriteGuard<T>,
    lock_id: Ghost<Arc<parking_lot::RwLock<T>>>,
    value_held: Ghost<T>,
}

impl<T> ReadGuard<T> {
    /// The lock this guard holds shared.
    pub closed spec fn lock(self) -> Arc<parking_lot::RwLock<T>> {
        self.lock_id@
    }

    /// The protected value as the acquisition found it; the shared lock
    /// holds it fixed while this guard lives.
    pub closed spec fn view(self) -> T {
        self.value_seen@
    }

    /// Relies on lock_api's `Deref` for `ArcRwLockReadGuard`: a shared
    /// reference to the value the lock protects, which is the value the
    /// acquisition found, unchanged while the guard is held.
    #[verifier::external_body]
    pub fn value(&self) -> (r: &T)
        ensures
            *r == self.view(),
    {
        &self.raw.inner
    }
}

impl<T> WriteGuard<T> {
    /// The lock this guard holds exclusively.
    pub closed spec fn lock(self) -> Arc<parking_lot::RwLock<T>> {
        self.lock_id@
    }

    /// The protected value as this guard last left it; on acquisition, the
    /// unknown value the previous holder left.
    pub closed spec fn view(self) -> T {
        self.value_held@
    }

    /// Relies on lock_api's `Deref` for `ArcRwLockWriteGuard`: a shared
    /// reference to the value the lock protects, which only this guard can
    /// have written.
    #[verifier::external_body]
    pub fn value(&self) -> (r: &T)
        ensures
            *r == self.view(),
    {
        &self.raw.inner
    }

    /// Overwrites the value the lock protects with `value`.
    pub fn set(&mut self, value: T)
        ensures
            final(self).lock() == old(self).lock(),
            final(self).view() == value,
    {
        let r = guard_deref_mut(self);
        *r = value;
    }

    /// Calls `f` once on the value the lock protects. The protected value
    /// may be anything when the lock was taken, so `f` must accept every
    /// value of `T`; the guard is then left with whatever value `f`
    /// produced, a transition that meets `f`'s own postcondition.
    pub fn apply<F: FnOnce(&mut T)>(&mut self, f: F)
        requires
            forall|x: &mut T| call_requires(f, (x,)),
        ensures
            final(self).lock() == old(self).lock(),
            exists|x: &mut T|
                old(self).view() == *x && final(self).view() == *final(x)
                    && #[trigger] call_ensures(f, (x,), ()),
    {
        let r = guard_deref_mut(self);
        f(r);
    }
}

/// Relies on lock_api's `DerefMut` for `ArcRwLockWriteGuard`: a mutable
/// reference into the value the lock protects, which is the guard's view;
/// the view follows whatever is then written through the reference.
#[verifier::external_body]
fn guard_deref_mut<T>(g: &mut WriteGuard<T>) -> (r: &mut T)
    ensures
        *r == old(g).view(),
        final(g).view() == *final(r),
        final(g).lock() == old(g).lock(),
{
    &mut *g.raw.inner
}

/// A handle to one shared mutable value of type `T`, protected by a
/// reader/writer lock. Every duplicate made through `clone` refers to the
/// same underlying value; the value is dropped when the last handle goes.
///
/// While any read guard on the value is live no write guard can be, and the
/// other way round; lock acquisition blocks rather than fails, and a holder
/// that panics releases the lock without poisoning it.
#[verifier::reject_recursive_types(T)]
pub struct A<T> {
    value: Arc<parking_lot::RwLock<T>>,
}

/// Relies on std's `Arc::clone`: the returned handle is the same
/// reference-counted allocation as `*a`, with the count raised by one.
#[verifier::external_body]
fn clone_arc<T>(a: &Arc<parking_lot::RwLock<T>>) -> (r: Arc<parking_lot::RwLock<T>>)
    ensures
        r == *a,
{
    Arc::clone(a)
}

impl<T> A<T> {
    /// The shared lock this handle refers to; two handles with equal locks
    /// reach the same underlying value.
    pub closed spec fn lock(self) -> Arc<parking_lot::RwLock<T>> {
        self.value
    }

    /// Relies on parking_lot's `RwLock::new`: wraps `value` in a fresh lock.
    #[verifier::external_body]
    fn new_lock(value: T) -> parking_lot::RwLock<T> {
        parking_lot::RwLock::new(value)
    }

    /// Wraps `value` in a fresh shared lock; never fails.
    pub fn new(value: T) -> Self {
        A { value: Arc::new(Self::new_lock(value)) }
    }

    /// Acquires a shared lock, copies the value out, and releases the
    /// lock: a snapshot of the shared value as it stood while the lock was
    /// held. Never mutates.
    pub fn get(&self) -> T where T: Clone {
        let guard = self.read();
        guard.value().clone()
    }

    /// A copy of the shared value, wrapped in `Some`; never `None`.
    pub fn geto(&self) -> (r: Option<T>) where T: Clone
        ensures
            r is Some,
    {
        Some(self.get())
    }

    /// Acquires the exclusive lock, overwrites the shared value with
    /// `value`, and releases the lock.
    pub fn set(&self, value: T) {
        let mut guard = self.write();
        guard.set(value);
    }

    /// Acquires the exclusive lock, calls `f` once on the shared value,
    /// and releases the lock when `f` returns; the value stays as `f` left
    /// it, a transition that meets `f`'s own postcondition. The shared
    /// value may be anything by the time the lock is held, so `f` must
    /// accept every value of `T`.
    pub fn update<F: FnOnce(&mut T)>(&self, f: F)
        requires
            forall|x: &mut T| call_requires(f, (x,)),
        ensures
            exists|x: &mut T| #[trigger] call_ensures(f, (x,), ()),
    {
        let mut guard = self.write();
        guard.apply(f);
    }

    /// Relies on parking_lot's `RwLock::read_arc`: blocks until no
    /// exclusive lock is held, then takes the shared lock on this handle's
    /// own lock. The guard's view is the protected value as the
    /// acquisition found it, of which nothing is promised.
    #[verifier::external_body]
    pub fn read(&self) -> (r: ReadGuard<T>)
        ensures
            r.lock() == self.lock(),
    {
        ReadGuard {
            raw: RawReadGuard { inner: self.value.read_arc() },
            lock_id: Ghost(arbitrary()),
            value_seen: Ghost(arbitrary()),
        }
    }

    /// Relies on parking_lot's `RwLock::write_arc`: blocks until no other
    /// lock is held, then takes the exclusive lock on this handle's own
    /// lock. The guard's view is the protected value as the acquisition
    /// found it, of which nothing is promised.
    #[verifier::external_body]
    pub fn write(&self) -> (r: WriteGuard<T>)
        ensures
            r.lock() == self.lock(),
    {
        WriteGuard {
            raw: RawWriteGuard { inner: self.value.write_arc() },
            lock_id: Ghost(arbitrary()),
            value_held: Ghost(arbitrary()),
        }
    }

    /// Wraps an externally built reference-counted lock; the new handle
    /// shares whatever the lock already protects.
    pub fn from_inner(value: Arc<parking_lot::RwLock<T>>) -> (r: Self)
        ensures
            r.lock() == value,
    {
        A { value }
    }

    /// Hands the underlying reference-counted lock back out.
    pub fn into_inner(self) -> (r: Arc<parking_lot::RwLock<T>>)
        ensures
            r == self.lock(),
    {
        self.value
    }
}

impl<T> Clone for A<T> {
    /// Duplicates the handle: a constant-time reference-count increment. The
    /// duplicate and `self` share the same lock, hence the same underlying
    /// value; a write through either is visible through the other.
    fn clone(&self) -> (r: Self)
        ensures
            r.lock() == self.lock(),
    {
        A { value: clone_arc(&self.value) }
    }
}

} // verus!

