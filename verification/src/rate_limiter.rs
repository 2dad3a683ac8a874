//! The registry behind one lock, shared by every request handler and by the
//! periodic sweep.

use vstd::prelude::*;
use std::sync::{Arc, Mutex, MutexGuard, PoisonError};
use crate::clock::Timestamp;
use crate::registry::{all_active, consistent, decides, Registry};
use crate::window::Windows;

verus! {

/// Seconds from one periodic sweep to the next: a day.
pub const CLEANUP_INTERVAL_SECS: u64 = 86_400;

/// `std::sync::Mutex`, of which the verifier sees nothing.
#[verifier::external_type_specification]
#[verifier::external_body]
#[verifier::reject_recursive_types(T)]
pub struct ExMutex<T: ?Sized>(Mutex<T>);

/// `std::sync::MutexGuard`, of which the verifier sees nothing.
#[verifier::external_type_specification]
#[verifier::external_body]
#[verifier::reject_recursive_types(T)]
pub struct ExMutexGuard<'a, T: ?Sized + 'a>(MutexGuard<'a, T>);

/// `std::sync::PoisonError`, of which the verifier sees nothing.
#[verifier::external_type_specification]
#[verifier::external_body]
#[verifier::reject_recursive_types(T)]
pub struct ExPoisonError<T>(PoisonError<T>);

/// Puts a registry behind a lock of its own, with `Mutex::new`. Nothing is
/// claimed of the lock.
#[verifier::external_body]
fn locked(registry: Registry) -> Mutex<Registry> {
    Mutex::new(registry)
}

/// Waits for the lock with `Mutex::lock`. The lock is held from the return
/// until the guard is dropped, also where the guard comes inside an error:
/// that is how `lock` hands over a lock that a panic has poisoned. `lock`
/// may panic or never return where the calling thread holds the lock
/// already; no function of this library takes it twice.
#[verifier::external_body]
fn acquire<'a>(lock: &'a Mutex<Registry>) -> Result<
    MutexGuard<'a, Registry>,
    PoisonError<MutexGuard<'a, Registry>>,
> {
    lock.lock()
}

/// The guard that the error of a poisoned lock carries, by
/// `PoisonError::into_inner`.
#[verifier::external_body]
fn guard_of<'a>(poisoned: PoisonError<MutexGuard<'a, Registry>>) -> MutexGuard<'a, Registry> {
    poisoned.into_inner()
}

/// The registry that a held lock protects, through the guard's `deref_mut`.
/// Nothing is claimed of what it holds: another holder of the lock may have
/// changed it since it was last seen.
#[verifier::external_body]
fn registry_of<'a, 'b>(guard: &'a mut MutexGuard<'b, Registry>) -> &'a mut Registry {
    guard
}

/// Takes the lock. A poisoned lock is entered all the same: what it
/// protects is a `Registry`, which is sound whenever it can be reached.
fn enter<'a>(lock: &'a Mutex<Registry>) -> MutexGuard<'a, Registry> {
    match acquire(lock) {
        Ok(guard) => guard,
        Err(poisoned) => guard_of(poisoned),
    }
}

/// The admission controller: one registry of clients behind one lock. Clones
/// share the registry.
#[derive(Clone)]
pub struct RateLimiter {
    requests: Arc<Mutex<Registry>>,
}

impl RateLimiter {
    /// A controller without clients.
    pub fn new() -> Self {
        Self { requests: Arc::new(locked(Registry::new())) }
    }

    /// Decides on a request of `ip` made at `now`, as `Registry::check`
    /// does, and records it in the shared registry. The lock is held from
    /// the lookup to the decision, so what is returned as left belongs to
    /// that decision. What the registry holds when the lock is taken is up
    /// to the other holders of the lock: the outcome is that of a check on
    /// some registry of active clients.
    pub fn check_rate_limit_at(&self, ip: &str, now: Timestamp) -> (outcome: (
        bool,
        (usize, usize),
    ))
        ensures
            exists|clients: Map<Seq<char>, Windows>|
                all_active(clients) && #[trigger] decides(outcome, clients, ip@, now),
            consistent(outcome),
    {
        let mut guard = enter(&self.requests);
        let registry = registry_of(&mut guard);
        let ghost clients = registry@;
        let outcome = registry.check(ip, now);
        assert(all_active(clients) && decides(outcome, clients, ip@, now));
        outcome
    }

    /// Decides on a request of `ip` made now: takes the lock, reads the
    /// clock, and decides as `check_rate_limit_at` does for that time.
    pub fn check_rate_limit(&self, ip: &str) -> (outcome: (bool, (usize, usize)))
        ensures
            exists|clients: Map<Seq<char>, Windows>, now: Timestamp|
                all_active(clients) && #[trigger] decides(outcome, clients, ip@, now),
            consistent(outcome),
    {
        let mut guard = enter(&self.requests);
        let registry = registry_of(&mut guard);
        let now = Timestamp::now();
        let ghost clients = registry@;
        let outcome = registry.check(ip, now);
        assert(all_active(clients) && decides(outcome, clients, ip@, now));
        outcome
    }

    /// Sweeps the registry at `now`, under the lock; see `Registry::sweep`.
    pub fn cleanup_expired_ips_at(&self, now: Timestamp) {
        let mut guard = enter(&self.requests);
        let registry = registry_of(&mut guard);
        registry.sweep(now);
    }

    /// Reads the clock and sweeps the registry, under the lock.
    pub fn cleanup_expired_ips(&self) {
        let now = Timestamp::now();
        self.cleanup_expired_ips_at(now);
    }

    /// Whether `ip` is recorded at the moment.
    pub fn is_tracked(&self, ip: &str) -> bool {
        let mut guard = enter(&self.requests);
        let registry = registry_of(&mut guard);
        registry.contains(ip)
    }
}

impl Default for RateLimiter {
    fn default() -> Self {
        Self::new()
    }
}

} // verus!
