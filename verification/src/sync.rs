use vstd::prelude::*;
use std::sync::{RwLock, RwLockReadGuard, RwLockWriteGuard, TryLockError};

verus! {

#[verifier::external_type_specification]
#[verifier::external_body]
#[verifier::reject_recursive_types(T)]
pub struct ExRwLock<T: ?Sized>(RwLock<T>);

#[verifier::external_type_specification]
#[verifier::external_body]
#[verifier::reject_recursive_types(T)]
pub struct ExRwLockReadGuard<'a, T: ?Sized>(RwLockReadGuard<'a, T>);

#[verifier::external_type_specification]
#[verifier::external_body]
#[verifier::reject_recursive_types(T)]
pub struct ExRwLockWriteGuard<'a, T: ?Sized + 'a>(RwLockWriteGuard<'a, T>);

/// Calls `std::sync::RwLock::new`, which makes an unlocked lock around `value`.
#[verifier::external_body]
pub(crate) fn new_rwlock<T>(value: T) -> RwLock<T> {
    RwLock::new(value)
}

/// Why a lock was not entered: it is held elsewhere in a way that excludes
/// the access asked for, or a panic poisoned it.
#[derive(Debug, Clone, Copy, PartialEq, Eq)]
pub enum LockError {
    WouldBlock,
    Poisoned,
}

/// Calls `std::sync::RwLock::try_read`, which never waits: it grants shared
/// access, or refuses it when the lock is held for writing (`WouldBlock`) or
/// was poisoned by a panic (`Poisoned`). Which happens depends on other
/// threads, so nothing is claimed of the outcome.
#[verifier::external_body]
pub(crate) fn try_read_rwlock<'a, T>(lock: &'a RwLock<T>) -> Result<RwLockReadGuard<'a, T>, LockError> {
    match lock.try_read() {
        Ok(guard) => Ok(guard),
        Err(TryLockError::WouldBlock) => Err(LockError::WouldBlock),
        Err(TryLockError::Poisoned(_)) => Err(LockError::Poisoned),
    }
}

/// Calls `std::sync::RwLock::try_write`, which never waits: it grants
/// exclusive access, or refuses it when the lock is held (`WouldBlock`) or
/// was poisoned by a panic (`Poisoned`). Which happens depends on other
/// threads, so nothing is claimed of the outcome.
#[verifier::external_body]
pub(crate) fn try_write_rwlock<'a, T>(lock: &'a RwLock<T>) -> Result<RwLockWriteGuard<'a, T>, LockError> {
    match lock.try_write() {
        Ok(guard) => Ok(guard),
        Err(TryLockError::WouldBlock) => Err(LockError::WouldBlock),
        Err(TryLockError::Poisoned(_)) => Err(LockError::Poisoned),
    }
}

/// Calls `Deref::deref` of a read guard: the value it guards.
#[verifier::external_body]
pub(crate) fn read_guarded<'a, 'b, T>(guard: &'b RwLockReadGuard<'a, T>) -> &'b T {
    &**guard
}

/// Calls `DerefMut::deref_mut` of a write guard: the value it guards, to
/// change. It hands out a reference and neither panics nor waits.
#[verifier::external_body]
pub(crate) fn write_guarded_mut<'a, 'b, T>(guard: &'b mut RwLockWriteGuard<'a, T>) -> &'b mut T
    opens_invariants none
    no_unwind
{
    &mut **guard
}

} // verus!
