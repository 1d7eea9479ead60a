use vstd::prelude::*;
use std::sync::RwLock;

verus! {

/// `std::sync::RwLock`, a value behind a reader-writer lock. Nothing of its
/// inside is known here.
#[verifier::external_type_specification]
#[verifier::external_body]
#[verifier::reject_recursive_types(T)]
pub struct ExRwLock<T: ?Sized>(RwLock<T>);

/// `RwLock::new`: a lock around `x`. What a lock holds can change through a
/// shared reference, so no contract speaks of it.
#[verifier::external_body]
pub(crate) fn rwlock_new<T>(x: T) -> (l: RwLock<T>) {
    RwLock::new(x)
}

/// `RwLock::read`: a copy of what the lock holds at the moment of the call. A
/// poisoned lock is read all the same.
#[verifier::external_body]
pub(crate) fn rwlock_read<T: Copy>(l: &RwLock<T>) -> (x: T) {
    match l.read() {
        Ok(guard) => *guard,
        Err(poisoned) => *poisoned.into_inner(),
    }
}

/// `RwLock::write`: stores `x` in the lock. A poisoned lock is written all
/// the same.
#[verifier::external_body]
pub(crate) fn rwlock_write<T>(l: &RwLock<T>, x: T) {
    match l.write() {
        Ok(mut guard) => *guard = x,
        Err(poisoned) => *poisoned.into_inner() = x,
    }
}

} // verus!
