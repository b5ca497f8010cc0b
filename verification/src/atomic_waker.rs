//! A single-slot waker cell for the task that waits for log data.
//!
//! The consumer registers its waker before it looks whether the ring is
//! empty; the logging frontend wakes the cell after it has closed a frame.
//! The slot is exchanged inside a critical section, because the wake may come
//! from an interrupt handler.

use core::task::Waker;
use vstd::prelude::*;

verus! {

/// `core::task::Waker`, carried through as an opaque value.
#[verifier::external_type_specification]
#[verifier::external_body]
pub struct ExWaker(core::task::Waker);

/// Registers and wakes the waker of one waiting task.
pub struct AtomicWaker {
    waker: Option<Waker>,
}

/// Puts `new` into the slot and hands back what the slot held.
fn exchange(slot: &mut Option<Waker>, new: Option<Waker>) -> (prior: Option<Waker>)
    ensures
        *final(slot) == new,
        prior == *old(slot),
{
    let mut other = new;
    core::mem::swap(slot, &mut other);
    other
}

/// Calls `critical_section::with` on the exchange of the slot. The contract
/// claims that `with` runs its closure once and returns what the closure
/// returned, so that the call does to the slot what [`exchange`] does.
#[verifier::external_body]
fn exchange_in_critical_section(slot: &mut Option<Waker>, new: Option<Waker>) -> (prior: Option<
    Waker,
>)
    ensures
        *final(slot) == new,
        prior == *old(slot),
{
    critical_section::with(|_| exchange(slot, new))
}

/// Calls `Waker::clone`. Nothing is claimed of the copy.
#[verifier::external_body]
fn clone_waker(waker: &Waker) -> Waker {
    waker.clone()
}

/// Calls `Waker::wake`, which consumes the waker. What the wake does to the
/// task is outside this library.
#[verifier::external_body]
fn wake_waker(waker: Waker) {
    waker.wake()
}

impl AtomicWaker {
    /// Whether a waker waits in the slot.
    pub closed spec fn is_registered(&self) -> bool {
        self.waker is Some
    }

    /// An empty cell.
    pub fn new() -> (cell: AtomicWaker)
        ensures
            !cell.is_registered(),
    {
        AtomicWaker { waker: None }
    }

    /// Registers a copy of `new_waker`. A waker registered before is
    /// dropped without being woken.
    pub fn register(&mut self, new_waker: &Waker)
        ensures
            final(self).is_registered(),
    {
        let copy = clone_waker(new_waker);
        let _ = exchange_in_critical_section(&mut self.waker, Some(copy));
    }

    /// Takes the registered waker out of the slot and wakes it. With no
    /// waker registered this does nothing.
    pub fn wake(&mut self)
        ensures
            !final(self).is_registered(),
    {
        match exchange_in_critical_section(&mut self.waker, None) {
            Some(waker) => wake_waker(waker),
            None => {},
        }
    }

    /// Whether a waker waits in the slot.
    pub fn has_waker(&self) -> (registered: bool)
        ensures
            registered == self.is_registered(),
    {
        self.waker.is_some()
    }
}

} // verus!
