//! Admission control: a search-admission semaphore (about twice the cores
//! in flight) that sheds with `Busy` rather than queueing.
//!
//! A single lock-free counting semaphore bounds concurrent in-flight
//! searches. Acquisition is a non-blocking [`SearchAdmission::try_admit`]
//! that returns [`Error::Busy`] the instant no permit remains; there is no
//! wait queue. A search holds its [`AdmissionPermit`] for the call's
//! duration and the slot is handed back when the permit is dropped.

use std::sync::Arc;
use std::sync::atomic::{AtomicUsize, Ordering};

use vstd::prelude::*;

use crate::errors::{Error, Result};

verus! {

/// Multiplier applied to the logical core count for the default admission
/// capacity.
pub const DEFAULT_CAPACITY_MULTIPLE: usize = 2;

/// The default capacity for a machine with `cores` logical cores:
/// [`DEFAULT_CAPACITY_MULTIPLE`] times the cores (saturating), never below one.
pub open spec fn capacity_for(cores: nat) -> nat {
    let m = cores * (DEFAULT_CAPACITY_MULTIPLE as nat);
    let s = if m > usize::MAX { usize::MAX as nat } else { m };
    if s < 1 { 1 } else { s }
}

/// The default capacity for a machine with `cores` logical cores.
pub fn capacity_for_cores(cores: usize) -> (c: usize)
    ensures
        c == capacity_for(cores as nat),
{
    let m = if cores > usize::MAX / DEFAULT_CAPACITY_MULTIPLE {
        usize::MAX
    } else {
        cores * DEFAULT_CAPACITY_MULTIPLE
    };
    if m < 1 { 1 } else { m }
}

/// One admission attempt on a gate holding `current` permits: the new count
/// when a permit is free, nothing when every permit is taken.
pub fn admit_step(current: usize, capacity: usize) -> (r: Option<usize>)
    ensures
        r == (if current < capacity { Some((current + 1) as usize) } else { None::<usize> }),
{
    if current < capacity {
        Some(current + 1)
    } else {
        None
    }
}

/// A non-blocking, lock-free semaphore bounding concurrent in-flight searches.
pub struct SearchAdmission {
    capacity: usize,
    in_flight: AtomicUsize,
}

/// `std::sync::atomic::AtomicUsize::fetch_update`, applying [`admit_step`]:
/// takes a permit when one is free. The documentation promises `Ok` with the
/// previous count when the step returned a new count, and `Err` with the
/// count it saw when the step refused; which count it sees depends on the
/// other threads and is left open.
#[verifier::external_body]
fn take_permit(counter: &AtomicUsize, capacity: usize) -> (r: core::result::Result<usize, usize>)
    ensures
        r matches Ok(prev) ==> prev < capacity,
        r matches Err(prev) ==> prev >= capacity,
{
    counter.fetch_update(Ordering::AcqRel, Ordering::Acquire, |current| admit_step(current, capacity))
}

/// `std::sync::atomic::AtomicUsize::fetch_sub` of one: returns a permit.
/// The documentation promises wrapping arithmetic, so the call neither
/// panics nor unwinds; nothing is claimed of the count it leaves, which
/// other threads share.
#[verifier::external_body]
fn return_permit(counter: &AtomicUsize)
    opens_invariants none
    no_unwind
{
    counter.fetch_sub(1, Ordering::Release);
}

impl SearchAdmission {
    /// The configured capacity.
    pub closed spec fn spec_capacity(&self) -> usize {
        self.capacity
    }

    /// Creates a gate with the given capacity (max concurrent in-flight
    /// searches). A capacity of zero rejects every call with `Busy`.
    pub fn new(capacity: usize) -> (g: Arc<Self>)
        ensures
            g.spec_capacity() == capacity,
    {
        Arc::new(Self::build(capacity))
    }

    /// Creates a gate with the default capacity for a machine with `cores`
    /// logical cores (see [`capacity_for_cores`]).
    pub fn with_default_capacity(cores: usize) -> (g: Arc<Self>)
        ensures
            g.spec_capacity() == capacity_for(cores as nat),
    {
        Self::new(capacity_for_cores(cores))
    }

    /// Builds the admission semaphore without wrapping it in an `Arc`.
    pub fn build(capacity: usize) -> (g: Self)
        ensures
            g.spec_capacity() == capacity,
    {
        SearchAdmission { capacity, in_flight: AtomicUsize::new(0) }
    }

    /// Returns the configured capacity.
    pub fn capacity(&self) -> (c: usize)
        ensures
            c == self.spec_capacity(),
    {
        self.capacity
    }

    /// Returns the current number of held permits (a snapshot: other
    /// threads may change it at any moment).
    pub fn in_flight(&self) -> usize {
        self.in_flight.load(Ordering::Acquire)
    }

    /// Makes one admission attempt and reports, beside its outcome, the
    /// count of held permits that the attempt observed: a permit is granted
    /// exactly when that count was below the capacity.
    pub fn attempt_admission(&self) -> (r: (Result<AdmissionPermit<'_>>, Ghost<usize>))
        ensures
            r.0 is Ok <==> r.1@ < self.spec_capacity(),
            r.0 matches Ok(p) ==> p.spec_gate() == *self && p.spec_seen() == r.1@,
            r.0 matches Err(e) ==> e == Error::Busy,
    {
        match take_permit(&self.in_flight, self.capacity) {
            Ok(prev) => (Ok(AdmissionPermit { gate: self, seen: Ghost(prev) }), Ghost(prev)),
            Err(prev) => (Err(Error::Busy), Ghost(prev)),
        }
    }

    /// Attempts to admit one in-flight search without blocking. When every
    /// permit is taken this returns `Busy` immediately; it never waits.
    pub fn try_admit(&self) -> (r: Result<AdmissionPermit<'_>>)
        ensures
            r matches Ok(p) ==> p.spec_gate() == *self && p.spec_seen() < self.spec_capacity(),
            r matches Err(e) ==> e == Error::Busy,
            self.spec_capacity() == 0 ==> r is Err,
    {
        self.attempt_admission().0
    }
}

/// A held admission slot. Dropping it hands the slot back to its semaphore.
pub struct AdmissionPermit<'a> {
    gate: &'a SearchAdmission,
    seen: Ghost<usize>,
}

impl<'a> AdmissionPermit<'a> {
    /// The semaphore this permit was taken from.
    pub closed spec fn spec_gate(&self) -> SearchAdmission {
        *self.gate
    }

    /// The count of held permits observed when this one was taken.
    pub closed spec fn spec_seen(&self) -> usize {
        self.seen@
    }

    /// Returns the semaphore this permit was taken from.
    pub fn gate(&self) -> (g: &'a SearchAdmission)
        ensures
            *g == self.spec_gate(),
    {
        self.gate
    }
}

impl<'a> Drop for AdmissionPermit<'a> {
    fn drop(&mut self)
        opens_invariants none
        no_unwind
    {
        return_permit(&self.gate.in_flight);
    }
}

} // verus!
