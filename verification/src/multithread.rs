//! Counting and blocking between threads: what a semaphore and a door let pass.

use vstd::prelude::*;

verus! {

/// A count of permits.
#[derive(Debug)]
pub struct Semaphore {
    value: usize,
}

impl View for Semaphore {
    type V = nat;

    closed spec fn view(&self) -> nat {
        self.value as nat
    }
}

/// The permits after some have been put back.
pub open spec fn after_put(permits: nat, n: nat) -> nat {
    permits + n
}

/// Whether a number of permits can be taken, and how many are left then.
pub open spec fn after_take(permits: nat, n: nat) -> (bool, nat) {
    if permits >= n {
        (true, (permits - n) as nat)
    } else {
        (false, permits)
    }
}

/// Permits that are put back can be taken again, and leave as many as before.
pub proof fn put_then_taken(permits: nat, n: nat)
    ensures
        after_take(after_put(permits, n), n) == (true, permits),
{
}

/// One who has to wait for permits gets them once enough have been put back, if nobody else
/// takes any.
pub proof fn put_ends_waiting(permits: nat, n: nat, wanted: nat)
    requires
        !after_take(permits, wanted).0,
    ensures
        after_take(after_put(permits, n), wanted).0 <==> permits + n >= wanted,
        permits + n >= wanted ==> after_take(after_put(permits, n), wanted).1 == permits + n
            - wanted,
{
}

impl Semaphore {
    pub fn new(value: usize) -> (semaphore: Self)
        ensures
            semaphore@ == value,
    {
        Semaphore { value }
    }

    /// Take permits if there are enough; otherwise the caller has to wait until some are
    /// put back.
    pub fn take_n(&mut self, n: usize) -> (taken: bool)
        ensures
            (taken, final(self)@) == after_take(old(self)@, n as nat),
    {
        if self.value < n {
            false
        } else {
            self.value = self.value - n;
            true
        }
    }

    /// Take a permit if there is one.
    pub fn take(&mut self) -> (taken: bool)
        ensures
            (taken, final(self)@) == after_take(old(self)@, 1),
    {
        self.take_n(1)
    }

    /// Put permits back.
    pub fn put_n(&mut self, n: usize)
        requires
            old(self)@ + n <= usize::MAX,
        ensures
            final(self)@ == after_put(old(self)@, n as nat),
    {
        self.value = self.value + n;
    }

    /// Put a permit back.
    pub fn put(&mut self)
        requires
            old(self)@ < usize::MAX,
        ensures
            final(self)@ == after_put(old(self)@, 1),
    {
        self.put_n(1)
    }

    /// Whether permits can be put back.
    pub fn can_put_n(&self, n: usize) -> (can: bool)
        ensures
            can == (self@ + n <= usize::MAX),
    {
        n <= usize::MAX - self.value
    }
}

/// A door that holds up those who wait at it while it is closed.
#[derive(Debug)]
pub struct SyncDoor {
    closed: bool,
}

impl View for SyncDoor {
    type V = bool;

    /// A door is closed or not.
    closed spec fn view(&self) -> bool {
        self.closed
    }
}

impl SyncDoor {
    /// An open door.
    pub fn new() -> (door: Self)
        ensures
            !door@,
    {
        SyncDoor { closed: false }
    }

    pub fn close(&mut self)
        ensures
            final(self)@,
    {
        self.closed = true;
    }

    pub fn open(&mut self)
        ensures
            !final(self)@,
    {
        self.closed = false;
    }

    /// Whether one who comes to the door passes at once.
    pub fn wait(&self) -> (passes: bool)
        ensures
            passes == !self@,
    {
        !self.closed
    }

    pub fn is_closed(&self) -> (closed: bool)
        ensures
            closed == self@,
    {
        self.closed
    }
}

} // verus!
