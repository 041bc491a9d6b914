//! Credit for segments that a controller can still queue.

use vstd::prelude::*;

verus! {

/// How many more segments the controller takes, as far as the host knows.
#[derive(Debug)]
pub struct CreditCounter {
    available: i32,
    capacity: i32,
    credit_epoch: i32,
    credit_freed_events: u64,
}

/// Model of [`CreditCounter`].
pub struct CreditView {
    pub available: i32,
    pub capacity: i32,
    pub credit_epoch: i32,
    pub credit_freed_events: u64,
}

impl View for CreditCounter {
    type V = CreditView;

    closed spec fn view(&self) -> CreditView {
        CreditView {
            available: self.available,
            capacity: self.capacity,
            credit_epoch: self.credit_epoch,
            credit_freed_events: self.credit_freed_events,
        }
    }
}

/// What a caller that waits for credit does next.
#[derive(Debug, Clone, Copy, PartialEq, Eq, Structural)]
pub enum AcquireStep {
    /// The credit is taken.
    Acquired,
    /// The time is over.
    TimedOut,
    /// Wait for a change, at most this long, and ask again.
    Wait(u64),
}

/// The lesser of two numbers.
pub open spec fn lesser(a: int, b: int) -> i32 {
    (if a < b {
        a
    } else {
        b
    }) as i32
}

/// The counter with one credit taken.
pub open spec fn taken(c: CreditView) -> CreditView {
    CreditView { available: (c.available - 1) as i32, ..c }
}

/// The counter with one credit given back, up to the capacity.
pub open spec fn given_back(c: CreditView) -> CreditView {
    CreditView { available: lesser(c.available + 1, c.capacity as int), ..c }
}

impl CreditCounter {
    /// All of the capacity available.
    pub fn new(capacity: i32) -> (c: Self)
        ensures
            c@ == (CreditView {
                available: capacity,
                capacity,
                credit_epoch: 0,
                credit_freed_events: 0,
            }),
    {
        CreditCounter { available: capacity, capacity, credit_epoch: 0, credit_freed_events: 0 }
    }

    /// The capacity.
    pub fn capacity(&self) -> (r: i32)
        ensures
            r == self@.capacity,
    {
        self.capacity
    }

    /// Takes a credit if there is one. Whoever fails to use it gives it back
    /// with [`Self::release`].
    pub fn try_acquire(&mut self) -> (r: Option<()>)
        ensures
            r is Some == (old(self)@.available > 0),
            final(self)@ == (if old(self)@.available > 0 {
                taken(old(self)@)
            } else {
                old(self)@
            }),
    {
        if self.available <= 0 {
            return None;
        }
        self.available = self.available - 1;
        Some(())
    }

    /// One step of waiting for a credit until `deadline`: takes one if there
    /// is one, else says whether to wait on or to give up.
    pub fn acquire_blocking(&mut self, now: u64, deadline: u64) -> (r: AcquireStep)
        ensures
            r == (if old(self)@.available > 0 {
                AcquireStep::Acquired
            } else if now >= deadline {
                AcquireStep::TimedOut
            } else {
                AcquireStep::Wait((deadline - now) as u64)
            }),
            final(self)@ == (if old(self)@.available > 0 {
                taken(old(self)@)
            } else {
                old(self)@
            }),
    {
        match self.try_acquire() {
            Some(_) => AcquireStep::Acquired,
            None => if now >= deadline {
                AcquireStep::TimedOut
            } else {
                AcquireStep::Wait(deadline - now)
            },
        }
    }

    /// Gives a credit back, up to the capacity. Says whether the count
    /// changed, so that those who wait are to be woken.
    pub fn release(&mut self) -> (wake: bool)
        ensures
            final(self)@ == given_back(old(self)@),
            wake == (final(self)@.available != old(self)@.available),
            old(self)@.available < old(self)@.capacity ==> final(self)@.available
                == old(self)@.available + 1,
    {
        let next: i32 = if self.available < self.capacity {
            self.available + 1
        } else {
            self.capacity
        };
        let wake: bool = next != self.available;
        self.available = next;
        wake
    }

    /// Takes over the count that the controller reports, up to the capacity.
    /// Those who wait are to be woken.
    pub fn on_credit_freed(&mut self, free_slots: u8)
        ensures
            final(self)@ == (CreditView {
                available: lesser(free_slots as int, old(self)@.capacity as int),
                credit_freed_events: ((old(self)@.credit_freed_events + 1)
                    % 0x1_0000_0000_0000_0000) as u64,
                ..old(self)@
            }),
            free_slots <= old(self)@.capacity ==> final(self)@.available == free_slots,
    {
        let slots: i32 = free_slots as i32;
        self.available = if slots < self.capacity {
            slots
        } else {
            self.capacity
        };
        self.credit_freed_events = self.credit_freed_events.wrapping_add(1);
    }

    /// Starts over with all of the capacity, in a new epoch. Those who wait
    /// are to be woken.
    pub fn on_epoch_change(&mut self, new_epoch: i32)
        ensures
            final(self)@ == (CreditView {
                available: old(self)@.capacity,
                credit_epoch: new_epoch,
                ..old(self)@
            }),
    {
        self.credit_epoch = new_epoch;
        self.available = self.capacity;
    }

    /// The credits there are.
    pub fn available(&self) -> (r: i32)
        ensures
            r == self@.available,
    {
        self.available
    }

    /// The epoch.
    pub fn credit_epoch(&self) -> (r: i32)
        ensures
            r == self@.credit_epoch,
    {
        self.credit_epoch
    }

    /// How often the controller has reported its count.
    pub fn credit_freed_events(&self) -> (r: u64)
        ensures
            r == self@.credit_freed_events,
    {
        self.credit_freed_events
    }
}

/// Giving back what was taken restores the count, as long as it was within
/// the capacity.
pub proof fn law_release_undoes_acquire(c: CreditView)
    requires
        0 < c.available <= c.capacity,
    ensures
        given_back(taken(c)) == c,
{
}

/// The count never exceeds the capacity, whatever is given back or reported;
/// and it never falls below zero, for a credit is only taken where there is
/// one.
pub proof fn law_credit_bounded(c: CreditView, free_slots: u8)
    ensures
        given_back(c).available <= c.capacity,
        lesser(free_slots as int, c.capacity as int) <= c.capacity,
        0 <= c.available && 0 <= c.capacity ==> 0 <= given_back(c).available && 0 <= lesser(
            free_slots as int,
            c.capacity as int,
        ),
        c.available > 0 ==> 0 <= taken(c).available < c.available,
{
}

/// The counter after so many credits were taken.
pub open spec fn taken_times(c: CreditView, k: nat) -> CreditView
    decreases k,
{
    if k == 0 {
        c
    } else {
        taken(taken_times(c, (k - 1) as nat))
    }
}

/// As many credits can be taken as there are, and all of them can be given back
/// one by one.
pub proof fn law_as_many_as_available(c: CreditView, k: nat)
    requires
        c.available <= c.capacity,
        k <= c.available,
    ensures
        taken_times(c, k).available == c.available - k,
        taken_times(c, k).available > 0 <==> k < c.available,
        k > 0 ==> given_back(taken_times(c, k)) == taken_times(c, (k - 1) as nat),
        given_back(CreditView { available: c.capacity, ..c }).available == c.capacity,
        taken_times(c, k).capacity == c.capacity,
        taken_times(c, k).credit_epoch == c.credit_epoch,
    decreases k,
{
    if k > 0 {
        law_as_many_as_available(c, (k - 1) as nat);
    }
}

} // verus!
