//! Tests of the credit counter.

use kalico_host_rt::clock::{Clock, MockClock};
use kalico_host_rt::credit::{AcquireStep, CreditCounter};

const MS: u64 = 1_000_000;

/// Waits as a caller without other threads does: it sleeps to the deadline.
fn acquire(c: &mut CreditCounter, clock: &mut MockClock, timeout: u64) -> Result<(), ()> {
    let deadline = clock.now() + timeout;
    loop {
        let now = clock.now();
        match c.acquire_blocking(now, deadline) {
            AcquireStep::Acquired => return Ok(()),
            AcquireStep::TimedOut => return Err(()),
            AcquireStep::Wait(left) => clock.advance(left),
        }
    }
}

#[test]
fn credit_acquire_blocking_returns_immediately_when_available() {
    let mut clock = MockClock::new();
    let mut c = CreditCounter::new(4);
    assert!(acquire(&mut c, &mut clock, 10 * MS).is_ok());
    assert_eq!(c.available(), 3);
}

#[test]
fn tests_acquire_blocking_returns_immediately_when_available() {
    let mut c = CreditCounter::new(4);
    assert!(c.acquire_blocking(0, 10 * MS) == AcquireStep::Acquired);
    assert_eq!(c.available(), 3);
}

#[test]
fn credit_acquire_blocking_times_out_when_no_credit() {
    let mut clock = MockClock::new();
    let mut c = CreditCounter::new(1);
    assert!(c.try_acquire().is_some());
    assert_eq!(c.available(), 0);
    let start = clock.now();
    let result = acquire(&mut c, &mut clock, 20 * MS);
    let elapsed = clock.now() - start;
    assert!(result.is_err());
    assert!(elapsed >= 15 * MS, "waited {elapsed} ns");
}

#[test]
fn tests_acquire_blocking_times_out_when_no_credit() {
    let mut c = CreditCounter::new(1);
    assert!(c.try_acquire().is_some());
    assert_eq!(c.available(), 0);
    assert!(c.acquire_blocking(0, 20 * MS) == AcquireStep::Wait(20 * MS));
    assert!(c.acquire_blocking(15 * MS, 20 * MS) == AcquireStep::Wait(5 * MS));
    let elapsed = 20 * MS;
    let result = c.acquire_blocking(elapsed, 20 * MS);
    assert!(result == AcquireStep::TimedOut);
    assert!(elapsed >= 15 * MS, "waited {elapsed} ns");
}

#[test]
fn release_lets_a_waiter_go_on() {
    let mut c = CreditCounter::new(1);
    assert!(c.try_acquire().is_some());
    assert!(c.acquire_blocking(0, 9) == AcquireStep::Wait(9));
    assert!(c.release());
    assert!(c.acquire_blocking(1, 9) == AcquireStep::Acquired);
    assert_eq!(c.available(), 0);
}

#[test]
fn release_stops_at_the_capacity() {
    let mut c = CreditCounter::new(2);
    assert!(!c.release());
    assert_eq!(c.available(), 2);
    assert_eq!(c.capacity(), 2);
}

#[test]
fn credit_freed_lets_a_waiter_go_on() {
    let mut c = CreditCounter::new(7);
    for _ in 0..7 {
        assert!(c.try_acquire().is_some());
    }
    assert!(c.try_acquire().is_none());
    assert_eq!(c.available(), 0);
    c.on_credit_freed(3);
    assert_eq!(c.credit_freed_events(), 1);
    assert!(c.acquire_blocking(1, 9) == AcquireStep::Acquired);
    assert_eq!(c.available(), 2);
}

#[test]
fn credit_freed_is_bounded_by_the_capacity() {
    let mut c = CreditCounter::new(4);
    c.on_credit_freed(200);
    assert_eq!(c.available(), 4);
}

#[test]
fn epoch_change_lets_a_waiter_go_on() {
    let mut c = CreditCounter::new(7);
    for _ in 0..7 {
        assert!(c.try_acquire().is_some());
    }
    c.on_epoch_change(1);
    assert!(c.acquire_blocking(1, 9) == AcquireStep::Acquired);
    assert_eq!(c.available(), 6);
    assert_eq!(c.credit_epoch(), 1);
}

#[test]
fn as_many_waiters_as_credits_are_served() {
    let mut c = CreditCounter::new(4);
    for _ in 0..4 {
        assert!(c.try_acquire().is_some());
    }
    c.on_credit_freed(4);
    let mut ok = 0;
    let mut err = 0;
    for _ in 0..8 {
        match c.acquire_blocking(200, 200) {
            AcquireStep::Acquired => ok += 1,
            _ => err += 1,
        }
    }
    assert_eq!(ok, 4);
    assert_eq!(err, 4);
}

#[test]
fn mock_clock_advances_monotonically() {
    let mut c = MockClock::new();
    let t0 = c.now();
    c.advance(100 * MS);
    let t1 = c.now();
    assert_eq!(t1 - t0, 100 * MS);
}

#[test]
fn mock_clock_can_be_arc_dyn() {
    let c: std::sync::Arc<dyn Clock> = std::sync::Arc::new(MockClock::new());
    let _ = c.now();
}

#[test]
fn the_count_stays_between_nothing_and_the_capacity() {
    let mut c = CreditCounter::new(3);
    for _ in 0..5 {
        c.try_acquire();
        assert!((0..=3).contains(&c.available()));
    }
    assert_eq!(c.available(), 0);
    c.on_credit_freed(0);
    assert_eq!(c.available(), 0);
    for _ in 0..5 {
        c.release();
        assert!((0..=3).contains(&c.available()));
    }
    assert_eq!(c.available(), 3);
}
