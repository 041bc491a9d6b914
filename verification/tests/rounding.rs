//! Tests of rounded numbers, against those of the machine.

use std::time::Duration;

use kalico_host_rt::host_io::rtt::{RttEstimator, MAX_RTO, MIN_RTO};
use kalico_host_rt::rounding::{round_quotient, scale, DOUBLE, SINGLE};

/// A sequence of numbers without a pattern.
struct Numbers(u64);

impl Numbers {
    fn next(&mut self) -> u64 {
        self.0 ^= self.0 << 13;
        self.0 ^= self.0 >> 7;
        self.0 ^= self.0 << 17;
        self.0
    }
}

fn duration(ns: u128) -> Duration {
    Duration::new((ns / 1_000_000_000) as u64, (ns % 1_000_000_000) as u32)
}

fn secs_mul(d: Duration, f: f64) -> Duration {
    Duration::from_secs_f64(d.as_secs_f64() * f)
}

const SHARES: [(u128, u128, f64); 5] =
    [(7, 8, 0.875), (1, 8, 0.125), (3, 4, 0.75), (1, 4, 0.25), (4, 1, 4.0)];

fn agrees(t: u128) {
    for (num, den, f) in SHARES {
        assert_eq!(
            scale(t, num, den),
            secs_mul(duration(t), f).as_nanos(),
            "{t} times {num}/{den}"
        );
    }
}

#[test]
fn shares_of_times_are_those_of_the_machine() {
    for t in 0..5_000u128 {
        agrees(t);
        agrees(999_998_000 + t);
    }
    let mut r = Numbers(0x9E37_79B9_7F4A_7C15);
    for bits in 1..=66u32 {
        for _ in 0..300 {
            let n = ((r.next() as u128) << 64) | r.next() as u128;
            let t = n >> (128 - bits);
            agrees(t);
            // Where the exact share lies between two nanoseconds.
            agrees(t / 8 * 8 + 4);
        }
    }
    agrees(u64::MAX as u128);
    agrees(1 << 66);
}

#[test]
fn exact_shares() {
    assert_eq!(scale(8_000, 7, 8), 7_000);
    assert_eq!(scale(1_000_000_000, 1, 4), 250_000_000);
    assert_eq!(scale(0, 7, 8), 0);
    // A half goes where the number of seconds lies, above or below it.
    assert_eq!(scale(4, 1, 8), 1);
    assert_eq!(scale(12, 1, 8), 1);
    assert_eq!(scale(20, 1, 8), 3);
    assert_eq!(scale(28, 1, 8), 3);
}

#[test]
fn quotients_keep_their_digits() {
    assert_eq!(round_quotient(16_777_217, 1, SINGLE), 16_777_216);
    assert_eq!(round_quotient(16_777_219, 1, SINGLE), 16_777_220);
    assert_eq!(round_quotient(1 << 33, 1000, SINGLE), 8_589_935);
    assert_eq!(round_quotient(7, 2, DOUBLE), 4);
    assert_eq!(round_quotient(5, 2, DOUBLE), 2);
    let mut r = Numbers(88_172_645_463_325_252);
    for _ in 0..20_000 {
        let n = r.next();
        assert_eq!(round_quotient(n as u128, 1, SINGLE), (n as f32) as u128, "{n}");
        assert_eq!(round_quotient(n as u128, 1, DOUBLE), (n as f64) as u128, "{n}");
    }
}

/// An estimator that computes with the machine's numbers.
struct Reference {
    estimate: Option<(Duration, Duration)>,
}

impl Reference {
    fn update(&mut self, r: Duration) -> Duration {
        let (srtt, rttvar) = match self.estimate {
            None => (r, r / 2),
            Some((srtt, rttvar)) => {
                let diff = if srtt > r { srtt - r } else { r - srtt };
                (
                    secs_mul(srtt, 0.875) + secs_mul(r, 0.125),
                    secs_mul(rttvar, 0.75) + secs_mul(diff, 0.25),
                )
            }
        };
        self.estimate = Some((srtt, rttvar));
        let raw = srtt + secs_mul(rttvar, 4.0).max(Duration::from_millis(1));
        raw.clamp(Duration::from_nanos(MIN_RTO), Duration::from_nanos(MAX_RTO))
    }
}

#[test]
fn the_timeout_is_that_of_the_machine() {
    let mut r = Numbers(0xD1B5_4A32_D192_ED03);
    for range in [900_000_000u64, 2_000_000_000, 40_000_000_000, u64::MAX] {
        for _ in 0..40 {
            let mut e = RttEstimator::new();
            let mut reference = Reference { estimate: None };
            for _ in 0..60 {
                let sample = r.next() % range;
                e.update(sample);
                let want = reference.update(Duration::from_nanos(sample));
                assert_eq!(Duration::from_nanos(e.current_rto()), want);
            }
        }
    }
}
