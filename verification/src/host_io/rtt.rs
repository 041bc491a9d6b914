//! Round-trip times and the retransmission timeout, in nanoseconds.

use crate::rounding::{law_share_is_near, lemma_scaled, scale, scaled};
use vstd::prelude::*;

verus! {

/// The shortest retransmission timeout. A controller may be busy with one
/// command for a good part of a second; shorter timeouts would flood it.
pub const MIN_RTO: u64 = 500_000_000;

/// The longest retransmission timeout.
pub const MAX_RTO: u64 = 5_000_000_000;

/// The granularity of the clock.
pub const GRANULARITY: u64 = 1_000_000;

/// The longest smoothed round-trip time: 2^65. Its variation stays within twice
/// that.
pub const LONGEST_RTT: u128 = 0x2_0000_0000_0000_0000;

/// Estimates the round-trip time from samples.
#[derive(Debug)]
pub struct RttEstimator {
    estimate: Option<(u128, u128)>,
    rto: u64,
}

/// Model of [`RttEstimator`]: the smoothed round-trip time and its variation,
/// once there is a sample, and the retransmission timeout.
pub struct RttView {
    pub estimate: Option<(u128, u128)>,
    pub rto: u64,
}

impl RttEstimator {
    #[verifier::type_invariant]
    spec fn within(self) -> bool {
        estimate_ok(self.estimate)
    }
}

impl View for RttEstimator {
    type V = RttView;

    closed spec fn view(&self) -> RttView {
        RttView { estimate: self.estimate, rto: self.rto }
    }
}

/// An estimator without samples.
pub open spec fn fresh_rtt() -> RttView {
    RttView { estimate: None, rto: MIN_RTO }
}

/// What every estimate satisfies.
pub open spec fn estimate_ok(e: Option<(u128, u128)>) -> bool {
    e matches Some((srtt, rttvar)) ==> srtt <= LONGEST_RTT && rttvar <= 2 * LONGEST_RTT
}

/// A timeout within its bounds.
pub open spec fn bounded_rto(t: int) -> u64 {
    if t < MIN_RTO {
        MIN_RTO
    } else if t > MAX_RTO {
        MAX_RTO
    } else {
        t as u64
    }
}

/// The smoothed round-trip time and its variation after a sample: the first
/// sample and half of it; then seven eighths of the old time and an eighth of
/// the sample, and three quarters of the old variation and a quarter of the
/// sample's distance from the old time. Each share is multiplied in seconds.
pub open spec fn sampled(e: Option<(u128, u128)>, r: u64) -> (int, int) {
    match e {
        None => (r as int, r as int / 2),
        Some((srtt, rttvar)) => {
            let distance = if srtt > r {
                srtt - r
            } else {
                r - srtt
            };
            (
                scaled(srtt as int, 7, 8) + scaled(r as int, 1, 8),
                scaled(rttvar as int, 3, 4) + scaled(distance, 1, 4),
            )
        },
    }
}

/// The timeout that an estimate gives: the time and four times its variation,
/// or the clock's granularity if that is more, within the bounds.
pub open spec fn rto_of(srtt: int, rttvar: int) -> u64 {
    bounded_rto(srtt + if scaled(rttvar, 4, 1) > GRANULARITY {
        scaled(rttvar, 4, 1)
    } else {
        GRANULARITY as int
    })
}

/// The estimator after a sample.
pub open spec fn rtt_updated(v: RttView, r: u64) -> RttView {
    let s = sampled(v.estimate, r);
    RttView { estimate: Some((s.0 as u128, s.1 as u128)), rto: rto_of(s.0, s.1) }
}

/// The estimator after a timeout: twice the timeout, within the bounds.
pub open spec fn rtt_backed_off(v: RttView) -> RttView {
    RttView { rto: bounded_rto(2 * v.rto), ..v }
}

/// An estimate stays within its bounds, whatever is sampled.
pub proof fn law_estimate_bounded(e: Option<(u128, u128)>, r: u64)
    requires
        estimate_ok(e),
    ensures
        0 <= sampled(e, r).0 <= LONGEST_RTT,
        0 <= sampled(e, r).1 <= 2 * LONGEST_RTT,
{
    match e {
        None => {},
        Some((srtt, rttvar)) => {
            let distance = if srtt > r {
                srtt - r
            } else {
                r - srtt
            };
            lemma_scaled(srtt as int, 7, 8);
            lemma_scaled(r as int, 1, 8);
            lemma_scaled(rttvar as int, 3, 4);
            lemma_scaled(distance, 1, 4);
        },
    }
}

/// The timeout never leaves its bounds, whatever is sampled and however often
/// it is doubled.
pub proof fn law_rto_bounded(v: RttView, r: u64)
    ensures
        MIN_RTO <= fresh_rtt().rto <= MAX_RTO,
        MIN_RTO <= rtt_updated(v, r).rto <= MAX_RTO,
        MIN_RTO <= rtt_backed_off(v).rto <= MAX_RTO,
{
}

/// Keeps a timeout within its bounds.
fn clamp(t: u128) -> (r: u64)
    ensures
        r == bounded_rto(t as int),
{
    if t < MIN_RTO as u128 {
        MIN_RTO
    } else if t > MAX_RTO as u128 {
        MAX_RTO
    } else {
        t as u64
    }
}

impl RttEstimator {
    /// No samples yet.
    pub fn new() -> (e: Self)
        ensures
            e@ == fresh_rtt(),
    {
        RttEstimator { estimate: None, rto: MIN_RTO }
    }

    /// The retransmission timeout.
    pub fn current_rto(&self) -> (r: u64)
        ensures
            r == self@.rto,
    {
        self.rto
    }

    /// Takes a sample of the round-trip time.
    pub fn update(&mut self, r: u64)
        ensures
            final(self)@ == rtt_updated(old(self)@, r),
    {
        proof {
            use_type_invariant(&*self);
            law_estimate_bounded(self@.estimate, r);
        }
        let next: (u128, u128) = match self.estimate {
            None => (r as u128, (r / 2) as u128),
            Some(e) => {
                let sample: u128 = r as u128;
                let distance: u128 = if e.0 > sample {
                    e.0 - sample
                } else {
                    sample - e.0
                };
                proof {
                    lemma_scaled(e.0 as int, 7, 8);
                    lemma_scaled(sample as int, 1, 8);
                    lemma_scaled(e.1 as int, 3, 4);
                    lemma_scaled(distance as int, 1, 4);
                }
                (
                    scale(e.0, 7, 8) + scale(sample, 1, 8),
                    scale(e.1, 3, 4) + scale(distance, 1, 4),
                )
            },
        };
        proof {
            lemma_scaled(next.1 as int, 4, 1);
        }
        let spread: u128 = scale(next.1, 4, 1);
        let margin: u128 = if spread > GRANULARITY as u128 {
            spread
        } else {
            GRANULARITY as u128
        };
        self.estimate = Some(next);
        self.rto = clamp(next.0 + margin);
    }

    /// Doubles the timeout.
    pub fn backoff(&mut self)
        ensures
            final(self)@ == rtt_backed_off(old(self)@),
    {
        proof {
            use_type_invariant(&*self);
        }
        self.rto = clamp(2 * (self.rto as u128));
    }
}

impl Default for RttEstimator {
    fn default() -> (e: Self)
        ensures
            e@ == fresh_rtt(),
    {
        RttEstimator::new()
    }
}

/// A sample moves the smoothed time an eighth of the way to it, and the variation
/// a quarter of the way to its distance, to the nanosecond; the timeout is the
/// time and four times the variation, or a millisecond if that is more, within
/// half a second and five.
pub proof fn law_weights_of_a_sample(srtt: u128, rttvar: u128, r: u64)
    requires
        srtt <= 0x80_0000_0000,
        rttvar <= 0x80_0000_0000,
        r <= 0x80_0000_0000,
    ensures
        ({
            let v = rtt_updated(RttView { estimate: Some((srtt, rttvar)), rto: 0 }, r);
            let distance = if srtt < r {
                r - srtt
            } else {
                srtt - r
            };
            &&& v.estimate matches Some(e) && {
                let time = e.0 as int;
                let variation = e.1 as int;
                &&& -16 < 8 * time - (7 * srtt + r) < 16
                &&& -8 < 4 * variation - (3 * rttvar + distance) < 8
                &&& 4 * variation <= 1_000_000 - 1 && time + 1_000_000 >= 500_000_000 && time
                    + 1_000_000 <= 5_000_000_000 ==> v.rto == time + 1_000_000
                &&& 4 * variation > 1_000_000 + 1 && 500_000_001 <= time + 4 * variation
                    < 5_000_000_000 ==> -1 <= v.rto - (time + 4 * variation) <= 1
            }
            &&& 500_000_000 <= v.rto <= 5_000_000_000
        }),
        rtt_updated(fresh_rtt(), r).estimate == Some((r as u128, (r / 2) as u128)),
        fresh_rtt().rto == 500_000_000,
{
    let distance = if srtt < r {
        r - srtt
    } else {
        srtt - r
    };
    law_share_is_near(srtt as int, 7, 8);
    law_share_is_near(r as int, 1, 8);
    law_share_is_near(rttvar as int, 3, 4);
    law_share_is_near(distance, 1, 4);
    let e = sampled(Some((srtt, rttvar)), r);
    lemma_scaled(srtt as int, 7, 8);
    lemma_scaled(r as int, 1, 8);
    lemma_scaled(rttvar as int, 3, 4);
    lemma_scaled(distance, 1, 4);
    law_share_is_near(e.1, 4, 1);
}

/// A timeout doubles the time until the next, up to five seconds.
pub proof fn law_backing_off_doubles(v: RttView)
    requires
        500_000_000 <= v.rto <= 5_000_000_000,
    ensures
        v.rto <= 2_500_000_000 ==> rtt_backed_off(v).rto == 2 * v.rto,
        v.rto > 2_500_000_000 ==> rtt_backed_off(v).rto == 5_000_000_000,
        rtt_backed_off(v).estimate == v.estimate,
{
}

} // verus!
