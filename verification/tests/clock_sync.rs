//! Tests of the clock samples and the clock estimates of the router.

use kalico_host_rt::clock::{Clock, MockClock};
use kalico_host_rt::clock_sync::{
    mcu_time_from, ClockSyncEstimator, Prediction, QualityGateFailure, SampleSource, WINDOW,
};
use kalico_host_rt::passthrough_queue::router::{
    ClockEst, McuHandle, PassthroughRouter, RouterError,
};

const MILLI: u64 = 1_000_000;
const SECOND: u64 = 1_000_000_000;

#[test]
fn last_sample_age_uses_injected_clock() {
    let mut clock = MockClock::new();
    let mut est = ClockSyncEstimator::new(clock.now());
    est.add_piggyback_sample_at_now(0, clock.now());
    clock.advance(5 * SECOND);
    let age = est.last_sample_age(clock.now()).expect("sample present");
    assert_eq!(age, 5 * SECOND);
}

#[test]
fn last_dedicated_sample_age_uses_injected_clock() {
    let mut clock = MockClock::new();
    let mut est = ClockSyncEstimator::new(clock.now());
    let t0 = clock.now();
    // Half of two milliseconds at 72 MHz.
    let kept = est.add_dedicated_sample(t0, t0 + 2 * MILLI, 1_000_000, 72_000, None, clock.now());
    assert!(kept);
    clock.advance(10 * SECOND);
    let age = est
        .last_dedicated_sample_age(clock.now())
        .expect("dedicated sample present");
    assert_eq!(age, 10 * SECOND);
    assert_eq!(est.samples()[0].mcu_clock, 928_000);
    assert_eq!(est.samples()[0].rtt_us, 2000);
    assert_eq!(est.samples()[0].source, SampleSource::Dedicated);
}

#[test]
fn wall_time_at_mcu_returns_none_with_zero_samples() {
    let est = ClockSyncEstimator::new(0);
    assert!(est.is_estimated(0).is_none());
    assert!(est.is_estimated(100_000_000).is_none());
}

#[test]
fn wall_time_at_mcu_inside_window_returns_some() {
    let mut clock = MockClock::new();
    let mut est = ClockSyncEstimator::new(clock.now());
    let t0 = clock.now();
    for i in 1..=30u64 {
        let send = t0 + i * SECOND;
        let recv = send + MILLI;
        let mcu_resp = i * 100_000_000 + 50_000;
        est.add_dedicated_sample(send, recv, mcu_resp, 50_000, None, clock.now());
        clock.advance(SECOND);
    }
    let result = est.is_estimated(15 * 100_000_000);
    assert!(result.is_some(), "expected Some after 30 samples");
    assert_eq!(result, Some(false));
    assert_eq!(est.is_estimated(100_000_000), Some(false));
    assert_eq!(est.is_estimated(99_999_999), Some(true));
    assert_eq!(est.is_estimated(3_000_000_001), Some(true));
}

#[test]
fn wall_time_at_mcu_one_sample_returns_some_estimated() {
    let mut clock = MockClock::new();
    clock.advance(SECOND);
    let mut est = ClockSyncEstimator::new(clock.now());
    let sample_mcu_tick: u64 = 100_000_000;
    est.add_piggyback_sample_at_now(sample_mcu_tick, clock.now());
    let query_tick: u64 = 200_000_000;
    let result = est.is_estimated(query_tick);
    assert!(result.is_some(), "expected Some with one sample, got None");
    assert_eq!(result, Some(true));
    assert_eq!(est.is_estimated(sample_mcu_tick), Some(false));
}

#[test]
fn high_side_outlier_within_window_is_dropped() {
    let true_freq = 168_000_000.0_f64;
    let mut clock = MockClock::new();
    let mut est = ClockSyncEstimator::new(clock.now());
    let epoch = clock.now();
    let half_rtt = 0.000_150;
    let tolerance: u64 = 84_000;

    for i in 1u64..=60 {
        let t = i as f64 * 0.5;
        let send = epoch + (t * 1e9) as u64;
        let mcu_resp = ((t + half_rtt) * true_freq) as u64;
        let predicted = Prediction { clock: (t * true_freq) as u64, tolerance };
        assert!(est.add_dedicated_sample(
            send,
            send + 300_000,
            mcu_resp,
            25_200,
            Some(predicted),
            clock.now(),
        ));
        clock.advance(500 * MILLI);
    }
    let before = est.samples().clone();

    let outlier_t = 30.5_f64;
    let send = epoch + (outlier_t * 1e9) as u64;
    let mcu_resp_outlier = ((outlier_t + half_rtt) * true_freq) as u64 + 840_000;
    let predicted = Prediction { clock: (outlier_t * true_freq) as u64, tolerance };
    assert!(!est.add_dedicated_sample(
        send,
        send + 300_000,
        mcu_resp_outlier,
        25_200,
        Some(predicted),
        clock.now(),
    ));
    assert_eq!(*est.samples(), before);
}

#[test]
fn a_glitch_counts_on_the_low_side_and_after_ten_seconds() {
    let mut est = ClockSyncEstimator::new(0);
    let p = Prediction { clock: 1_000_000, tolerance: 100 };
    assert!(est.add_dedicated_sample(SECOND, SECOND, 1_000_050, 0, Some(p), 0));
    assert!(est.add_dedicated_sample(2 * SECOND, 2 * SECOND, 900_000, 0, Some(p), 0));
    assert!(!est.add_dedicated_sample(3 * SECOND, 3 * SECOND, 1_000_101, 0, Some(p), 0));
    assert!(!est.add_dedicated_sample(11 * SECOND - 1, 11 * SECOND, 1_000_101, 0, Some(p), 0));
    assert!(est.add_dedicated_sample(11 * SECOND, 11 * SECOND, 1_000_101, 0, Some(p), 0));
    assert_eq!(est.sample_count(), 3);
}

#[test]
fn the_newest_samples_are_kept() {
    let mut est = ClockSyncEstimator::new(0);
    for i in 0..(WINDOW as u64 + 5) {
        est.add_piggyback_sample(i, i * 10, i);
    }
    assert_eq!(est.sample_count(), 30);
    assert_eq!(est.samples()[0].mcu_clock, 50);
    assert_eq!(est.samples()[29].mcu_clock, 340);
    assert_eq!(est.samples()[29].source, SampleSource::Piggyback);
    assert_eq!(est.samples()[29].rtt_us, 0);
}

#[test]
fn samples_are_timed_from_the_beginning() {
    let mut est = ClockSyncEstimator::new(10 * SECOND);
    assert_eq!(est.epoch(), 10 * SECOND);
    assert_eq!(est.host_time_at(12 * SECOND), 2 * SECOND);
    assert_eq!(est.host_time_at(9 * SECOND), 0);
    // A round trip longer than 32 bits of microseconds, and a clock that had
    // not run for as long.
    est.add_dedicated_sample(11 * SECOND, 5_000_000 * SECOND, 5, 9, None, 77);
    let x = est.samples()[0];
    assert_eq!((x.host_time, x.mcu_clock, x.rtt_us, x.recorded_at), (SECOND, 0, u32::MAX, 77));
}

#[test]
fn the_estimate_may_be_used_when_it_is_fresh() {
    let mut est = ClockSyncEstimator::new(0);
    for i in 0..29 {
        est.add_piggyback_sample_at_now(i, 0);
    }
    assert_eq!(
        est.is_quality_gate_passed(None, None, 0),
        Err(QualityGateFailure::InsufficientWarmup { samples: 29, required: 30 })
    );
    est.add_piggyback_sample_at_now(29, 0);
    assert_eq!(
        est.is_quality_gate_passed(Some(100.5_f64.to_bits()), Some(1), 0),
        Err(QualityGateFailure::ResidualExceeded {
            observed_us: 100.5_f64.to_bits(),
            max_us: 100.0_f64.to_bits()
        })
    );
    assert_eq!(
        est.is_quality_gate_passed(None, Some(101.0_f64.to_bits()), 0),
        Err(QualityGateFailure::DriftPpmExceeded {
            observed_ppm: 101.0_f64.to_bits(),
            max_ppm: 100.0_f64.to_bits()
        })
    );
    assert_eq!(
        est.is_quality_gate_passed(None, None, 0),
        Err(QualityGateFailure::DedicatedSampleStale { age: None, max_age: 500 * MILLI })
    );
    est.add_dedicated_sample(0, 0, 30, 0, None, SECOND);
    assert_eq!(est.is_quality_gate_passed(None, None, SECOND), Ok(()));
    assert_eq!(est.is_quality_gate_passed(None, None, SECOND + 501 * MILLI - 1), Ok(()));
    assert_eq!(
        est.is_quality_gate_passed(None, None, SECOND + 501 * MILLI),
        Err(QualityGateFailure::DedicatedSampleStale {
            age: Some(501 * MILLI),
            max_age: 500 * MILLI
        })
    );
    assert_eq!(
        est.is_quality_gate_passed(None, None, SECOND + 2001 * MILLI),
        Err(QualityGateFailure::LastSampleStale {
            age: Some(2001 * MILLI),
            max_age: 2000 * MILLI
        })
    );
}

#[test]
fn requests_are_numbered_from_one() {
    let mut est = ClockSyncEstimator::new(0);
    assert_eq!(est.next_clock_sync_request_id(), 1);
    assert_eq!(est.next_clock_sync_request_id(), 2);
}

#[test]
fn clocks_saturate_as_signed_numbers() {
    assert_eq!(mcu_time_from(1000, 500), 1500);
    assert_eq!(mcu_time_from(1000, -400), 600);
    assert_eq!(mcu_time_from(1000, -1001), 0);
    assert_eq!(mcu_time_from(1, i64::MAX), i64::MAX as u64);
    assert_eq!(mcu_time_from(i64::MAX as u64, i64::MIN), 0);
    assert_eq!(mcu_time_from(u64::MAX, 5), 4);
    assert_eq!(mcu_time_from(u64::MAX, 1), 0);
    assert_eq!(mcu_time_from(1 << 63, i64::MAX), 0);
}

#[test]
fn the_router_projects_clocks() {
    let mut r = PassthroughRouter::new();
    let h = r.claim_mcu("mcu");
    assert!(matches!(r.compute_ack_clock(h, 1_000_000), Ok(0)));
    let freq = 100_000_000.0_f64.to_bits();
    let offset = 2.5_f64.to_bits();
    assert!(r.set_clock_est(h, freq, offset, 7000).is_ok());
    assert!(matches!(r.clock_est(h), Ok(c) if c == ClockEst { freq, offset, last_clock: 7000 }));
    assert!(matches!(r.compute_ack_clock(h, 1_000_000), Ok(1_007_000)));
    assert!(matches!(r.host_time_to_mcu_clock(h, 3), Ok(7003)));
    assert!(r.set_clock_est(h, freq, offset, u64::MAX).is_ok());
    assert!(matches!(r.compute_ack_clock(h, 2), Ok(1)));
    assert!(r.set_clock_est(h, (-0.0_f64).to_bits(), offset, 7000).is_ok());
    assert!(matches!(r.host_time_to_mcu_clock(h, 3), Ok(0)));
    let gone = McuHandle::from_raw(9);
    assert!(matches!(r.clock_est(gone), Err(RouterError::UnknownMcu(m)) if m == gone));
    assert!(matches!(r.set_clock_est(gone, 1, 1, 1), Err(RouterError::UnknownMcu(_))));
    assert!(matches!(r.compute_ack_clock(gone, 1), Err(RouterError::UnknownMcu(_))));
}
