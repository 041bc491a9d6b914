//! Tests of the map from millimetres to encoder counts.

use kalico_host_rt::ethercat::scale::CountMap;
use kalico_host_rt::ethercat::telemetry::EcTelemetry;

fn map(counts_per_mm: f64, actual_counts: i32, pos_mm: f64) -> CountMap {
    CountMap::new(counts_per_mm.to_bits(), actual_counts, pos_mm.to_bits())
}

fn target(m: &CountMap, pos_mm: f64) -> i32 {
    let gain = f64::from_bits(m.counts_per_mm);
    let delta = ((pos_mm - f64::from_bits(m.origin_mm)) * gain).round() as i32;
    assert!(m.in_range(delta));
    m.target_counts(delta)
}

#[test]
fn origin_maps_to_itself() {
    let m = map(3276.8, 14578, 5.0);
    assert_eq!(target(&m, 5.0), 14578);
}

#[test]
fn positive_delta_rounds_and_adds() {
    let m = map(1000.0, 0, 0.0);
    assert_eq!(target(&m, 1.0004), 1000);
    assert_eq!(target(&m, 1.0006), 1001);
}

#[test]
fn negative_delta() {
    let m = map(1000.0, 5000, 10.0);
    assert_eq!(target(&m, 9.0), 4000);
}

#[test]
fn targets_beyond_the_encoder_are_told() {
    let m = map(1.0, i32::MAX, 0.0);
    assert!(m.in_range(0));
    assert!(!m.in_range(1));
    assert!(m.in_range(i32::MIN));
}

#[test]
fn telemetry_starts_at_zero() {
    let t = EcTelemetry::default();
    assert_eq!((t.error_code, t.statusword, t.torque_actual), (0, 0, 0));
    assert_eq!((t.position_actual, t.following_error), (0, 0));
    assert_eq!((t.position_demand, t.target_position), (0, 0));
}

#[test]
fn origin_no_jump() {
    let counts_per_mm = 3276.8_f64;
    let actual_counts = 14578_i32;
    let origin_mm = 7.5_f64;
    let m = map(counts_per_mm, actual_counts, origin_mm);
    assert_eq!(
        target(&m, origin_mm),
        actual_counts,
        "origin_mm must map to actual_counts exactly; a mismatch is a startup jump"
    );
    let one_count_fwd = origin_mm + 1.0 / counts_per_mm;
    assert_eq!(
        target(&m, one_count_fwd),
        actual_counts + 1,
        "one count forward must be actual_counts + 1"
    );
    let one_count_back = origin_mm - 1.0 / counts_per_mm;
    assert_eq!(
        target(&m, one_count_back),
        actual_counts - 1,
        "one count back must be actual_counts - 1"
    );
}
