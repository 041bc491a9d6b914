//! Tests of the fault latch.

use kalico_host_rt::fault::{parse_fault_event, FaultLatch};
use kalico_host_rt::host_io::runtime_events::FaultEvent as RuntimeFaultEvent;
use kalico_host_rt::transport::{MessageParams, MessageValue, SubscribeError};

fn make_event(fault_code: u16, synthesized: bool) -> RuntimeFaultEvent {
    RuntimeFaultEvent {
        fault_code,
        fault_detail: 0,
        segment_id: 0,
        synthesized,
    }
}

#[test]
fn dispatch_latches_first_event() {
    let mut latch = FaultLatch::default();
    latch.dispatch(make_event(17, false));
    assert_eq!(latch.cell.as_ref().unwrap().fault_code, 17);
}

#[test]
fn dispatch_does_not_overwrite_real_with_real() {
    let mut latch = FaultLatch::default();
    latch.dispatch(make_event(1, false));
    latch.dispatch(make_event(2, false));
    assert_eq!(latch.cell.as_ref().unwrap().fault_code, 1);
}

#[test]
fn dispatch_upgrades_synthesized_with_edge() {
    let mut latch = FaultLatch::default();
    latch.dispatch(make_event(99, true)); // synthesized
    latch.dispatch(make_event(42, false)); // real MCU edge
    assert_eq!(latch.cell.as_ref().unwrap().fault_code, 42);
    assert!(!latch.cell.as_ref().unwrap().synthesized);
}

#[test]
fn subscribe_replays_latched_to_new_receiver() {
    let mut latch = FaultLatch::default();
    latch.dispatch(make_event(7, false));

    let replayed = latch
        .subscribe()
        .expect("first subscribe should succeed")
        .expect("should have received replayed fault");
    assert_eq!(replayed.fault_code, 7);
}

#[test]
fn second_subscribe_returns_error() {
    let mut latch = FaultLatch::default();
    latch.subscribe().expect("first subscribe should succeed");
    let err = latch.subscribe().expect_err("second subscribe should fail");
    assert!(
        matches!(err, SubscribeError::AlreadySubscribed { channel: "fault" }),
        "expected AlreadySubscribed, got {err:?}"
    );
}

#[test]
fn only_a_latched_event_reaches_the_subscriber() {
    let mut latch = FaultLatch::new();
    assert!(latch.dispatch(make_event(1, true)).is_none());
    assert!(latch.subscribe().unwrap().is_some());
    assert_eq!(latch.dispatch(make_event(2, false)).unwrap().fault_code, 2);
    assert!(latch.dispatch(make_event(3, true)).is_none());
}

#[test]
fn fault_event_is_read_from_fields() {
    let mut p = MessageParams::new();
    p.insert("fault_code", MessageValue::U32(0x1_0007));
    p.insert("fault_detail", MessageValue::U32(8));
    p.insert("segment_id", MessageValue::I32(-1));
    let e = parse_fault_event(&p).unwrap();
    assert_eq!(e.fault_code, 7);
    assert_eq!(e.fault_detail, 8);
    assert_eq!(e.segment_id, u32::MAX);
}

#[test]
fn a_fault_without_a_field_is_none() {
    let fields = ["fault_code", "fault_detail", "segment_id"];
    for missing in fields {
        let mut p = MessageParams::new();
        for f in fields {
            if f != missing {
                p.insert(f, MessageValue::U32(1));
            }
        }
        assert!(parse_fault_event(&p).is_none(), "{missing}");
    }
    assert!(parse_fault_event(&MessageParams::new()).is_none());
}
