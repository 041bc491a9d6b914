//! Tests of endstops.

use kalico_host_rt::endstop::{
    arm_answer, arm_endstop, arm_endstop_with_timeout, decode_trip_event, disarm_answer,
    disarm_endstop, disarm_endstop_with_timeout, encode_sources, encode_steppers, ArmPolicy,
    ArmStatus, DisarmStatus, EndstopError, SourceKind, SourceSpec, DEFAULT_ARM_TIMEOUT,
    DEFAULT_DISARM_TIMEOUT, MAX_SOURCES, MAX_STEPPERS, SOURCE_RECORD_LEN,
};
use kalico_host_rt::host_io::codec::FieldValue;
use kalico_host_rt::transport::{MessageParams, MessageValue, Transport, TransportError};
use std::sync::Mutex;

#[test]
fn encode_sources_round_trip_one_source() {
    let s = SourceSpec {
        kind: SourceKind::TmcDiag,
        gpio: 0x1234,
        active_high: true,
        policy: ArmPolicy::IgnoreUntilMoving,
        sample_n: 3,
        velocity_axis: 0x03, // X | Y
        v_min_q16: 0xDEADBEEF,
    };
    let buf = encode_sources(&[s]).unwrap();
    assert_eq!(buf.len(), SOURCE_RECORD_LEN);
    assert_eq!(buf[0], 1); // TmcDiag
    assert_eq!(&buf[1..3], &[0x34, 0x12]); // gpio LE
    assert_eq!(buf[3], 1); // active_high
    assert_eq!(buf[4], 2); // IgnoreUntilMoving
    assert_eq!(buf[5], 3); // sample_n
    assert_eq!(buf[6], 0x03); // velocity_axis
    assert_eq!(&buf[7..11], &[0xEF, 0xBE, 0xAD, 0xDE]); // v_min_q16 LE
}

#[test]
fn encode_sources_rejects_overflow() {
    let s = SourceSpec {
        kind: SourceKind::Physical,
        gpio: 0,
        active_high: false,
        policy: ArmPolicy::TripImmediately,
        sample_n: 1,
        velocity_axis: 0x07,
        v_min_q16: 0,
    };
    let too_many = vec![s; MAX_SOURCES + 1];
    assert!(matches!(
        encode_sources(&too_many),
        Err(EndstopError::TooManySources(_))
    ));
}

#[test]
fn encode_steppers_round_trip() {
    let oids = [3u8, 7, 11];
    let buf = encode_steppers(&oids).unwrap();
    assert_eq!(buf, oids.to_vec());
}

#[test]
fn encode_steppers_rejects_overflow() {
    let too_many = vec![0u8; MAX_STEPPERS + 1];
    assert!(matches!(
        encode_steppers(&too_many),
        Err(EndstopError::TooManySteppers(_))
    ));
}

#[test]
fn arm_status_round_trip() {
    for s in [
        ArmStatus::Armed,
        ArmStatus::AlreadyTripped,
        ArmStatus::Rejected,
    ] {
        assert_eq!(ArmStatus::from_u8(s as u8), Some(s));
    }
    assert_eq!(ArmStatus::from_u8(99), None);
}

#[test]
fn disarm_status_round_trip() {
    for s in [
        DisarmStatus::Disarmed,
        DisarmStatus::AlreadyTripped,
        DisarmStatus::Unknown,
    ] {
        assert_eq!(DisarmStatus::from_u8(s as u8), Some(s));
    }
    assert_eq!(DisarmStatus::from_u8(99), None);
}

/// A transport that answers every call alike and keeps what was asked.
struct Fixed {
    answer: fn() -> Result<MessageParams, TransportError>,
    asked: Mutex<Vec<(String, Vec<(String, String)>, String, u64)>>,
}

impl Fixed {
    fn new(answer: fn() -> Result<MessageParams, TransportError>) -> Self {
        Fixed { answer, asked: Mutex::new(Vec::new()) }
    }
}

fn value_text(v: &FieldValue<'_>) -> String {
    match v {
        FieldValue::U32(i) => format!("u32 {i}"),
        FieldValue::Byte(b) => format!("byte {b}"),
        FieldValue::Buffer(b) => format!("{b:?}"),
        _ => panic!("no such argument is sent"),
    }
}

impl Transport for Fixed {
    fn call(
        &self,
        _cmd: &str,
        _expected_response_name: &str,
        _timeout: u64,
    ) -> Result<MessageParams, TransportError> {
        panic!("no textual command is sent")
    }

    fn send_typed(
        &self,
        _name: &str,
        _args: &[(&str, FieldValue<'_>)],
    ) -> Result<(), TransportError> {
        panic!("every command waits for its response")
    }

    fn call_typed(
        &self,
        name: &str,
        args: &[(&str, FieldValue<'_>)],
        expected_response_name: &str,
        timeout: u64,
    ) -> Result<MessageParams, TransportError> {
        let named = args.iter().map(|(n, v)| (n.to_string(), value_text(v))).collect();
        self.asked.lock().unwrap().push((
            name.to_string(),
            named,
            expected_response_name.to_string(),
            timeout,
        ));
        (self.answer)()
    }
}

fn status(v: u32) -> MessageParams {
    let mut p = MessageParams::new();
    p.insert("status", MessageValue::U32(v));
    p
}

fn source() -> SourceSpec {
    SourceSpec {
        kind: SourceKind::Physical,
        gpio: 7,
        active_high: false,
        policy: ArmPolicy::WaitForClear,
        sample_n: 1,
        velocity_axis: 0,
        v_min_q16: 2,
    }
}

#[test]
fn arming_sends_the_arguments_and_reads_the_status() {
    let io = Fixed::new(|| Ok(status(1)));
    let r = arm_endstop(&io, 5, 0x1_0000_0002, &[source()], &[3, 4]);
    assert_eq!(r.unwrap(), ArmStatus::AlreadyTripped);
    let asked = io.asked.lock().unwrap();
    assert_eq!(asked.len(), 1);
    assert_eq!(asked[0].0, "kalico_arm_endstop");
    assert_eq!(asked[0].2, "kalico_arm_endstop_response");
    assert_eq!(asked[0].3, DEFAULT_ARM_TIMEOUT);
    let want: Vec<(String, String)> = [
        ("arm_id", "u32 5"),
        ("arm_clock_lo", "u32 2"),
        ("arm_clock_hi", "u32 1"),
        ("source_count", "byte 1"),
        ("sources", "[0, 7, 0, 0, 1, 1, 0, 2, 0, 0, 0]"),
        ("stepper_count", "byte 2"),
        ("steppers", "[3, 4]"),
    ]
    .iter()
    .map(|(a, b)| (a.to_string(), b.to_string()))
    .collect();
    assert_eq!(asked[0].1, want);
}

#[test]
fn arming_too_much_sends_nothing() {
    let io = Fixed::new(|| Ok(status(0)));
    let many = vec![source(); MAX_SOURCES + 1];
    assert!(matches!(
        arm_endstop_with_timeout(&io, 1, 2, &many, &[0; MAX_STEPPERS + 1], 9),
        Err(EndstopError::TooManySources(5))
    ));
    assert!(matches!(
        arm_endstop_with_timeout(&io, 1, 2, &[], &[0; MAX_STEPPERS + 1], 9),
        Err(EndstopError::TooManySteppers(9))
    ));
    assert!(io.asked.lock().unwrap().is_empty());
}

#[test]
fn arming_passes_errors_on() {
    let io = Fixed::new(|| Err(TransportError::Timeout));
    let e = arm_endstop(&io, 1, 2, &[], &[]).unwrap_err();
    assert!(matches!(e, EndstopError::Transport(TransportError::Timeout)));
    let io = Fixed::new(|| Ok(MessageParams::new()));
    let e = arm_endstop(&io, 1, 2, &[], &[]).unwrap_err();
    assert!(matches!(e, EndstopError::MissingField("status")));
    let io = Fixed::new(|| Ok(status(256 + 9)));
    let e = arm_endstop(&io, 1, 2, &[], &[]).unwrap_err();
    assert!(matches!(e, EndstopError::InvalidStatus(9)));
}

#[test]
fn disarming_asks_and_reads_the_status() {
    let io = Fixed::new(|| Ok(status(2)));
    assert_eq!(disarm_endstop(&io, 8).unwrap(), DisarmStatus::Unknown);
    assert_eq!(disarm_endstop_with_timeout(&io, 8, 3).unwrap(), DisarmStatus::Unknown);
    let asked = io.asked.lock().unwrap();
    assert_eq!(asked[0].0, "kalico_disarm_endstop");
    assert_eq!(asked[0].1, vec![("arm_id".to_string(), "u32 8".to_string())]);
    assert_eq!(asked[0].2, "kalico_disarm_endstop_response");
    assert_eq!(asked[0].3, DEFAULT_DISARM_TIMEOUT);
    assert_eq!(asked[1].3, 3);
}

#[test]
fn answers_need_a_known_status() {
    assert_eq!(arm_answer(&status(0)).unwrap(), ArmStatus::Armed);
    assert!(matches!(arm_answer(&status(3)), Err(EndstopError::InvalidStatus(3))));
    assert_eq!(disarm_answer(&status(0)).unwrap(), DisarmStatus::Disarmed);
    assert!(matches!(
        disarm_answer(&MessageParams::new()),
        Err(EndstopError::MissingField("status"))
    ));
}

fn trip() -> MessageParams {
    let mut p = MessageParams::new();
    p.insert("arm_id", MessageValue::U32(3));
    p.insert("trip_clock_lo", MessageValue::U32(4));
    p.insert("trip_clock_hi", MessageValue::U32(1));
    p.insert("trip_source_idx", MessageValue::U32(2));
    p.insert("fmt_version", MessageValue::U32(1));
    p.insert("stepper_count", MessageValue::U32(1));
    p.insert("stepper_data", MessageValue::Bytes(vec![9, 0xFE, 0xFF, 0xFF, 0xFF]));
    p
}

#[test]
fn trip_event_is_read() {
    let t = decode_trip_event(&trip()).unwrap();
    assert_eq!(t.arm_id, 3);
    assert_eq!(t.trip_clock, 0x1_0000_0004);
    assert_eq!(t.trip_source_idx, 2);
    assert_eq!(t.steppers.len(), 1);
    assert_eq!(t.steppers[0].oid, 9);
    assert_eq!(t.steppers[0].step_count, -2);
}

#[test]
fn bad_trip_events_are_refused() {
    let mut p = trip();
    p.insert("fmt_version", MessageValue::U32(2));
    assert!(matches!(decode_trip_event(&p), Err(EndstopError::UnsupportedFmtVersion(2))));
    let mut p = trip();
    p.insert("stepper_count", MessageValue::U32(2));
    assert!(matches!(
        decode_trip_event(&p),
        Err(EndstopError::MalformedTripEvent("stepper_data length mismatch"))
    ));
    assert!(matches!(
        decode_trip_event(&MessageParams::new()),
        Err(EndstopError::MissingField("arm_id"))
    ));
}

#[test]
fn endstop_errors_in_words() {
    assert!(EndstopError::TooManySources(5).to_text().contains('5'));
    assert!(EndstopError::Transport(TransportError::Closed).to_text().contains("Closed"));
}
