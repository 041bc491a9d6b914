//! Tests of events, native messages and calls.

use kalico_host_rt::host_io::calls::{
    after_reactor, call, call_typed, finish_call, finish_kalico_call, send_typed, AfterReactor,
    KalicoHostIoConfig, Waited,
};
use kalico_host_rt::host_io::codec::FieldValue;
use kalico_host_rt::host_io::events::{
    Delivery, EventDispatcher, HostEvent, HostEventDispatcher, RuntimeEventDispatcher, SendOutcome,
    TraceRing,
};
use kalico_host_rt::host_io::kalico_native::{
    dispatch_kalico_frame, lift_event_to_runtime_event, IdentifyFields, KalicoCallOutcome,
    KalicoDispatchResult, KalicoNativeState, MessageKind, NativeEvent, NativeFrame, NativeHeader,
    NativeProtocol, PendingKalicoCall,
};
use kalico_host_rt::host_io::parser::MsgProtoParser;
use kalico_host_rt::host_io::reactor_types::ReactorCommand;
use kalico_host_rt::host_io::rtt::{RttEstimator, MAX_RTO, MIN_RTO};
use kalico_host_rt::host_io::runtime_events::{
    CreditFreedEvent, FaultEvent, RuntimeEvent, StatusEvent, TraceEvent,
};
use kalico_host_rt::transport::{MessageParams, MessageValue, SubscribeError, TransportError};

fn trace(flags: u32) -> TraceEvent {
    TraceEvent { count: 1, data: vec![1], flags }
}

#[test]
fn a_lost_trace_event_flags_the_next() {
    let mut t = TraceRing::new(4);
    t.set_host_event_tx();
    assert!(t.subscribe(0).unwrap().is_none());
    assert!(t.is_subscribed());
    assert!(matches!(
        t.subscribe(0),
        Err(SubscribeError::AlreadySubscribed { channel: "trace" })
    ));
    assert_eq!(t.mark(trace(2)).flags, 2);
    assert!(t.dispatch(SendOutcome::Full, 5).is_some());
    assert_eq!(t.mark(trace(2)).flags, 3);
    assert!(t.dispatch(SendOutcome::Sent, 6).is_none());
    assert_eq!(t.mark(trace(2)).flags, 2);
}

#[test]
fn a_trace_subscriber_that_comes_back_hears_of_the_gap() {
    let mut t = TraceRing::new(4);
    t.set_host_event_tx();
    t.subscribe(0).unwrap();
    assert_eq!(
        t.dispatch(SendOutcome::Disconnected, 7),
        Some(HostEvent::TraceSubscriberDisconnected { at: 7 })
    );
    assert!(!t.is_subscribed());
    assert!(t.dispatch(SendOutcome::Sent, 8).is_none());
    match t.subscribe(9).unwrap() {
        Some(HostEvent::TraceSubscriberReattached { events_lost_during_gap, at: 9 }) => {
            assert!(events_lost_during_gap > 0);
        }
        other => panic!("expected Reattached, got {other:?}"),
    }
}

#[test]
fn a_full_inbox_drops_host_events() {
    let mut d = HostEventDispatcher::new(2);
    for at in 0..3 {
        d.post(Some(HostEvent::TraceSubscriberDisconnected { at }));
    }
    d.post(None);
    assert_eq!(d.drain_pending().len(), 2);
    assert!(d.drain_pending().is_empty());
    assert!(d.subscribe().is_ok());
    assert!(d.sender_handle());
    assert!(d.subscribe().is_err());
    d.dispatch(SendOutcome::Disconnected);
    assert!(!d.sender_handle());
}

#[test]
fn the_general_channel_takes_one_subscriber() {
    let mut d = RuntimeEventDispatcher::new();
    assert!(d.subscribe().is_ok());
    assert!(d.subscribe().is_err());
    d.dispatch(SendOutcome::Full);
    assert!(d.subscribed);
    d.dispatch(SendOutcome::Disconnected);
    assert!(!d.subscribed);
}

fn status(engine_status: u8, retired: u32) -> StatusEvent {
    StatusEvent {
        engine_status,
        queue_depth: 3,
        current_segment_id: 4,
        last_fault: 5,
        fault_detail: 6,
        retired_through_segment_id: retired,
    }
}

#[test]
fn a_status_tells_of_faults_and_retired_segments() {
    let mut d = EventDispatcher::new(8, 8);
    d.fault_latch.subscribe().unwrap();
    let out = d.dispatch(RuntimeEvent::Status(status(3, 7)));
    assert_eq!(d.status_snapshot, status(3, 7));
    assert_eq!(out.len(), 4);
    assert!(matches!(out[0], Delivery::Snapshot(s) if s == status(3, 7)));
    match &out[1] {
        Delivery::Fault(f) => {
            assert_eq!(
                *f,
                FaultEvent { fault_code: 5, fault_detail: 6, segment_id: 4, synthesized: true }
            );
        }
        other => panic!("expected Fault, got {other:?}"),
    }
    assert!(matches!(out[2], Delivery::Runtime(RuntimeEvent::Status(_))));
    match &out[3] {
        Delivery::Runtime(RuntimeEvent::CreditFreed(c)) => {
            assert_eq!(*c, CreditFreedEvent { retired_through_segment_id: 7, free_slots: 4 });
        }
        other => panic!("expected CreditFreed, got {other:?}"),
    }
    // the same status again: no new fault, no new credit
    let out = d.dispatch(RuntimeEvent::Status(status(3, 7)));
    assert_eq!(out.len(), 2);
}

#[test]
fn heartbeats_and_logs_need_their_hooks() {
    let mut d = EventDispatcher::new(8, 8);
    assert!(d.dispatch(RuntimeEvent::Heartbeat { retired_counts: vec![1] }).is_empty());
    d.heartbeat_callback = true;
    match d.dispatch(RuntimeEvent::Heartbeat { retired_counts: vec![1] }).pop() {
        Some(Delivery::Heartbeat(c)) => assert_eq!(c, vec![1]),
        other => panic!("expected Heartbeat, got {other:?}"),
    }
    d.set_mcu_log_hook();
    assert!(d.mcu_log_hook);
}

#[test]
fn a_lost_trace_event_is_told_as_host_event() {
    let mut d = EventDispatcher::new(8, 8);
    d.trace_ring.subscribe(0).unwrap();
    d.trace_sent(SendOutcome::Disconnected, 3);
    assert_eq!(
        d.host_event_dispatcher.drain_pending(),
        vec![HostEvent::TraceSubscriberDisconnected { at: 3 }]
    );
}

#[test]
fn messages_are_lifted_to_events() {
    let mut p = MessageParams::new();
    p.insert("retired_through_segment_id", MessageValue::U32(9));
    p.insert("free_slots", MessageValue::U32(4));
    match RuntimeEvent::lift("kalico_credit_freed", p) {
        RuntimeEvent::CreditFreed(c) => {
            assert_eq!(c, CreditFreedEvent { retired_through_segment_id: 9, free_slots: 4 });
        }
        other => panic!("expected CreditFreed, got {other:?}"),
    }
}

fn protocol() -> NativeProtocol {
    NativeProtocol { identify_response_len: 80, proto_version: 2, schema_hash: vec![0xAB; 32] }
}

#[test]
fn status_heartbeat_lifts_to_runtime_event() {
    let hb = NativeEvent::Heartbeat { retired_counts: vec![7, 0, 3] };
    match lift_event_to_runtime_event(MessageKind::StatusHeartbeat, Some(hb)) {
        Some(RuntimeEvent::Heartbeat { retired_counts }) => {
            assert_eq!(retired_counts, vec![7, 0, 3]);
        }
        other => panic!("expected Heartbeat event, got {other:?}"),
    }
}

fn frame(kind: MessageKind, correlation_id: u32) -> NativeFrame {
    NativeFrame {
        channel: 0,
        payload_len: 80,
        header: Some(NativeHeader { kind: Some(kind), correlation_id }),
        body: vec![1, 2],
        identify: None,
        event: None,
    }
}

#[test]
fn a_native_response_completes_its_call() {
    let mut st = KalicoNativeState::new(protocol());
    let cid = st.allocate_correlation_id();
    assert_eq!(cid, 1);
    st.add_call(PendingKalicoCall { correlation_id: cid, token: 6, deadline: 10 });
    match dispatch_kalico_frame(&mut st, frame(MessageKind::Other(7), cid)) {
        KalicoDispatchResult::Call {
            token: 6,
            outcome: KalicoCallOutcome::Response { kind: MessageKind::Other(7), body },
        } => assert_eq!(body, vec![1, 2]),
        other => panic!("expected Call, got {other:?}"),
    }
    assert!(matches!(
        dispatch_kalico_frame(&mut st, frame(MessageKind::Other(7), cid)),
        KalicoDispatchResult::Ignored
    ));
}

#[test]
fn overdue_native_calls_are_taken_out() {
    let mut st = KalicoNativeState::new(protocol());
    st.add_call(PendingKalicoCall { correlation_id: 1, token: 6, deadline: 10 });
    st.add_call(PendingKalicoCall { correlation_id: 2, token: 7, deadline: 11 });
    let late = st.take_overdue(10);
    assert_eq!(late.len(), 1);
    assert_eq!(late[0].token, 6);
    assert!(st.take_call(2).is_some());
    assert!(st.take_call(2).is_none());
}

#[test]
fn an_identify_response_is_checked() {
    let mut st = KalicoNativeState::new(protocol());
    st.identify_pending = Some(3);
    let mut f = frame(MessageKind::IdentifyResponse, 1);
    f.identify = Some(IdentifyFields {
        proto_version: 2,
        schema_hash: vec![0xAB; 32],
        reset_epoch: 9,
        capabilities: 1,
    });
    match dispatch_kalico_frame(&mut st, f) {
        KalicoDispatchResult::Identify { token: Some(3), outcome: Ok(o) } => {
            assert_eq!(o.reset_epoch, 9);
            assert_eq!(o.capabilities, 1);
        }
        other => panic!("expected Identify, got {other:?}"),
    }
    assert!(st.identified);
    let mut f = frame(MessageKind::IdentifyResponse, 1);
    f.identify = Some(IdentifyFields {
        proto_version: 2,
        schema_hash: vec![0xCD; 32],
        reset_epoch: 9,
        capabilities: 1,
    });
    match dispatch_kalico_frame(&mut st, f) {
        KalicoDispatchResult::Identify { token: None, outcome: Err(TransportError::Parse(s)) } => {
            assert!(s.contains(&"ab".repeat(32)), "{s}");
            assert!(s.contains(&"cd".repeat(32)), "{s}");
        }
        other => panic!("expected Identify, got {other:?}"),
    }
}

#[test]
fn round_trip_estimate_follows_the_samples() {
    let mut e = RttEstimator::new();
    assert_eq!(e.current_rto(), MIN_RTO);
    e.update(400_000_000);
    // first sample r: r + 4 * r / 2
    assert_eq!(e.current_rto(), 1_200_000_000);
    e.backoff();
    assert_eq!(e.current_rto(), 2_400_000_000);
    e.backoff();
    e.backoff();
    assert_eq!(e.current_rto(), MAX_RTO);
}

#[test]
fn call_outcomes_are_told() {
    let (r, abandon) = finish_call(Waited::Answered(Err(TransportError::DispatcherTimeout)));
    assert!(matches!(r, Err(TransportError::DispatcherTimeout)));
    assert!(!abandon);
    let (r, abandon) = finish_call(Waited::TimedOut);
    assert!(matches!(r, Err(TransportError::Timeout)));
    assert!(abandon);
    let (r, abandon) = finish_call(Waited::Disconnected);
    assert!(matches!(r, Err(TransportError::Closed)));
    assert!(abandon);
    assert!(matches!(
        finish_kalico_call(Waited::Answered(Ok(KalicoCallOutcome::Reset))),
        Err(TransportError::Closed)
    ));
    let ok = finish_kalico_call(Waited::Answered(Ok(KalicoCallOutcome::Response {
        kind: MessageKind::Other(4),
        body: vec![8],
    })));
    assert_eq!(ok.unwrap(), (MessageKind::Other(4), vec![8]));
    assert!(matches!(finish_kalico_call(Waited::TimedOut), Err(TransportError::Timeout)));
}

#[test]
fn calls_become_requests() {
    match call("get_clock", "clock", 4, 9) {
        ReactorCommand::Submit { call_id: 4, cmd, expected_response_name, deadline: 9 } => {
            assert_eq!(cmd, "get_clock");
            assert_eq!(expected_response_name, "clock");
        }
        other => panic!("expected Submit, got {other:?}"),
    }
    let p = MsgProtoParser::new_empty();
    match call_typed(&p, "nope", &[("a", FieldValue::U32(1))], "r", 1, 2) {
        Err(TransportError::Parse(s)) => assert_eq!(s, "UnknownCommand(\"nope\")"),
        other => panic!("expected Parse, got {other:?}"),
    }
    assert!(send_typed(&p, "nope", &[]).is_err());
}

#[test]
fn the_usual_configuration() {
    let c = KalicoHostIoConfig::default();
    assert_eq!(c.trace_capacity, 256);
    assert_eq!(c.host_event_capacity, 64);
    assert_eq!(c.runtime_event_capacity, 64);
    assert_eq!(c.default_call_timeout, 100_000_000);
    assert_eq!(c.identify_timeout, 15_000_000_000);
    assert_eq!(c.default_dispatcher_timeout, 30_000_000_000);
}

#[test]
fn only_a_lost_critical_connection_aborts() {
    assert_eq!(after_reactor(true, true, false), AfterReactor::Nothing);
    assert_eq!(after_reactor(false, false, false), AfterReactor::Warn);
    assert_eq!(after_reactor(false, true, true), AfterReactor::Report);
    assert_eq!(after_reactor(false, true, false), AfterReactor::Abort);
}

#[test]
fn transport_errors_in_words() {
    assert_eq!(TransportError::Closed.to_text(), "Closed");
    assert_eq!(TransportError::Parse("a\"".into()).to_text(), "Parse(\"a\\\"\")");
}
