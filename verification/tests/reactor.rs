//! Tests of the reactor, driven over a port in memory.

use kalico_host_rt::clock::{Clock, MockClock};
use kalico_host_rt::fault::FaultLatch;
use kalico_host_rt::host_io::enums::EnumValue;
use kalico_host_rt::host_io::identify::IdentifySeqState;
use kalico_host_rt::host_io::interceptor::InterceptorId;
use kalico_host_rt::host_io::kalico_native::NativeProtocol;
use kalico_host_rt::host_io::parser::{DataDictionary, MsgProtoParser};
use kalico_host_rt::host_io::reactor::Reactor;
use kalico_host_rt::host_io::reactor_model::HostFaultCodes;
use kalico_host_rt::host_io::reactor_types::{
    Effect, EventChannel, Fate, Frame, Outgoing, PollOutcome, ReactorCommand, ReactorState,
    TickAction, TickEvent, TickOutcome,
};
use kalico_host_rt::host_io::rtt::{MAX_RTO, MIN_RTO};
use kalico_host_rt::host_io::vlq::encode_vlq;
use kalico_host_rt::host_io::window::MAX_PENDING_BLOCKS;
use kalico_host_rt::host_io::wire::{build_frame, extract_packet, MESSAGE_MIN, MESSAGE_SEQ_MASK};
use kalico_host_rt::ordered_map::OrderedMap;
use kalico_host_rt::passthrough_queue::entry::{NotifyId, PassthroughEntry};
use kalico_host_rt::passthrough_queue::mcu_state::CommandQueueId;
use kalico_host_rt::passthrough_queue::router::{McuHandle, PassthroughRouter};
use kalico_host_rt::transport::{MessageParams, TransportError};
use std::collections::VecDeque;
use std::sync::Arc;

const US: u64 = 1_000;
const MS: u64 = 1_000_000;
const SEC: u64 = 1_000_000_000;

const CODES: HostFaultCodes = HostFaultCodes { disconnect: 0x501, retransmit_exhausted: 0x502 };

/// A reactor with a port in memory.
struct Harness {
    reactor: Reactor,
    clock: MockClock,
    commands: VecDeque<ReactorCommand>,
    hung_up: bool,
    rx: Vec<u8>,
    frames: Vec<Frame>,
    broken: bool,
    read_fails: bool,
    tx: Vec<u8>,
    native: Vec<Outgoing>,
    effects: Vec<Effect>,
}

impl Harness {
    fn with(parser: MsgProtoParser, seq: IdentifySeqState) -> Self {
        let protocol = NativeProtocol {
            identify_response_len: 80,
            proto_version: 1,
            schema_hash: vec![0; 32],
        };
        let clock = MockClock::new();
        Harness {
            reactor: Reactor::new(Arc::new(parser), CODES, protocol, seq, clock.now()),
            clock,
            commands: VecDeque::new(),
            hung_up: false,
            rx: Vec::new(),
            frames: Vec::new(),
            broken: false,
            read_fails: false,
            tx: Vec::new(),
            native: Vec::new(),
            effects: Vec::new(),
        }
    }

    fn new() -> Self {
        Self::new_with_seq_state(IdentifySeqState { next_send_seq_abs: 1, mcu_receive_seq_abs: 1 })
    }

    fn new_with_seq_state(seq: IdentifySeqState) -> Self {
        Self::with(MsgProtoParser::new_empty(), seq)
    }

    fn feed_rx(&mut self, bytes: &[u8]) {
        self.rx.extend_from_slice(bytes);
    }

    fn advance_clock(&mut self, by: u64) {
        self.clock.advance(by);
    }

    fn poll(&mut self) -> PollOutcome {
        if self.read_fails {
            return PollOutcome::Failed;
        }
        if self.rx.is_empty() && self.frames.is_empty() {
            return PollOutcome::Timeout;
        }
        let mut frames = std::mem::take(&mut self.frames);
        while let Some(p) = extract_packet(&mut self.rx) {
            frames.push(Frame::Klipper(p));
        }
        PollOutcome::Frames { frames, errors: 0 }
    }

    /// Runs one tick to its end.
    fn tick(&mut self) -> TickOutcome {
        let mut event = TickEvent::Go;
        for _ in 0..10_000 {
            let now = self.clock.now();
            let action = self.reactor.tick_once(event, now);
            self.effects.extend(self.reactor.take_effects());
            event = match action {
                TickAction::Receive => match self.commands.pop_front() {
                    Some(c) => TickEvent::Command(c),
                    None if self.hung_up => TickEvent::CommandsClosed,
                    None => TickEvent::NoCommand,
                },
                TickAction::Poll => TickEvent::Polled(self.poll()),
                TickAction::Write(o) => {
                    if self.broken {
                        TickEvent::Written(Err("broken pipe".to_string()))
                    } else {
                        match o {
                            Outgoing::Bytes(b) => self.tx.extend_from_slice(&b),
                            other => self.native.push(other),
                        }
                        TickEvent::Written(Ok(()))
                    }
                }
                TickAction::Again => TickEvent::Go,
                TickAction::Done(outcome) => return outcome,
            };
        }
        panic!("the tick does not end");
    }

    fn tx_log(&self) -> &[u8] {
        &self.tx
    }

    fn unacked_depth(&self) -> usize {
        self.reactor.unacked_window().len()
    }

    fn awaiting_depth(&self) -> usize {
        self.reactor.awaiting_response().len()
    }

    fn send(&mut self, c: ReactorCommand) {
        self.commands.push_back(c);
    }

    /// Submits a frame and lets the reactor take it.
    fn submit(&mut self, call_id: u64, payload: Vec<u8>, name: &str, deadline: u64) {
        self.send(ReactorCommand::SubmitTyped {
            call_id,
            payload,
            expected_response_name: name.to_string(),
            deadline,
        });
        self.tick();
    }

    /// What a call was told, once.
    fn completion(&mut self, id: u64) -> Option<Result<MessageParams, TransportError>> {
        let at = self
            .effects
            .iter()
            .position(|e| matches!(e, Effect::Complete { call_id, .. } if *call_id == id))?;
        match self.effects.remove(at) {
            Effect::Complete { result, .. } => Some(result),
            _ => unreachable!(),
        }
    }

    /// The payloads of the frames on the wire.
    fn payloads(&self) -> Vec<Vec<u8>> {
        let mut buf = self.tx.clone();
        let mut out = Vec::new();
        while let Some(pkt) = extract_packet(&mut buf) {
            let msglen = pkt[0] as usize;
            if msglen > MESSAGE_MIN {
                out.push(pkt[2..msglen - 3].to_vec());
            }
        }
        out
    }
}

fn ack(wire_seq_nibble: u8) -> Vec<u8> {
    build_frame(&[], wire_seq_nibble)
}

fn submit_one(h: &mut Harness, payload: u8) {
    let deadline = h.clock.now() + 60 * SEC;
    h.submit(payload as u64, vec![payload], "noop", deadline);
}

#[test]
fn empty_window_snap_advances_both_counters() {
    let mut h = Harness::new();
    // Pre: window empty; init send_seq=1, receive_seq=1.
    assert_eq!(h.reactor.send_seq(), 1);
    assert_eq!(h.reactor.receive_seq(), 1);
    assert!(h.reactor.unacked_window().is_empty());

    // Inject ack frame whose 4-bit wire seq nibble = 5 (rseq decoded = 5).
    h.feed_rx(&ack(5));
    h.tick();

    // Snap path: both counters jump to rseq.
    assert_eq!(h.reactor.send_seq(), 5);
    assert_eq!(h.reactor.receive_seq(), 5);
}

#[test]
fn mid_range_mod16_wrap_pops_correct_entries() {
    let mut h = Harness::new();
    // Submit 12 frames, as many as the window holds.
    for p in 1u8..=12 {
        submit_one(&mut h, p);
    }
    h.tick();
    assert_eq!(h.unacked_depth(), 12);
    // After 12 submissions: send_seq advanced from 1 to 13.
    assert_eq!(h.reactor.send_seq(), 13);
    // receive_seq still 1.
    assert_eq!(h.reactor.receive_seq(), 1);

    // Step 1: ack rseq=12. Pops seqs <12 (i.e. 1..=11). seq=12 remains.
    h.feed_rx(&ack(12));
    h.tick();
    assert_eq!(h.reactor.last_ack_seq(), 12);
    assert_eq!(h.reactor.receive_seq(), 12);
    assert_eq!(h.unacked_depth(), 1);

    // Step 2: cross the receive_seq=16 boundary. send_seq is 13; submit 13..=20.
    for p in 13u8..=20 {
        submit_one(&mut h, p);
    }
    h.tick();
    assert_eq!(h.unacked_depth(), 9); // seqs 12..=20 outstanding
    assert_eq!(h.reactor.send_seq(), 21);

    // Ack rseq=18: the nibble is 2.
    h.feed_rx(&ack(2));
    h.tick();
    assert_eq!(h.reactor.last_ack_seq(), 18);
    assert_eq!(h.reactor.receive_seq(), 18);
    // Pops seqs <18, i.e. 12..=17. seq 18..=20 remain → 3 entries.
    assert_eq!(h.unacked_depth(), 3);
}

#[test]
fn near_u64_max_decode_does_not_panic() {
    let mut h = Harness::new_with_seq_state(IdentifySeqState {
        next_send_seq_abs: u64::MAX - 5,
        mcu_receive_seq_abs: u64::MAX - 5,
    });
    assert_eq!(h.reactor.last_ack_seq(), u64::MAX - 6);

    submit_one(&mut h, 0);
    h.tick();
    assert_eq!(h.unacked_depth(), 1);

    // The submit pushed an entry at seq = u64::MAX - 5. To ack that entry,
    // target rseq = u64::MAX - 4.
    let target_rseq: u64 = u64::MAX - 4;
    let nibble = (target_rseq & 0x0F) as u8;
    h.feed_rx(&ack(nibble));
    h.tick();
    assert_eq!(h.reactor.last_ack_seq(), target_rseq);
    assert_eq!(h.reactor.receive_seq(), target_rseq);

    // A nibble that stands for a value behind must not panic.
    let nibble_behind = ((h.reactor.receive_seq() - 8) & 0x0F) as u8;
    h.feed_rx(&ack(nibble_behind));
    h.tick();
}

#[test]
fn duplicate_ack_triggers_retransmit() {
    let mut h = Harness::new();
    submit_one(&mut h, 1);
    submit_one(&mut h, 2);
    h.tick();
    // Forward-progress ack: rseq=2 pops seq=1; seq=2 remains.
    h.feed_rx(&ack(2));
    h.tick();
    let len_before = h.tx_log().len();
    // Duplicate ack on rseq=2 → NAK retransmit (window non-empty).
    h.feed_rx(&ack(2));
    h.tick();
    assert!(
        h.tx_log().len() > len_before,
        "duplicate ack should trigger retransmit"
    );
}

#[test]
fn ignore_nak_seq_suppresses_paired_second_nak() {
    let mut h = Harness::new();
    submit_one(&mut h, 1);
    submit_one(&mut h, 2);
    h.tick();
    h.feed_rx(&ack(2));
    h.tick();
    let len_before = h.tx_log().len();
    // Two duplicate acks on rseq=2 in the same poll cycle.
    h.feed_rx(&ack(2));
    h.feed_rx(&ack(2));
    h.tick();
    let delta = h.tx_log().len() - len_before;
    // One retransmit = 1 SYNC + (frame_bytes for seq=2). Frame for [2] = 6 bytes.
    assert_eq!(
        delta,
        1 + 6,
        "second NAK must be suppressed by ignore_nak_seq"
    );
}

#[test]
fn rto_fires_at_srtt_plus_4_rttvar() {
    let mut h = Harness::new();
    // Submit at clock T0.
    submit_one(&mut h, 1);
    h.tick();
    // Advance 200ms; ack: RTT sample = 200ms.
    h.advance_clock(200 * MS);
    h.feed_rx(&ack(2));
    h.tick();
    // After one sample of 200ms: SRTT=200, RTTVAR=100; RTO = 200 + max(G, 4*100) = 600ms.
    assert_eq!(h.reactor.rtt().current_rto(), 600 * MS);

    // Submit frame 2 at current clock; sent_at is "now".
    submit_one(&mut h, 2);
    h.tick();
    let len_before = h.tx_log().len();
    // Advance 599ms — just shy of RTO.
    h.advance_clock(599 * MS);
    h.tick();
    assert_eq!(h.tx_log().len(), len_before, "RTO not yet expired");
    // Advance 2ms more → past RTO.
    h.advance_clock(2 * MS);
    h.tick();
    assert!(h.tx_log().len() > len_before, "RTO should have fired");
}

#[test]
fn rto_clamped_to_floor_25ms() {
    let mut h = Harness::new();
    // Default starts at MIN_RTO.
    assert_eq!(h.reactor.rtt().current_rto(), MIN_RTO);
    // Drive a tiny RTT sample (100µs).
    submit_one(&mut h, 1);
    h.tick();
    h.advance_clock(100 * US);
    h.feed_rx(&ack(2));
    h.tick();
    assert!(h.reactor.rtt().current_rto() >= MIN_RTO);
    assert_eq!(h.reactor.rtt().current_rto(), MIN_RTO);
}

#[test]
fn rto_clamped_to_ceiling_5s() {
    let mut h = Harness::new();
    submit_one(&mut h, 1);
    h.tick();
    // Huge sample: 10s. Clamped to MAX_RTO=5s.
    h.advance_clock(10 * SEC);
    h.feed_rx(&ack(2));
    h.tick();
    assert_eq!(h.reactor.rtt().current_rto(), MAX_RTO);
}

#[test]
fn max_retry_count_closes_with_fault_and_completes_pending() {
    let mut h = Harness::new();
    let deadline = h.clock.now() + 600 * SEC;
    h.submit(1, vec![0xAA], "noop", deadline);
    h.tick();
    // 20s >> MAX_RTO (5s), so the timeout fires on every tick; 8 × 20s = 160s
    // of silence are enough to close.
    for _ in 0..8 {
        h.advance_clock(20 * SEC);
        h.tick();
    }
    // Reactor should now be Closed.
    assert_eq!(h.reactor.state(), ReactorState::Closed);
    let outcome = h.tick();
    assert_eq!(outcome, TickOutcome::Closed);
    // Pending submission must have completed with TransportError::Closed.
    let result = h.completion(1).expect("completion delivered");
    assert!(
        matches!(result, Err(TransportError::Closed)),
        "expected Closed, got {result:?}"
    );
    // The fault was latched with the code for exhausted retransmits.
    let mut latch = FaultLatch::default();
    for e in h.effects.drain(..) {
        if let Effect::HostFault(f) = e {
            latch.dispatch(f);
        }
    }
    let fc = latch.cell.as_ref().expect("fault latched").fault_code;
    assert_eq!(fc, CODES.retransmit_exhausted);
}

#[test]
fn abandon_on_drop_marks_entry_then_late_response_is_discarded() {
    let mut h = Harness::new();
    let deadline = h.clock.now() + 60 * SEC;
    h.submit(1, vec![1], "noop", deadline);
    h.tick();
    assert_eq!(h.awaiting_depth(), 1);

    // Caller drops mid-flight: route Abandon command into the reactor.
    h.send(ReactorCommand::Abandon(1));
    h.tick();

    // Entry remains but is marked abandoned.
    assert_eq!(h.awaiting_depth(), 1);
    assert!(
        h.reactor.awaiting_response().iter()[0].abandoned,
        "abandon command should have flagged the entry"
    );
}

#[test]
fn per_entry_dispatcher_timeout_completes_with_dispatcher_timeout() {
    let mut h = Harness::new();
    let deadline = h.clock.now() + 10 * MS;
    h.submit(1, vec![1], "noop", deadline);
    h.tick();
    assert_eq!(h.awaiting_depth(), 1);

    // Advance clock past the deadline.
    h.advance_clock(50 * MS);
    h.tick();

    let result = h.completion(1).expect("completion delivered");
    assert!(
        matches!(result, Err(TransportError::DispatcherTimeout)),
        "expected DispatcherTimeout, got {result:?}"
    );
    assert_eq!(h.awaiting_depth(), 0);
}

#[test]
fn disconnect_clears_all_pending_with_closed() {
    let mut h = Harness::new();
    let deadline = h.clock.now() + 60 * SEC;
    h.submit(1, vec![1], "noop", deadline);
    h.submit(2, vec![2], "noop", deadline);
    h.tick();
    assert_eq!(h.awaiting_depth(), 2);

    // Force Closed via Shutdown command.
    h.send(ReactorCommand::Shutdown);
    let outcome = h.tick();
    assert_eq!(outcome, TickOutcome::Closed);

    // Both completions must have received TransportError::Closed.
    for id in [1, 2] {
        let result = h.completion(id).expect("completion delivered");
        assert!(
            matches!(result, Err(TransportError::Closed)),
            "expected Closed, got {result:?}"
        );
    }
    assert_eq!(h.awaiting_depth(), 0);
    assert_eq!(h.unacked_depth(), 0);
    assert!(h.reactor.exited_gracefully());
}

#[test]
fn submit_then_nak_in_same_tick_keeps_state_consistent() {
    let mut h = Harness::new();
    // Stage: submit two frames (seq=1, seq=2). Ack rseq=2 → pops seq=1.
    submit_one(&mut h, 1);
    submit_one(&mut h, 2);
    h.tick();
    h.feed_rx(&ack(2)); // forward-progress ack rseq=2
    h.tick();
    let len_before_race = h.tx_log().len();
    let depth_before_race = h.unacked_depth();
    assert_eq!(depth_before_race, 1, "seq=2 outstanding");

    // Same-tick race: queue a fresh submission AND a duplicate NAK on rseq=2.
    let deadline = h.clock.now() + 60 * SEC;
    h.send(ReactorCommand::SubmitTyped {
        call_id: 3,
        payload: vec![3u8],
        expected_response_name: "noop".into(),
        deadline,
    });
    h.feed_rx(&ack(2)); // duplicate ack on rseq=2 → NAK

    h.tick();

    // The submission of frame 3 was written first, then the retransmit of
    // {seq=2, seq=3}, which pops nothing.
    assert_eq!(h.unacked_depth(), 2);
    assert_eq!(h.reactor.last_ack_seq(), 2);

    let frame_size = 5 + 1; // empty MIN + 1-byte payload
    let expected_delta = frame_size + (1 + 2 * frame_size);
    let actual_delta = h.tx_log().len() - len_before_race;
    assert_eq!(actual_delta, expected_delta);
}

/// A harness with a router for one controller that holds entries, and a queue
/// of it.
fn harness_with_router(
    fill: &dyn Fn(&mut PassthroughRouter, McuHandle, CommandQueueId),
) -> (Harness, McuHandle, CommandQueueId) {
    let mut h = Harness::new();
    let mut router = PassthroughRouter::new();
    let mcu = router.claim_mcu("test_mcu");
    let qid = router.alloc_command_queue(mcu).unwrap();
    fill(&mut router, mcu, qid);
    h.reactor.set_passthrough_router(router, mcu);
    (h, mcu, qid)
}

fn entry(payload: &[u8], min_clock: u64, req_clock: u64) -> PassthroughEntry {
    PassthroughEntry::new(payload.to_vec(), min_clock, req_clock, NotifyId::none())
}

fn entry_with_notify(payload: &[u8], notify_id: NotifyId) -> PassthroughEntry {
    PassthroughEntry::new(payload.to_vec(), 0, 0, notify_id)
}

#[test]
fn passthrough_entry_appears_on_wire() {
    let (mut h, _, _) =
        harness_with_router(&|r, mcu, qid| r.push(mcu, qid, entry(&[0xAA, 0xBB], 0, 0)).unwrap());

    let tx_before = h.tx_log().len();
    h.tick();
    let tx_after = h.tx_log().len();

    // A frame was written: 5 (wire overhead) + 2 (payload) = 7 bytes.
    assert_eq!(
        tx_after - tx_before,
        7,
        "passthrough entry should produce a 7-byte wire frame"
    );
    assert_eq!(h.unacked_depth(), 1, "entry should be in unacked window");
}

#[test]
fn passthrough_entries_emit_in_req_clock_order() {
    // Push entries with different req_clock values (out of order).
    let (mut h, _, _) = harness_with_router(&|router, mcu, qid| {
        router.push(mcu, qid, entry(&[0x03], 0, 300)).unwrap();
        router.push(mcu, qid, entry(&[0x01], 0, 100)).unwrap();
        router.push(mcu, qid, entry(&[0x02], 0, 200)).unwrap();
    });

    h.tick();
    assert_eq!(h.unacked_depth(), 3);

    let frames = h.payloads();
    assert_eq!(frames.len(), 3, "should have 3 frames");
    assert_eq!(frames[0], vec![0x01], "first frame should be req_clock=100");
    assert_eq!(
        frames[1],
        vec![0x02],
        "second frame should be req_clock=200"
    );
    assert_eq!(frames[2], vec![0x03], "third frame should be req_clock=300");
}

#[test]
fn passthrough_interleaves_with_typed_commands() {
    let (mut h, mcu, qid) = harness_with_router(&|_, _, _| {});

    let deadline = h.clock.now() + 60 * SEC;
    h.submit(1, vec![0xCC], "noop", deadline);
    h.send(ReactorCommand::PassthroughSend { mcu, queue_id: qid, entry: entry(&[0xDD], 0, 0) });

    h.tick();

    assert_eq!(
        h.unacked_depth(),
        2,
        "both typed and passthrough should be in-flight"
    );

    let payloads = h.payloads();
    assert_eq!(payloads.len(), 2);
    assert!(
        payloads.contains(&vec![0xCC]),
        "typed command payload on wire"
    );
    assert!(
        payloads.contains(&vec![0xDD]),
        "passthrough payload on wire"
    );
}

#[test]
fn window_backpressure_stops_passthrough_emission() {
    // Push more entries than the unacked window allows.
    let (mut h, _, _) = harness_with_router(&|router, mcu, qid| {
        for i in 0..20u8 {
            router.push(mcu, qid, entry(&[i], 0, i as u64)).unwrap();
        }
    });

    h.tick();

    assert!(
        h.unacked_depth() <= MAX_PENDING_BLOCKS,
        "unacked window must not exceed MAX_PENDING_BLOCKS, got {}",
        h.unacked_depth()
    );
    assert!(
        h.unacked_depth() > 0,
        "some entries should have been emitted"
    );
}

#[test]
fn install_passthrough_router_via_command() {
    let mut h = Harness::new();

    // Router is not installed yet.
    assert!(h.reactor.passthrough_router().is_none());
    assert!(h.reactor.passthrough_mcu().is_none());

    // Create and send the router via a command.
    let mut router = PassthroughRouter::new();
    let mcu = router.claim_mcu("test_mcu");
    let _qid = router.alloc_command_queue(mcu).unwrap();

    h.send(ReactorCommand::InstallPassthroughRouter(router));
    h.tick();

    assert!(
        h.reactor.passthrough_router().is_some(),
        "router should be installed"
    );
    assert_eq!(
        h.reactor.passthrough_mcu(),
        Some(mcu),
        "MCU handle should be set"
    );
}

#[test]
fn passthrough_send_via_command() {
    let (mut h, mcu, qid) = harness_with_router(&|_, _, _| {});

    h.send(ReactorCommand::PassthroughSend { mcu, queue_id: qid, entry: entry(&[0xEE], 0, 0) });
    h.tick();

    assert_eq!(h.unacked_depth(), 1, "entry should be emitted");
    assert_eq!(h.payloads(), vec![vec![0xEE]]);
}

#[test]
fn shared_sequence_numbers() {
    let (mut h, mcu, qid) = harness_with_router(&|_, _, _| {});

    // Submit a typed command first (gets seq=1).
    let deadline = h.clock.now() + 60 * SEC;
    h.submit(1, vec![0xAA], "noop", deadline);

    // Push a passthrough entry (should get seq=2).
    h.send(ReactorCommand::PassthroughSend { mcu, queue_id: qid, entry: entry(&[0xBB], 0, 0) });
    h.tick();

    // Extract wire-seq nibbles from the two frames.
    let mut buf = h.tx_log().to_vec();
    let mut wire_seqs = Vec::new();
    while let Some(pkt) = extract_packet(&mut buf) {
        wire_seqs.push(pkt[1] & MESSAGE_SEQ_MASK);
    }
    assert_eq!(wire_seqs.len(), 2, "two frames on wire");
    // Seq numbers should be consecutive (1, 2 — mod 16).
    assert_eq!(wire_seqs[0], 1, "typed command gets wire seq 1");
    assert_eq!(wire_seqs[1], 2, "passthrough entry gets wire seq 2");
    assert_eq!(h.reactor.send_seq(), 3, "send_seq advanced to 3");
}

#[test]
fn ack_frees_passthrough_receive_window() {
    // Push enough entries to fill the router's receive window.
    let (mut h, _, _) = harness_with_router(&|router, mcu, qid| {
        for i in 0..20u8 {
            router.push(mcu, qid, entry(&[i], 0, i as u64)).unwrap();
        }
    });

    h.tick();
    let emitted_first = h.unacked_depth();
    assert!(emitted_first > 0, "some entries should have been emitted");

    // Acknowledge all outstanding frames to free the window.
    let wire_nibble = (h.reactor.send_seq() & 0x0F) as u8;
    h.feed_rx(&ack(wire_nibble));
    h.tick();

    // After ack, more entries are emitted.
    assert!(h.unacked_depth() > 0);
    assert_eq!(emitted_first + h.unacked_depth(), 20);
}

#[test]
fn no_router_installed_tick_is_noop() {
    let mut h = Harness::new();
    // No router installed; tick should not crash.
    let outcome = h.tick();
    assert_eq!(outcome, TickOutcome::Continue);
    assert_eq!(h.unacked_depth(), 0);
    assert!(h.tx_log().is_empty());
}

#[test]
fn notify_bearing_entry_tracked_in_map() {
    let nid = NotifyId::new(42);
    let (mut h, mcu, _) = harness_with_router(&|router, mcu, qid| {
        router.push(mcu, qid, entry_with_notify(&[0xFF], NotifyId::new(42))).unwrap();
    });

    h.tick();

    // The notify map should have an entry keyed by the seq that was used.
    assert_eq!(h.reactor.passthrough_notify_map().len(), 1);
    let e = h.reactor.passthrough_notify_map().entry(0).unwrap();
    assert_eq!(e.seq, 1, "first emission gets seq=1");
    assert_eq!(e.mcu, mcu);
    assert_eq!(e.notify_id, nid);
}

#[test]
fn no_notify_entry_not_in_map() {
    let (mut h, _, _) =
        harness_with_router(&|router, mcu, qid| router.push(mcu, qid, entry(&[0x01], 0, 0)).unwrap());

    h.tick();

    assert!(
        h.reactor.passthrough_notify_map().len() == 0,
        "fire-and-forget entries should not populate notify map"
    );
}

#[test]
fn fire_and_forget_typed_command_writes_payload_to_wire() {
    let mut h = Harness::new();
    let payload = vec![0x2A, 0x07, 0x11];

    h.send(ReactorCommand::FireAndForgetTyped { payload: payload.clone() });
    h.tick();

    // The payload must appear contiguously on the wire.
    let tx = h.tx_log();
    assert!(
        tx.windows(payload.len()).any(|w| w == payload.as_slice()),
        "payload {payload:?} should appear in tx log {tx:?}",
    );
    // And the unacked window must have grown by exactly one entry.
    assert_eq!(h.unacked_depth(), 1);
}

#[test]
fn test_harness_empty_tick_changes_nothing() {
    let mut h = Harness::new();
    let outcome = h.tick();
    assert_eq!(outcome, TickOutcome::Continue);
    assert_eq!(h.unacked_depth(), 0);
    assert_eq!(h.awaiting_depth(), 0);
    assert!(h.tx_log().is_empty());
}

#[test]
fn smoke_empty_tick_changes_nothing() {
    let mut h = Harness::new();
    let outcome = h.tick();
    assert_eq!(outcome, TickOutcome::Continue);
    assert_eq!(h.unacked_depth(), 0);
    assert_eq!(h.awaiting_depth(), 0);
    assert!(h.tx_log().is_empty());
}

fn first_call_after_identify() {
    let mut h = Harness::new_with_seq_state(IdentifySeqState {
        next_send_seq_abs: 5,
        mcu_receive_seq_abs: 5,
    });

    assert_eq!(
        h.reactor.send_seq(),
        5,
        "reactor must adopt next_send_seq_abs from identify"
    );

    let deadline = h.clock.now() + SEC;
    h.submit(42, vec![0x01], "noop", deadline);

    let written = h.tx_log();
    assert!(!written.is_empty(), "reactor should have written a frame");
    // Frame layout: [len][seq|DEST][payload..][crc_hi][crc_lo][SYNC]
    let seq_byte = written[1];
    let wire_seq = seq_byte & 0x0F;
    assert_eq!(
        wire_seq, 5,
        "first frame after identify must carry seq=5 (= next_send_seq_abs mod 16), not seq=1",
    );
    // And send_seq must have advanced past it.
    assert_eq!(h.reactor.send_seq(), 6, "send_seq must increment after dispatch");
}

#[test]
fn test_harness_reactor_first_bridge_call_after_identify_succeeds_with_nonzero_initial_seq() {
    first_call_after_identify();
}

#[test]
fn smoke_reactor_first_bridge_call_after_identify_succeeds_with_nonzero_initial_seq() {
    first_call_after_identify();
}

#[test]
fn test_harness_clock_advance_is_visible_to_reactor() {
    let mut h = Harness::new();
    let t0 = h.clock.now();
    h.submit(1, vec![1], "noop", t0 + SEC - 1);
    h.advance_clock(SEC);
    let t1 = h.clock.now();
    assert_eq!(t1 - t0, SEC);
    h.tick();
    assert!(h.completion(1).is_some(), "the call is over time");
}

#[test]
fn smoke_clock_advance_is_visible_to_reactor() {
    let mut h = Harness::new();
    let t0 = h.clock.now();
    h.submit(1, vec![1], "noop", t0 + SEC);
    h.advance_clock(SEC - 1);
    h.tick();
    assert!(h.completion(1).is_none(), "the call is in time");
    h.advance_clock(1);
    let t1 = h.clock.now();
    assert_eq!(t1 - t0, SEC);
}

/// A parser with a response and an enumeration.
fn small_parser() -> MsgProtoParser {
    let mut d = DataDictionary {
        commands: OrderedMap::new(),
        responses: OrderedMap::new(),
        output: OrderedMap::new(),
        enumerations: OrderedMap::new(),
        config: "{}".into(),
        version: "v".into(),
        app: "kalico".into(),
        build_versions: None,
        license: None,
    };
    d.commands.insert("get_state oid=%c".into(), 3);
    d.responses.insert("state oid=%c value=%u".into(), 4);
    let mut pins = OrderedMap::new();
    pins.insert("PA0".to_string(), EnumValue::Single(0));
    d.enumerations.insert("pin".to_string(), pins);
    assert!(d.check());
    MsgProtoParser::from_dictionary(d).unwrap()
}

fn small() -> Harness {
    Harness::with(
        small_parser(),
        IdentifySeqState { next_send_seq_abs: 1, mcu_receive_seq_abs: 1 },
    )
}

fn state_frame(oid: i64, value: i64, seq: u8) -> Vec<u8> {
    let mut body = Vec::new();
    encode_vlq(&mut body, 4).unwrap();
    encode_vlq(&mut body, oid).unwrap();
    encode_vlq(&mut body, value).unwrap();
    build_frame(&body, seq)
}

#[test]
fn a_response_completes_the_oldest_call_of_its_name() {
    let mut h = small();
    let deadline = 60 * SEC;
    for call_id in [7, 8] {
        h.send(ReactorCommand::Submit {
            call_id,
            cmd: "get_state oid=2".into(),
            expected_response_name: "state".into(),
            deadline,
        });
    }
    h.tick();
    assert_eq!(h.payloads(), vec![vec![3, 2], vec![3, 2]]);
    h.feed_rx(&state_frame(2, 500, 2));
    h.tick();
    assert_eq!(h.completion(7).unwrap().unwrap().get_u32("value"), 500);
    assert!(h.completion(8).is_none());
    assert_eq!(h.awaiting_depth(), 1);
    assert_eq!(h.unacked_depth(), 1);
}

#[test]
fn a_command_that_cannot_be_encoded_fails_at_once() {
    let mut h = small();
    h.send(ReactorCommand::Submit {
        call_id: 7,
        cmd: "nonsense".into(),
        expected_response_name: "state".into(),
        deadline: SEC,
    });
    h.tick();
    match h.completion(7).unwrap() {
        Err(TransportError::Parse(s)) => assert_eq!(s, "UnknownCommand(\"nonsense\")"),
        other => panic!("expected Parse, got {other:?}"),
    }
    assert!(h.tx_log().is_empty());
}

#[test]
fn a_response_that_nobody_waits_for_goes_to_the_interceptors() {
    let mut h = small();
    h.send(ReactorCommand::RegisterInterceptor {
        msg_name: "state".into(),
        oid: Some(2),
        token: 11,
    });
    h.tick();
    let mut id: Option<InterceptorId> = None;
    for e in h.effects.drain(..) {
        if let Effect::InterceptorRegistered { token: 11, id: i } = e {
            id = Some(i);
        }
    }
    let id = id.expect("registered");
    h.feed_rx(&state_frame(2, 9, 1));
    h.tick();
    match h.effects.pop() {
        Some(Effect::Unsolicited { interceptors, name, params, fate }) => {
            assert_eq!(interceptors, vec![id]);
            assert_eq!(name, "state");
            assert_eq!(params.get_u32("value"), 9);
            assert!(matches!(fate, Fate::Forward));
        }
        other => panic!("expected Unsolicited, got {other:?}"),
    }
    h.send(ReactorCommand::UnregisterInterceptor { id });
    h.tick();
    h.feed_rx(&state_frame(2, 9, 2));
    h.tick();
    match h.effects.pop() {
        Some(Effect::Unsolicited { interceptors, .. }) => assert!(interceptors.is_empty()),
        other => panic!("expected Unsolicited, got {other:?}"),
    }
}

#[test]
fn more_calls_than_the_window_holds_wait_in_order() {
    let mut h = Harness::new();
    let deadline = 60 * SEC;
    for i in 0..20u8 {
        h.submit(i as u64, vec![i], "noop", deadline);
    }
    assert_eq!(h.unacked_depth(), 12);
    h.feed_rx(&ack(13));
    h.tick();
    assert_eq!(h.unacked_depth(), 8);
    let sent: Vec<u8> = h.payloads().iter().map(|p| p[0]).collect();
    assert_eq!(sent, (0..20u8).collect::<Vec<u8>>());
}

#[test]
fn what_waits_for_the_window_leaves_in_its_order() {
    let mut h = small();
    let deadline = 60 * SEC;
    for i in 0..12u8 {
        h.submit(i as u64, vec![i], "noop", deadline);
    }
    assert_eq!(h.unacked_depth(), 12);
    h.send(ReactorCommand::FireAndForgetTyped { payload: vec![100] });
    h.send(ReactorCommand::Submit {
        call_id: 101,
        cmd: "get_state oid=2".into(),
        expected_response_name: "state".into(),
        deadline,
    });
    h.send(ReactorCommand::FireAndForget { cmd: "get_state oid=5".into() });
    h.submit(102, vec![102], "noop", deadline);
    assert_eq!(h.payloads().len(), 12);
    h.feed_rx(&ack(4));
    h.tick();
    let rest: Vec<Vec<u8>> = h.payloads().split_off(12);
    assert_eq!(rest, vec![vec![100], vec![3, 2], vec![3, 5]]);
    h.feed_rx(&ack(13));
    h.tick();
    assert_eq!(h.payloads().last().unwrap(), &vec![102]);
    assert_eq!(h.payloads().len(), 16);
    assert_eq!(h.unacked_depth(), 4);
}

#[test]
fn a_failed_retransmission_closes_the_connection() {
    let mut h = Harness::new();
    submit_one(&mut h, 1);
    submit_one(&mut h, 2);
    h.feed_rx(&ack(2));
    h.tick();
    h.broken = true;
    h.feed_rx(&ack(2));
    assert_eq!(h.tick(), TickOutcome::Closed);
    assert!(h.completion(2).unwrap().is_err());
    assert!(h
        .effects
        .iter()
        .any(|e| matches!(e, Effect::HostFault(f) if f.fault_code == CODES.disconnect)));
}

#[test]
fn a_passthrough_answer_goes_by_the_length_byte() {
    for (length, bytes) in [
        (8u8, vec![4, 2, 9]),
        (7, vec![4, 2]),
        (9, vec![4, 2, 9]),
        (11, vec![4, 2, 9]),
        (12, vec![]),
        (5, vec![]),
    ] {
        let mut h = small();
        let mut router = PassthroughRouter::new();
        let mcu = router.claim_mcu("test_mcu");
        let qid = router.alloc_command_queue(mcu).unwrap();
        let id = router.register_notify(mcu).unwrap();
        router.push(mcu, qid, entry_with_notify(&[0xFF], id)).unwrap();
        h.reactor.set_passthrough_router(router, mcu);
        h.tick();
        let mut frame = state_frame(2, 9, 1);
        let tail = frame[5..].to_vec();
        frame[0] = length;
        h.frames.push(Frame::Klipper(frame));
        h.tick();
        match h.effects.pop() {
            Some(Effect::Unsolicited { fate: Fate::Notified { response, .. }, .. }) => {
                let mut want = bytes;
                if length > 8 && length < 12 {
                    want.extend_from_slice(&tail[..length as usize - 8]);
                }
                assert_eq!(response.unwrap().bytes, want, "length {length}");
            }
            other => panic!("expected an answer, got {other:?}"),
        }
    }
}

#[test]
fn a_failed_write_closes_the_connection() {
    let mut h = Harness::new();
    h.broken = true;
    h.send(ReactorCommand::SubmitTyped {
        call_id: 1,
        payload: vec![1],
        expected_response_name: "noop".into(),
        deadline: SEC,
    });
    assert_eq!(h.tick(), TickOutcome::Closed);
    assert!(h.completion(1).unwrap().is_err());
    assert!(!h.reactor.exited_gracefully());
    assert!(h
        .effects
        .iter()
        .any(|e| matches!(e, Effect::HostFault(f) if f.fault_code == CODES.disconnect)));
}

#[test]
fn a_failed_read_closes_unless_it_was_expected() {
    let mut h = Harness::new();
    h.read_fails = true;
    assert_eq!(h.tick(), TickOutcome::Closed);
    assert!(!h.reactor.exited_gracefully());
    let mut h = Harness::new();
    h.send(ReactorCommand::MarkExpectedDisconnect);
    assert_eq!(h.tick(), TickOutcome::Continue);
    h.read_fails = true;
    assert_eq!(h.tick(), TickOutcome::Closed);
    assert!(h.reactor.exited_gracefully());
}

#[test]
fn the_reactor_ends_when_nobody_is_left() {
    let mut h = Harness::new();
    h.hung_up = true;
    assert_eq!(h.tick(), TickOutcome::Closed);
}

#[test]
fn requests_about_events_are_passed_on() {
    let mut h = Harness::new();
    h.send(ReactorCommand::Subscribe { channel: EventChannel::Fault, token: 5 });
    h.send(ReactorCommand::AttachHeartbeatCallback);
    h.send(ReactorCommand::SetMcuLogHook);
    h.send(ReactorCommand::Noop);
    h.tick();
    assert_eq!(h.effects.len(), 3);
    assert!(matches!(
        h.effects[0],
        Effect::Subscribe { channel: EventChannel::Fault, token: 5 }
    ));
    assert!(matches!(h.effects[1], Effect::AttachHeartbeat));
    assert!(matches!(h.effects[2], Effect::AttachLogHook));
}

#[test]
fn a_native_identify_is_written_with_its_id() {
    let mut h = Harness::new();
    h.send(ReactorCommand::KalicoIdentify { token: 4 });
    h.tick();
    assert_eq!(h.native.len(), 1);
    match &h.native[0] {
        Outgoing::NativeIdentify { correlation_id } => assert_ne!(*correlation_id, 0),
        other => panic!("expected NativeIdentify, got {other:?}"),
    }
}

#[test]
fn a_controller_that_is_heard_is_not_given_up() {
    let mut h = Harness::new();
    let deadline = h.clock.now() + 6000 * SEC;
    h.submit(1, vec![0xAA], "noop", deadline);
    for _ in 0..20 {
        h.advance_clock(20 * SEC);
        h.feed_rx(&ack(1));
        assert_eq!(h.tick(), TickOutcome::Continue);
    }
    assert_eq!(h.reactor.state(), ReactorState::Active);
    assert_eq!(h.unacked_depth(), 1);
    assert!(h.payloads().len() > 8);
}
