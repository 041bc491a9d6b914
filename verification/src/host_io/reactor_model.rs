//! The model of the reactor: what each event leads to.

use crate::host_io::decode::{frame_decoded, DecodedView};
use crate::host_io::encode::line_bytes;
use crate::host_io::interceptor::{
    interceptor_added, interceptor_removed, matching, InterceptorId, InterceptorTableView,
};
use crate::host_io::kalico_native::{
    find_call, in_time, native_taken, next_cid, overdue, without_call, MessageKind,
    NativeDispatchView, NativeFrameView, NativeView, PendingKalicoCall,
};
use crate::host_io::parse_error::error_text;
use crate::host_io::parser::ParserView;
use crate::host_io::reactor_types::{
    lowest, without_seq, CommandView, EffectView, FateView, FrameView, GoalView, NotifyEntry,
    OutgoingView, PendingOutboundKind, Phase, PollView, ReactorState, RetransmitTrigger,
    SubmissionView, TickActionView, TickEventView, TickOutcome,
};
use crate::host_io::rtt::{rtt_backed_off, rtt_updated, RttView};
use crate::host_io::runtime_events::{lifted, FaultEvent};
use crate::host_io::window::{
    abandoned, acked_count, expired, first_waiting, frame_rows, unexpired, AwaitView, UnackedView,
};
use crate::host_io::wire::{absolute, framed, joined};
use crate::passthrough_queue::entry::{EntryView, NotifyId};
use crate::passthrough_queue::mcu_state::{state_promoted, state_pushed, CommandQueueId};
use crate::passthrough_queue::receive_window::wrapped_u64;
use crate::passthrough_queue::router::{
    answered, emitted, router_acked, McuHandle, RecordView, RouterView,
};
use crate::transport::{param_u32, ParamsView, TransportErrorView};
use vstd::prelude::*;

verus! {

/// How many frames may be unacknowledged.
pub const WINDOW: usize = 12;

/// How many commands may wait for room in the window.
pub const PENDING_SUBMISSION_CEILING: usize = 256;

/// How many commands without a response may wait for room in the window.
pub const PENDING_FIRE_AND_FORGET_CEILING: usize = 256;

/// How often a frame is sent again before the connection may be given up.
pub const MAX_RETRY_COUNT: u32 = 8;

/// How long nothing must have been received before it is given up, in
/// nanoseconds. A controller that is busy with one long command is silent for
/// seconds and answers all the same.
pub const MCU_SILENCE_FOR_CLOSE: u64 = 120_000_000_000;

/// How many requests one tick takes.
pub const MAX_SUBMITS_PER_ITER: u8 = 4;

/// How long one read waits, in nanoseconds.
pub const READ_TIMEOUT: u64 = 1_000_000;

/// How long reads may come back empty before the connection counts as closed,
/// in nanoseconds.
pub const ZERO_BYTE_DEBOUNCE: u64 = 100_000_000;

/// The codes of the faults that the host itself finds.
#[derive(Debug, Clone, Copy, PartialEq, Eq, Structural)]
pub struct HostFaultCodes {
    pub disconnect: u16,
    pub retransmit_exhausted: u16,
}

/// Model of the reactor.
#[verifier::ext_equal]
pub struct ReactorView {
    pub parser: ParserView,
    pub fault_codes: HostFaultCodes,
    pub window: Seq<UnackedView>,
    pub awaiting: Seq<AwaitView>,
    pub rtt: RttView,
    pub send_seq: u64,
    pub receive_seq: u64,
    pub last_ack_seq: u64,
    pub ignore_nak_seq: u64,
    pub retransmit_seq: u64,
    pub rtt_sample_seq: u64,
    pub rtt_sample_armed: bool,
    pub state: ReactorState,
    pub closed_via_shutdown: bool,
    pub host_fault: Option<FaultEvent>,
    pub submissions: Seq<SubmissionView>,
    pub forgets: Seq<Seq<u8>>,
    pub order: Seq<PendingOutboundKind>,
    pub zero_byte_first_seen: Option<u64>,
    pub last_recv_time: u64,
    pub router: Option<RouterView>,
    pub mcu: Option<McuHandle>,
    pub notify: Seq<NotifyEntry>,
    pub native: NativeView,
    pub interceptors: InterceptorTableView,
    pub inbound: Seq<FrameView>,
    pub writing: Option<GoalView>,
    pub phase: Phase,
    pub outbox: Seq<EffectView>,
}

/// The reactor with one effect more.
pub open spec fn emit(v: ReactorView, e: EffectView) -> ReactorView {
    ReactorView { outbox: v.outbox.push(e), ..v }
}

/// The fault of a lost connection.
pub open spec fn disconnect_fault(v: ReactorView) -> FaultEvent {
    FaultEvent {
        fault_code: v.fault_codes.disconnect,
        fault_detail: 0,
        segment_id: 0,
        synthesized: false,
    }
}

/// Writing has failed: the connection is closed, and that is a fault unless
/// there is one already.
pub open spec fn io_fault(v: ReactorView) -> ReactorView {
    ReactorView {
        host_fault: match v.host_fault {
            Some(f) => Some(f),
            None => Some(disconnect_fault(v)),
        },
        state: ReactorState::Closed,
        ..v
    }
}

/// Reading has failed: the connection is closed, and that is the fault.
pub open spec fn read_fault(v: ReactorView) -> ReactorView {
    ReactorView {
        host_fault: Some(disconnect_fault(v)),
        state: ReactorState::Closed,
        ..v
    }
}

/// The part of a sequence that is sent.
pub open spec fn wire_seq(seq: u64) -> u8 {
    (seq % 16) as u8
}

/// A command is to be sent: at once if the window has room, else it waits,
/// unless too many wait.
pub open spec fn submission_started(v: ReactorView, s: SubmissionView) -> ReactorView {
    if v.window.len() >= WINDOW {
        if v.submissions.len() >= PENDING_SUBMISSION_CEILING {
            emit(
                v,
                EffectView::Complete {
                    call_id: s.call_id,
                    result: Err(TransportErrorView::Backpressure),
                },
            )
        } else {
            ReactorView {
                submissions: v.submissions.push(s),
                order: v.order.push(PendingOutboundKind::Submission),
                ..v
            }
        }
    } else {
        ReactorView {
            send_seq: wrapped_u64(v.send_seq + 1),
            writing: Some(
                GoalView::Submission {
                    call_id: s.call_id,
                    seq: v.send_seq,
                    expected_response_name: s.expected_response_name,
                    deadline: s.deadline,
                    frame: framed(s.payload, wire_seq(v.send_seq)),
                },
            ),
            ..v
        }
    }
}

/// A command without a response is to be sent: at once if the window has
/// room, else it waits, unless too many wait, and then it is refused.
pub open spec fn forget_started(v: ReactorView, payload: Seq<u8>) -> ReactorView {
    if v.window.len() >= WINDOW {
        if v.forgets.len() >= PENDING_FIRE_AND_FORGET_CEILING {
            v
        } else {
            ReactorView {
                forgets: v.forgets.push(payload),
                order: v.order.push(PendingOutboundKind::FireAndForget),
                ..v
            }
        }
    } else {
        ReactorView {
            send_seq: wrapped_u64(v.send_seq + 1),
            writing: Some(
                GoalView::FireAndForget {
                    seq: v.send_seq,
                    frame: framed(payload, wire_seq(v.send_seq)),
                },
            ),
            ..v
        }
    }
}

/// All unacknowledged frames are to be sent again.
pub open spec fn retransmit_started(v: ReactorView, trigger: RetransmitTrigger) -> ReactorView {
    ReactorView {
        writing: Some(
            GoalView::Retransmit {
                trigger,
                frame: seq![0x7Eu8] + joined(frame_rows(v.window)),
            },
        ),
        ..v
    }
}

/// A frame that was just sent.
pub open spec fn sent_frame(seq: u64, frame: Seq<u8>, now: u64) -> UnackedView {
    UnackedView { seq, frame_bytes: frame, sent_at: now, retry_count: 0 }
}

/// The round-trip time of a sequence is measured, unless one is measured
/// already.
pub open spec fn armed(v: ReactorView, seq: u64) -> ReactorView {
    if v.rtt_sample_armed {
        v
    } else {
        ReactorView { rtt_sample_seq: seq, rtt_sample_armed: true, ..v }
    }
}

/// A failed write ends the draining of waiting messages.
pub open spec fn stop_draining(v: ReactorView) -> ReactorView {
    if v.phase == Phase::Draining {
        ReactorView { phase: Phase::Promoting, ..v }
    } else {
        v
    }
}

/// A command was written, or not.
pub open spec fn submission_written(
    v: ReactorView,
    call_id: u64,
    seq: u64,
    name: Seq<char>,
    deadline: u64,
    frame: Seq<u8>,
    r: Result<(), Seq<char>>,
    now: u64,
) -> ReactorView {
    match r {
        Err(text) => stop_draining(
            io_fault(
                emit(
                    v,
                    EffectView::Complete { call_id, result: Err(TransportErrorView::Io(text)) },
                ),
            ),
        ),
        Ok(_) => {
            let p = ReactorView { window: v.window.push(sent_frame(seq, frame, now)), ..v };
            if v.awaiting.len() >= crate::host_io::window::AWAITING_CEILING {
                emit(
                    p,
                    EffectView::Complete {
                        call_id,
                        result: Err(
                            TransportErrorView::Parse(
                                "AwaitingResponse defensive ceiling exceeded"@,
                            ),
                        ),
                    },
                )
            } else {
                armed(
                    ReactorView {
                        awaiting: v.awaiting.push(
                            AwaitView {
                                call_id,
                                seq,
                                expected_response_name: name,
                                submitted_at: now,
                                deadline,
                                abandoned: false,
                            },
                        ),
                        ..p
                    },
                    seq,
                )
            }
        },
    }
}

/// A command without a response was written, or not.
pub open spec fn forget_written(
    v: ReactorView,
    seq: u64,
    frame: Seq<u8>,
    r: Result<(), Seq<char>>,
    now: u64,
) -> ReactorView {
    match r {
        Err(_) => stop_draining(io_fault(v)),
        Ok(_) => ReactorView { window: v.window.push(sent_frame(seq, frame, now)), ..v },
    }
}

/// A passthrough message was written, or not.
pub open spec fn passthrough_written(
    v: ReactorView,
    seq: u64,
    frame: Seq<u8>,
    mcu: McuHandle,
    notify_id: NotifyId,
    r: Result<(), Seq<char>>,
    now: u64,
) -> ReactorView {
    match r {
        Err(_) => ReactorView { phase: Phase::Rto, ..io_fault(v) },
        Ok(_) => armed(
            ReactorView {
                window: v.window.push(sent_frame(seq, frame, now)),
                notify: if notify_id.0 == 0 {
                    v.notify
                } else {
                    without_seq(v.notify, seq).push(NotifyEntry { seq, mcu, notify_id })
                },
                ..v
            },
            seq,
        ),
    }
}

/// One more than a count of retries, modulo 2^32.
pub open spec fn retried_once(n: u32) -> u32 {
    ((n + 1) % 0x1_0000_0000) as u32
}

/// The first frame that has been sent too often while nothing is received.
pub open spec fn first_exhausted(w: Seq<UnackedView>, silent: bool) -> Option<int>
    decreases w.len(),
{
    if w.len() == 0 {
        None
    } else if silent && retried_once(w[0].retry_count) >= MAX_RETRY_COUNT {
        Some(0)
    } else {
        match first_exhausted(w.skip(1), silent) {
            Some(i) => Some(i + 1),
            None => None,
        }
    }
}

/// The frames, the first `n` of them counted as sent once more.
pub open spec fn retried(w: Seq<UnackedView>, n: int) -> Seq<UnackedView> {
    Seq::new(
        w.len(),
        |i: int|
            if i < n {
                UnackedView { retry_count: retried_once(w[i].retry_count), ..w[i] }
            } else {
                w[i]
            },
    )
}

/// The frames were sent again. Which acknowledgements are not taken for
/// refusals depends on why. A frame that was sent too often while nothing was
/// received closes the connection: then the second part is true.
pub open spec fn retransmitted(v: ReactorView, trigger: RetransmitTrigger, now: u64) -> (
    ReactorView,
    bool,
) {
    let base = ReactorView {
        ignore_nak_seq: match trigger {
            RetransmitTrigger::NakDriven => if v.receive_seq < v.retransmit_seq {
                v.retransmit_seq
            } else {
                v.receive_seq
            },
            RetransmitTrigger::TimeoutDriven => v.send_seq,
        },
        retransmit_seq: v.send_seq,
        rtt_sample_armed: false,
        ..v
    };
    let silent = now >= v.last_recv_time + MCU_SILENCE_FOR_CLOSE;
    match first_exhausted(v.window, silent) {
        Some(i) => (
            ReactorView {
                window: retried(v.window, i + 1),
                state: ReactorState::Closed,
                host_fault: Some(
                    FaultEvent {
                        fault_code: v.fault_codes.retransmit_exhausted,
                        fault_detail: retried_once(v.window[i].retry_count),
                        segment_id: 0,
                        synthesized: false,
                    },
                ),
                ..base
            },
            true,
        ),
        None => (
            ReactorView {
                window: retried(v.window, v.window.len() as int),
                rtt: if trigger == RetransmitTrigger::TimeoutDriven {
                    rtt_backed_off(v.rtt)
                } else {
                    v.rtt
                },
                ..base
            },
            false,
        ),
    }
}

/// The frames that were received are given up.
pub open spec fn frames_dropped(v: ReactorView) -> ReactorView {
    ReactorView { inbound: Seq::empty(), phase: Phase::Draining, ..v }
}

/// The frames were sent again, or not. In the course of a timeout the tick
/// goes on either way; in the course of received frames a failure gives up the
/// rest of them. A failed write closes the connection.
pub open spec fn retransmit_written(
    v: ReactorView,
    trigger: RetransmitTrigger,
    r: Result<(), Seq<char>>,
    now: u64,
) -> ReactorView {
    match r {
        Err(_) => if v.phase == Phase::Rto {
            ReactorView { phase: Phase::Finishing, ..io_fault(v) }
        } else {
            frames_dropped(io_fault(v))
        },
        Ok(_) => {
            let (x, failed) = retransmitted(v, trigger, now);
            if v.phase == Phase::Rto {
                ReactorView { phase: Phase::Finishing, ..x }
            } else if failed {
                frames_dropped(x)
            } else {
                x
            }
        },
    }
}

/// The identify request was written, or not.
pub open spec fn identify_written(v: ReactorView, r: Result<(), Seq<char>>) -> ReactorView {
    match r {
        Ok(_) => v,
        Err(text) => io_fault(
            match v.native.identify_pending {
                Some(token) => emit(
                    ReactorView {
                        native: NativeView { identify_pending: None, ..v.native },
                        ..v
                    },
                    EffectView::CompleteIdentify {
                        token,
                        result: Err(TransportErrorView::Io(text)),
                    },
                ),
                None => v,
            },
        ),
    }
}

/// A native call was written, or not.
pub open spec fn call_written(v: ReactorView, cid: u32, r: Result<(), Seq<char>>) -> ReactorView {
    match r {
        Ok(_) => v,
        Err(text) => io_fault(
            match find_call(v.native.pending, cid) {
                Some(i) => emit(
                    ReactorView {
                        native: NativeView { pending: v.native.pending.remove(i), ..v.native },
                        ..v
                    },
                    EffectView::CompleteNative {
                        token: v.native.pending[i].token,
                        result: Err(TransportErrorView::Io(text)),
                    },
                ),
                None => v,
            },
        ),
    }
}

/// The write that was asked for was made, or not.
pub open spec fn written(v: ReactorView, r: Result<(), Seq<char>>, now: u64) -> ReactorView {
    let w = ReactorView { writing: None, ..v };
    match v.writing {
        None => v,
        Some(GoalView::Submission { call_id, seq, expected_response_name, deadline, frame }) => {
            submission_written(w, call_id, seq, expected_response_name, deadline, frame, r, now)
        },
        Some(GoalView::FireAndForget { seq, frame }) => forget_written(w, seq, frame, r, now),
        Some(GoalView::Passthrough { seq, frame, mcu, notify_id }) => passthrough_written(
            w,
            seq,
            frame,
            mcu,
            notify_id,
            r,
            now,
        ),
        Some(GoalView::Retransmit { trigger, frame }) => retransmit_written(w, trigger, r, now),
        Some(GoalView::Identify { correlation_id }) => identify_written(w, r),
        Some(GoalView::Call { correlation_id, channel, kind, body }) => call_written(
            w,
            correlation_id,
            r,
        ),
    }
}

/// The first of some acknowledged frames that lies at or behind a sequence.
pub open spec fn first_from(s: Seq<UnackedView>, seq: u64) -> Option<int>
    decreases s.len(),
{
    if s.len() == 0 {
        None
    } else if s[0].seq >= seq {
        Some(0)
    } else {
        match first_from(s.skip(1), seq) {
            Some(i) => Some(i + 1),
            None => None,
        }
    }
}

/// The time from one moment to another, or none if it is not later.
pub open spec fn elapsed(from: u64, to: u64) -> u64 {
    if to >= from {
        (to - from) as u64
    } else {
        0
    }
}

/// The bytes that a frame takes in the controller's buffer.
pub open spec fn payload_len(e: UnackedView) -> u64 {
    if e.frame_bytes.len() >= 5 {
        (e.frame_bytes.len() - 5) as u64
    } else {
        0
    }
}

/// A router after acknowledgements of some frames.
pub open spec fn router_acked_all(r: RouterView, mcu: McuHandle, s: Seq<UnackedView>) -> RouterView
    decreases s.len(),
{
    if s.len() == 0 {
        r
    } else {
        router_acked(router_acked_all(r, mcu, s.drop_last()), mcu, payload_len(s.last()))
    }
}

/// The controller has received everything before a sequence. With nothing
/// unacknowledged, both sequences start there.
pub open spec fn received_through(v: ReactorView, rseq: u64, now: u64) -> ReactorView {
    if v.window.len() == 0 {
        ReactorView { send_seq: rseq, receive_seq: rseq, ..v }
    } else {
        let n = acked_count(v.window, rseq) as int;
        let popped = v.window.take(n);
        let sample = if v.rtt_sample_armed {
            first_from(popped, v.rtt_sample_seq)
        } else {
            None
        };
        ReactorView {
            window: v.window.skip(n),
            rtt: match sample {
                Some(i) => rtt_updated(v.rtt, elapsed(popped[i].sent_at, now)),
                None => v.rtt,
            },
            rtt_sample_armed: v.rtt_sample_armed && sample is None,
            router: match (v.router, v.mcu) {
                (Some(r), Some(m)) => Some(router_acked_all(r, m, popped)),
                _ => v.router,
            },
            receive_seq: rseq,
            ..v
        }
    }
}

/// An acknowledgement: one that moves on is taken; one that repeats the last
/// is a refusal, and the frames are sent again, unless refusals up to there
/// are to be ignored or nothing is unacknowledged.
pub open spec fn ack_taken(v: ReactorView, nibble: u8, now: u64) -> ReactorView {
    let rseq = absolute(v.receive_seq, nibble) as u64;
    let w = if rseq > v.receive_seq {
        received_through(v, rseq, now)
    } else {
        v
    };
    if w.last_ack_seq < rseq {
        ReactorView { last_ack_seq: rseq, ..w }
    } else if rseq > w.ignore_nak_seq && w.window.len() > 0 {
        retransmit_started(w, RetransmitTrigger::NakDriven)
    } else {
        w
    }
}

/// The body of a frame, by the length in its first byte: from behind the header
/// to before the trailer.
pub open spec fn raw_payload(b: Seq<u8>) -> Seq<u8> {
    let n = b[0] as int;
    if 5 < n && n - 3 <= b.len() {
        b.subrange(2, n - 3)
    } else {
        Seq::empty()
    }
}

/// What becomes of a response that no call waits for: it answers the oldest
/// passthrough message that waits for one, if there is one.
pub open spec fn passthrough_answered(v: ReactorView, raw: Seq<u8>, now: u64) -> (
    ReactorView,
    FateView,
) {
    if v.notify.len() == 0 {
        (v, FateView::Forward)
    } else {
        let i = lowest(v.notify);
        let e = v.notify[i];
        let w = ReactorView { notify: v.notify.remove(i), ..v };
        match v.router {
            Some(r) => if r.knows(e.mcu) {
                let got = answered(r.record(e.mcu), e.notify_id, raw, now);
                (
                    ReactorView { router: Some(r.with(e.mcu, got.1)), ..w },
                    FateView::Notified { mcu: e.mcu, notify_id: e.notify_id, response: got.0 },
                )
            } else {
                (
                    w,
                    FateView::Notified { mcu: e.mcu, notify_id: e.notify_id, response: None },
                )
            },
            None => (
                w,
                FateView::Notified { mcu: e.mcu, notify_id: e.notify_id, response: None },
            ),
        }
    }
}

/// A response: it goes to the oldest call that waits for it, else to the
/// interceptors and on.
pub open spec fn response_taken(
    v: ReactorView,
    name: Seq<char>,
    params: ParamsView,
    raw: Seq<u8>,
    now: u64,
) -> ReactorView {
    match first_waiting(v.awaiting, name) {
        Some(i) => emit(
            ReactorView { awaiting: v.awaiting.remove(i), ..v },
            EffectView::Complete { call_id: v.awaiting[i].call_id, result: Ok(params) },
        ),
        None => {
            let (w, fate) = passthrough_answered(v, raw, now);
            emit(
                w,
                EffectView::Unsolicited {
                    interceptors: matching(
                        v.interceptors.entries,
                        name,
                        param_u32(params, "oid"@),
                    ),
                    name,
                    params,
                    fate,
                },
            )
        },
    }
}

/// A received frame: too short to be one, an acknowledgement, or a message.
/// A message that cannot be decoded is dropped.
pub open spec fn frame_taken(v: ReactorView, b: Seq<u8>, now: u64) -> ReactorView {
    if b.len() < 5 {
        v
    } else if b.len() == 5 {
        ack_taken(v, b[1] & 0x0F, now)
    } else {
        let rseq = absolute(v.receive_seq, b[1] & 0x0F) as u64;
        let w = if rseq != v.receive_seq {
            received_through(v, rseq, now)
        } else {
            v
        };
        match frame_decoded(v.parser, b) {
            Err(_) => w,
            Ok(DecodedView::Response { name, params }) => response_taken(
                w,
                name,
                params,
                raw_payload(b),
                now,
            ),
            Ok(DecodedView::Output { name, params }) => emit(
                w,
                EffectView::Event(lifted(name, params)),
            ),
        }
    }
}

/// A received native frame.
pub open spec fn native_frame_taken(v: ReactorView, f: NativeFrameView) -> ReactorView {
    let (native, result) = native_taken(v.native, f);
    let w = ReactorView { native, ..v };
    match result {
        NativeDispatchView::Call { token, outcome } => emit(
            w,
            EffectView::CompleteNative { token, result: Ok(outcome) },
        ),
        NativeDispatchView::Identify { token, outcome } => match token {
            Some(t) => emit(w, EffectView::CompleteIdentify { token: t, result: outcome }),
            None => w,
        },
        NativeDispatchView::Event(e) => emit(w, EffectView::Event(e)),
        NativeDispatchView::Ignored => w,
    }
}

/// What reading from the port gave.
pub open spec fn polled(v: ReactorView, p: PollView, now: u64) -> ReactorView {
    match p {
        PollView::Frames { frames, errors } => ReactorView {
            zero_byte_first_seen: None,
            last_recv_time: if frames.len() > 0 || errors > 0 {
                now
            } else {
                v.last_recv_time
            },
            inbound: frames,
            phase: Phase::Frames,
            ..v
        },
        PollView::Timeout => ReactorView {
            zero_byte_first_seen: None,
            phase: Phase::Draining,
            ..v
        },
        PollView::PhantomZero => {
            let first = match v.zero_byte_first_seen {
                Some(t) => t,
                None => now,
            };
            let w = ReactorView {
                zero_byte_first_seen: Some(first),
                phase: Phase::Draining,
                ..v
            };
            if elapsed(first, now) >= ZERO_BYTE_DEBOUNCE {
                read_fault(w)
            } else {
                w
            }
        },
        PollView::Failed => ReactorView { phase: Phase::Draining, ..read_fault(v) },
    }
}

/// A router with one entry more, where its controller and queue are known.
pub open spec fn router_pushed(
    r: RouterView,
    mcu: McuHandle,
    queue_id: CommandQueueId,
    e: EntryView,
) -> RouterView {
    if r.knows(mcu) {
        let rec = r.record(mcu);
        match state_pushed(rec.state, queue_id.0, e) {
            Ok(s) => r.with(mcu, RecordView { state: s, ..rec }),
            Err(_) => r,
        }
    } else {
        r
    }
}

/// An identify request: refused while another is under way.
pub open spec fn identify_started(v: ReactorView, token: u64) -> ReactorView {
    let cid = v.native.next_correlation_id;
    let w = ReactorView {
        native: NativeView { next_correlation_id: next_cid(cid), ..v.native },
        ..v
    };
    if v.native.identify_pending is Some {
        emit(
            w,
            EffectView::CompleteIdentify { token, result: Err(TransportErrorView::Backpressure) },
        )
    } else {
        ReactorView {
            native: NativeView { identify_pending: Some(token), ..w.native },
            writing: Some(GoalView::Identify { correlation_id: cid }),
            ..w
        }
    }
}

/// A native call: refused once the connection is closed, or before the
/// handshake.
pub open spec fn call_started(
    v: ReactorView,
    channel: u8,
    kind: MessageKind,
    body: Seq<u8>,
    token: u64,
    deadline: u64,
) -> ReactorView {
    if v.state == ReactorState::Closed {
        emit(v, EffectView::CompleteNative { token, result: Err(TransportErrorView::Closed) })
    } else if !v.native.identified {
        emit(
            v,
            EffectView::CompleteNative {
                token,
                result: Err(TransportErrorView::Parse("kalico transport not yet identified"@)),
            },
        )
    } else {
        let cid = v.native.next_correlation_id;
        ReactorView {
            native: NativeView {
                next_correlation_id: next_cid(cid),
                pending: without_call(v.native.pending, cid).push(
                    PendingKalicoCall { correlation_id: cid, token, deadline },
                ),
                ..v.native
            },
            writing: Some(GoalView::Call { correlation_id: cid, channel, kind, body }),
            ..v
        }
    }
}

/// A request.
pub open spec fn command_taken(v: ReactorView, c: CommandView) -> ReactorView {
    match c {
        CommandView::Submit { call_id, cmd, expected_response_name, deadline } => {
            match line_bytes(v.parser, cmd) {
                Ok(payload) => submission_started(
                    v,
                    SubmissionView { call_id, payload, expected_response_name, deadline },
                ),
                Err(e) => emit(
                    v,
                    EffectView::Complete {
                        call_id,
                        result: Err(TransportErrorView::Parse(error_text(e))),
                    },
                ),
            }
        },
        CommandView::SubmitTyped { call_id, payload, expected_response_name, deadline } => {
            submission_started(
                v,
                SubmissionView { call_id, payload, expected_response_name, deadline },
            )
        },
        CommandView::Abandon(call_id) => ReactorView {
            awaiting: abandoned(v.awaiting, call_id),
            ..v
        },
        CommandView::Shutdown => ReactorView {
            state: ReactorState::Closed,
            closed_via_shutdown: true,
            ..v
        },
        CommandView::MarkExpectedDisconnect => ReactorView { closed_via_shutdown: true, ..v },
        CommandView::AttachHeartbeatCallback => emit(v, EffectView::AttachHeartbeat),
        CommandView::SetMcuLogHook => emit(v, EffectView::AttachLogHook),
        CommandView::Subscribe { channel, token } => emit(
            v,
            EffectView::Subscribe { channel, token },
        ),
        CommandView::InstallPassthroughRouter(r) => ReactorView {
            router: Some(r),
            mcu: if r.handles.len() > 0 {
                Some(McuHandle(r.handles[0]))
            } else {
                None
            },
            ..v
        },
        CommandView::PassthroughSend { mcu, queue_id, entry } => ReactorView {
            router: match v.router {
                Some(r) => Some(router_pushed(r, mcu, queue_id, entry)),
                None => None,
            },
            ..v
        },
        CommandView::FireAndForget { cmd } => match line_bytes(v.parser, cmd) {
            Ok(payload) => forget_started(v, payload),
            Err(_) => v,
        },
        CommandView::FireAndForgetTyped { payload } => forget_started(v, payload),
        CommandView::KalicoIdentify { token } => identify_started(v, token),
        CommandView::KalicoCall { channel, kind, body, token, deadline } => call_started(
            v,
            channel,
            kind,
            body,
            token,
            deadline,
        ),
        CommandView::Noop => v,
        CommandView::RegisterInterceptor { msg_name, oid, token } => emit(
            ReactorView { interceptors: interceptor_added(v.interceptors, msg_name, oid), ..v },
            EffectView::InterceptorRegistered {
                token,
                id: InterceptorId(v.interceptors.next_id),
            },
        ),
        CommandView::UnregisterInterceptor { id } => ReactorView {
            interceptors: interceptor_removed(v.interceptors, id),
            ..v
        },
    }
}

/// The phase behind one request more.
pub open spec fn after_command(k: u8) -> Phase {
    if k + 1 < MAX_SUBMITS_PER_ITER {
        Phase::Commands((k + 1) as u8)
    } else {
        Phase::Polling
    }
}

/// The next received frame is handled.
pub open spec fn frame_step(v: ReactorView, now: u64) -> ReactorView {
    if v.inbound.len() == 0 {
        ReactorView { phase: Phase::Draining, ..v }
    } else {
        let w = ReactorView { inbound: v.inbound.skip(1), ..v };
        match v.inbound[0] {
            FrameView::Klipper(b) => frame_taken(w, b, now),
            FrameView::Native(f) => native_frame_taken(w, f),
        }
    }
}

/// The next message that waits for room is sent, in the order they came.
pub open spec fn drain_step(v: ReactorView) -> ReactorView {
    if v.window.len() >= WINDOW || v.order.len() == 0 {
        ReactorView { phase: Phase::Promoting, ..v }
    } else {
        let w = ReactorView { order: v.order.skip(1), ..v };
        match v.order[0] {
            PendingOutboundKind::Submission => if v.submissions.len() == 0 {
                w
            } else {
                submission_started(
                    ReactorView { submissions: v.submissions.skip(1), ..w },
                    v.submissions[0],
                )
            },
            PendingOutboundKind::FireAndForget => if v.forgets.len() == 0 {
                w
            } else {
                forget_started(
                    ReactorView { forgets: v.forgets.skip(1), ..w },
                    v.forgets[0],
                )
            },
        }
    }
}

/// The passthrough queues of the controller are brought up to date, where
/// there are any.
pub open spec fn promote_step(v: ReactorView) -> ReactorView {
    match (v.router, v.mcu) {
        (Some(r), Some(m)) => ReactorView {
            router: Some(
                if r.knows(m) {
                    let rec = r.record(m);
                    r.with(m, RecordView { state: state_promoted(rec.state, 0), ..rec })
                } else {
                    r
                },
            ),
            phase: Phase::Passthrough,
            ..v
        },
        _ => ReactorView { phase: Phase::Rto, ..v },
    }
}

/// The next passthrough message is sent, while the window has room.
pub open spec fn passthrough_step(v: ReactorView, now: u64) -> ReactorView {
    let done = ReactorView { phase: Phase::Rto, ..v };
    match (v.router, v.mcu) {
        (Some(r), Some(m)) => if v.window.len() >= WINDOW || !r.knows(m) {
            done
        } else {
            let got = emitted(r.record(m), now);
            let router = Some(r.with(m, got.1));
            match got.0 {
                None => ReactorView { router, ..done },
                Some(e) => ReactorView {
                    router,
                    send_seq: wrapped_u64(v.send_seq + 1),
                    writing: Some(
                        GoalView::Passthrough {
                            seq: v.send_seq,
                            frame: framed(e.bytes, wire_seq(v.send_seq)),
                            mcu: m,
                            notify_id: e.notify_id,
                        },
                    ),
                    ..v
                },
            }
        },
        _ => done,
    }
}

/// The frames are sent again if the oldest has waited for the timeout.
pub open spec fn rto_step(v: ReactorView, now: u64) -> ReactorView {
    if v.window.len() > 0 && now >= v.window[0].sent_at + v.rtt.rto {
        retransmit_started(v, RetransmitTrigger::TimeoutDriven)
    } else {
        ReactorView { phase: Phase::Finishing, ..v }
    }
}

/// Calls that are told an error.
pub open spec fn calls_failed(s: Seq<AwaitView>, e: TransportErrorView) -> Seq<EffectView> {
    Seq::new(
        s.len(),
        |i: int| EffectView::Complete { call_id: s[i].call_id, result: Err(e) },
    )
}

/// Waiting commands whose callers are told an error.
pub open spec fn submissions_failed(s: Seq<SubmissionView>, e: TransportErrorView) -> Seq<
    EffectView,
> {
    Seq::new(
        s.len(),
        |i: int| EffectView::Complete { call_id: s[i].call_id, result: Err(e) },
    )
}

/// Native calls that are told an error.
pub open spec fn natives_failed(s: Seq<PendingKalicoCall>, e: TransportErrorView) -> Seq<
    EffectView,
> {
    Seq::new(
        s.len(),
        |i: int| EffectView::CompleteNative { token: s[i].token, result: Err(e) },
    )
}

/// The fault of the host, if there is one, is told.
pub open spec fn fault_told(v: ReactorView) -> ReactorView {
    match v.host_fault {
        Some(f) => emit(ReactorView { host_fault: None, ..v }, EffectView::HostFault(f)),
        None => v,
    }
}

/// Calls whose deadline has come are given up.
pub open spec fn overdue_failed(v: ReactorView, now: u64) -> ReactorView {
    ReactorView {
        awaiting: unexpired(v.awaiting, now),
        native: NativeView { pending: in_time(v.native.pending, now), ..v.native },
        outbox: v.outbox + calls_failed(
            expired(v.awaiting, now),
            TransportErrorView::DispatcherTimeout,
        ) + natives_failed(overdue(v.native.pending, now), TransportErrorView::Timeout),
        ..v
    }
}

/// Everybody who waits is told that the connection is closed, and nothing is
/// left to send.
pub open spec fn all_failed(v: ReactorView) -> ReactorView {
    let closed = TransportErrorView::Closed;
    ReactorView {
        awaiting: Seq::empty(),
        window: Seq::empty(),
        submissions: Seq::empty(),
        forgets: Seq::empty(),
        order: Seq::empty(),
        notify: Seq::empty(),
        native: NativeView { pending: Seq::empty(), identify_pending: None, ..v.native },
        outbox: v.outbox + calls_failed(v.awaiting, closed) + submissions_failed(
            v.submissions,
            closed,
        ) + natives_failed(v.native.pending, closed) + match v.native.identify_pending {
            Some(token) => seq![EffectView::CompleteIdentify { token, result: Err(closed) }],
            None => Seq::empty(),
        },
        ..v
    }
}

/// The end of a tick.
pub open spec fn finish_step(v: ReactorView, now: u64) -> ReactorView {
    let w = overdue_failed(fault_told(v), now);
    if w.state == ReactorState::Closed {
        ReactorView { phase: Phase::Done(TickOutcome::Closed), ..all_failed(w) }
    } else {
        ReactorView { phase: Phase::Done(TickOutcome::Continue), ..w }
    }
}

/// The reactor goes on.
pub open spec fn gone_on(v: ReactorView, now: u64) -> ReactorView {
    match v.phase {
        Phase::Frames => frame_step(v, now),
        Phase::Draining => drain_step(v),
        Phase::Promoting => promote_step(v),
        Phase::Passthrough => passthrough_step(v, now),
        Phase::Rto => rto_step(v, now),
        Phase::Finishing => finish_step(v, now),
        Phase::Done(TickOutcome::Continue) => ReactorView { phase: Phase::Commands(0), ..v },
        _ => v,
    }
}

/// What an event leads to. While a write is under way only its end counts;
/// otherwise each phase has its own events, and others leave the reactor as it
/// is.
pub open spec fn ticked(v: ReactorView, e: TickEventView, now: u64) -> ReactorView {
    if v.writing is Some {
        match e {
            TickEventView::Written(r) => written(v, r, now),
            _ => v,
        }
    } else {
        match (v.phase, e) {
            (Phase::Commands(k), TickEventView::Command(c)) => command_taken(
                ReactorView { phase: after_command(k), ..v },
                c,
            ),
            (Phase::Commands(_), TickEventView::NoCommand) => ReactorView {
                phase: Phase::Polling,
                ..v
            },
            (Phase::Commands(_), TickEventView::CommandsClosed) => ReactorView {
                phase: Phase::Polling,
                state: ReactorState::Closed,
                ..v
            },
            (Phase::Polling, TickEventView::Polled(p)) => polled(v, p, now),
            (_, TickEventView::Go) => gone_on(v, now),
            _ => v,
        }
    }
}

/// The bytes that a write is to put on the wire.
pub open spec fn outgoing(g: GoalView) -> OutgoingView {
    match g {
        GoalView::Submission { call_id, seq, expected_response_name, deadline, frame } => {
            OutgoingView::Bytes(frame)
        },
        GoalView::FireAndForget { seq, frame } => OutgoingView::Bytes(frame),
        GoalView::Passthrough { seq, frame, mcu, notify_id } => OutgoingView::Bytes(frame),
        GoalView::Retransmit { trigger, frame } => OutgoingView::Bytes(frame),
        GoalView::Identify { correlation_id } => OutgoingView::NativeIdentify { correlation_id },
        GoalView::Call { correlation_id, channel, kind, body } => OutgoingView::NativeCall {
            channel,
            kind,
            correlation_id,
            body,
        },
    }
}

/// What the owner is to do next.
pub open spec fn wanted(v: ReactorView) -> TickActionView {
    match v.writing {
        Some(g) => TickActionView::Write(outgoing(g)),
        None => match v.phase {
            Phase::Commands(_) => TickActionView::Receive,
            Phase::Polling => TickActionView::Poll,
            Phase::Done(o) => TickActionView::Done(o),
            _ => TickActionView::Again,
        },
    }
}

/// Whether a write needs room in the window once it is made.
pub open spec fn needs_room(g: GoalView) -> bool {
    g is Submission || g is FireAndForget || g is Passthrough
}

/// Whether the window is within its bounds, with room for the write that is
/// under way.
pub open spec fn window_ok(v: ReactorView) -> bool {
    &&& v.window.len() <= WINDOW
    &&& v.writing matches Some(g) ==> needs_room(g) ==> v.window.len() < WINDOW
}

} // verus!
