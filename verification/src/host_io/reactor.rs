//! The reactor: sends commands within a window of unacknowledged frames, sends
//! them again where needed, and routes what comes back.
//!
//! The reactor does no input or output itself. Its owner reports events to
//! [`Reactor::tick_once`], which says what to do next, and collects the
//! effects.

use crate::host_io::decode::DecodedFrame;
use crate::host_io::identify::IdentifySeqState;
use crate::host_io::interceptor::{no_interceptors, InterceptorId, InterceptorTable};
use crate::host_io::kalico_native::{
    dispatch_kalico_frame, fresh_native, in_time, overdue, KalicoDispatchResult, KalicoNativeState,
    MessageKind, NativeFrame, NativeProtocol, NativeView, PendingKalicoCall,
};
use crate::host_io::parser::MsgProtoParser;
use crate::host_io::reactor_model::{
    ack_taken, all_failed, armed, call_started, calls_failed, command_taken, drain_step, emit,
    finish_step, first_exhausted, first_from, forget_started, frame_step, frame_taken,
    frames_dropped, gone_on, identify_started, io_fault, native_frame_taken, natives_failed,
    needs_room, passthrough_answered, passthrough_step, polled, promote_step, raw_payload,
    read_fault, received_through, response_taken, retransmit_started, retransmitted, retried,
    router_acked_all, rto_step, sent_frame, submission_started, submissions_failed, ticked, wanted,
    window_ok, written, HostFaultCodes, ReactorView, MAX_RETRY_COUNT, MAX_SUBMITS_PER_ITER,
    MCU_SILENCE_FOR_CLOSE, PENDING_FIRE_AND_FORGET_CEILING, PENDING_SUBMISSION_CEILING, WINDOW,
    ZERO_BYTE_DEBOUNCE,
};
use crate::host_io::reactor_laws::law_window_bounded;
use crate::host_io::reactor_types::{
    effect_views, frame_views, submission_views, CommandView, Effect, EffectView, Fate, Frame,
    FrameView, GoalView, NotifyEntry, NotifyMap, Outgoing, PendingOutboundKind, PendingSubmission,
    Phase, PollOutcome, ReactorCommand, ReactorState, RetransmitTrigger, SubmissionView, TickAction,
    TickEvent, TickOutcome, WriteGoal,
};
use crate::host_io::rtt::{fresh_rtt, RttEstimator};
use crate::host_io::runtime_events::{FaultEvent, RuntimeEvent};
use crate::host_io::window::{
    await_views, frame_rows, unacked_views, AwaitEntry, AwaitingResponse, UnackedEntry,
    UnackedWindow,
};
use crate::host_io::wire::{
    build_frame, build_retransmit_buffer, decode_absolute, slice_rows, MESSAGE_HEADER_SIZE,
    MESSAGE_MIN, MESSAGE_TRAILER_SIZE,
};
use crate::passthrough_queue::entry::PassthroughEntry;
use crate::passthrough_queue::mcu_state::CommandQueueId;
use crate::passthrough_queue::notify::NotifyResponse;
use crate::passthrough_queue::router::{McuHandle, PassthroughRouter, RouterView};
use crate::text::{byte_rows, copy_text};
use crate::transport::{MessageParams, TransportError, TransportErrorView};
use std::collections::VecDeque;
use std::sync::Arc;
use vstd::prelude::*;

verus! {

/// The reactor.
#[derive(Debug)]
pub struct Reactor {
    parser: Arc<MsgProtoParser>,
    fault_codes: HostFaultCodes,
    window: UnackedWindow,
    awaiting: AwaitingResponse,
    rtt: RttEstimator,
    send_seq: u64,
    receive_seq: u64,
    last_ack_seq: u64,
    ignore_nak_seq: u64,
    retransmit_seq: u64,
    rtt_sample_seq: u64,
    rtt_sample_armed: bool,
    state: ReactorState,
    closed_via_shutdown: bool,
    host_fault: Option<FaultEvent>,
    submissions: VecDeque<PendingSubmission>,
    forgets: VecDeque<Vec<u8>>,
    order: VecDeque<PendingOutboundKind>,
    zero_byte_first_seen: Option<u64>,
    last_recv_time: u64,
    router: Option<PassthroughRouter>,
    mcu: Option<McuHandle>,
    notify: NotifyMap,
    native: KalicoNativeState,
    interceptors: InterceptorTable,
    inbound: VecDeque<Frame>,
    writing: Option<WriteGoal>,
    phase: Phase,
    outbox: Vec<Effect>,
}

/// A router, as a model.
pub open spec fn router_view(r: Option<PassthroughRouter>) -> Option<RouterView> {
    match r {
        Some(x) => Some(x@),
        None => None,
    }
}

/// A write, as a model.
pub open spec fn goal_view(g: Option<WriteGoal>) -> Option<GoalView> {
    match g {
        Some(x) => Some(x@),
        None => None,
    }
}

impl View for Reactor {
    type V = ReactorView;

    closed spec fn view(&self) -> ReactorView {
        ReactorView {
            parser: self.parser@,
            fault_codes: self.fault_codes,
            window: self.window@,
            awaiting: self.awaiting@,
            rtt: self.rtt@,
            send_seq: self.send_seq,
            receive_seq: self.receive_seq,
            last_ack_seq: self.last_ack_seq,
            ignore_nak_seq: self.ignore_nak_seq,
            retransmit_seq: self.retransmit_seq,
            rtt_sample_seq: self.rtt_sample_seq,
            rtt_sample_armed: self.rtt_sample_armed,
            state: self.state,
            closed_via_shutdown: self.closed_via_shutdown,
            host_fault: self.host_fault,
            submissions: submission_views(self.submissions@),
            forgets: byte_rows(self.forgets@),
            order: self.order@,
            zero_byte_first_seen: self.zero_byte_first_seen,
            last_recv_time: self.last_recv_time,
            router: router_view(self.router),
            mcu: self.mcu,
            notify: self.notify@,
            native: self.native@,
            interceptors: self.interceptors@,
            inbound: frame_views(self.inbound@),
            writing: goal_view(self.writing),
            phase: self.phase,
            outbox: effect_views(self.outbox@),
        }
    }
}

/// The reactor after a request, as [`command_taken`] says. The one that sorts
/// requests need not look into it.
#[verifier::opaque]
spec fn taken(v: ReactorView, c: CommandView) -> ReactorView {
    command_taken(v, c)
}

/// Whether a request asks for something to be sent to the controller now.
spec fn sends(c: CommandView) -> bool {
    c is Submit || c is SubmitTyped || c is FireAndForget || c is FireAndForgetTyped
        || c is KalicoIdentify || c is KalicoCall
}

impl Reactor {
    /// Whether the router, if there is one, is in order.
    pub closed spec fn routed(&self) -> bool {
        match self.router {
            Some(r) => r.wf(),
            None => true,
        }
    }

    /// Whether the reactor is in order.
    pub open spec fn wf(&self) -> bool {
        self.routed() && window_ok(self@)
    }

    /// A reactor with the sequences of the handshake, at time `now`.
    pub fn new(
        parser: Arc<MsgProtoParser>,
        fault_codes: HostFaultCodes,
        protocol: NativeProtocol,
        seq: IdentifySeqState,
        now: u64,
    ) -> (r: Self)
        ensures
            r.wf(),
            r@ == (ReactorView {
                parser: parser@,
                fault_codes,
                window: Seq::empty(),
                awaiting: Seq::empty(),
                rtt: fresh_rtt(),
                send_seq: seq.next_send_seq_abs,
                receive_seq: seq.mcu_receive_seq_abs,
                last_ack_seq: if seq.mcu_receive_seq_abs > 0 {
                    (seq.mcu_receive_seq_abs - 1) as u64
                } else {
                    0
                },
                ignore_nak_seq: 0,
                retransmit_seq: 0,
                rtt_sample_seq: 0,
                rtt_sample_armed: false,
                state: ReactorState::Active,
                closed_via_shutdown: false,
                host_fault: None,
                submissions: Seq::empty(),
                forgets: Seq::empty(),
                order: Seq::empty(),
                zero_byte_first_seen: None,
                last_recv_time: now,
                router: None,
                mcu: None,
                notify: Seq::empty(),
                native: fresh_native(protocol@),
                interceptors: no_interceptors(),
                inbound: Seq::empty(),
                writing: None,
                phase: Phase::Done(TickOutcome::Continue),
                outbox: Seq::empty(),
            }),
    {
        let r = Reactor {
            parser,
            fault_codes,
            window: UnackedWindow::new(),
            awaiting: AwaitingResponse::new(),
            rtt: RttEstimator::new(),
            send_seq: seq.next_send_seq_abs,
            receive_seq: seq.mcu_receive_seq_abs,
            last_ack_seq: seq.mcu_receive_seq_abs.saturating_sub(1),
            ignore_nak_seq: 0,
            retransmit_seq: 0,
            rtt_sample_seq: 0,
            rtt_sample_armed: false,
            state: ReactorState::Active,
            closed_via_shutdown: false,
            host_fault: None,
            submissions: VecDeque::new(),
            forgets: VecDeque::new(),
            order: VecDeque::new(),
            zero_byte_first_seen: None,
            last_recv_time: now,
            router: None,
            mcu: None,
            notify: NotifyMap::new(),
            native: KalicoNativeState::new(protocol),
            interceptors: InterceptorTable::new(),
            inbound: VecDeque::new(),
            writing: None,
            phase: Phase::Done(TickOutcome::Continue),
            outbox: Vec::new(),
        };
        proof {
            assert(r@.submissions =~= Seq::<SubmissionView>::empty());
            assert(r@.forgets =~= Seq::<Seq<u8>>::empty());
            assert(r@.inbound =~= Seq::<FrameView>::empty());
            assert(r@.outbox =~= Seq::<EffectView>::empty());
        }
        r
    }

    /// Adds an effect.
    fn emit(&mut self, e: Effect)
        ensures
            final(self)@ == emit(old(self)@, e@),
            final(self).routed() == old(self).routed(),
    {
        let ghost ev = e@;
        let ghost was = effect_views(self.outbox@);
        self.outbox.push(e);
        proof {
            assert(effect_views(self.outbox@) =~= was.push(ev));
        }
    }

    /// Takes the effects out that have come up.
    pub fn take_effects(&mut self) -> (r: Vec<Effect>)
        requires
            old(self).wf(),
        ensures
            effect_views(r@) == old(self)@.outbox,
            final(self)@ == (ReactorView { outbox: Seq::empty(), ..old(self)@ }),
            final(self).wf(),
    {
        let mut out: Vec<Effect> = Vec::new();
        core::mem::swap(&mut out, &mut self.outbox);
        proof {
            assert(effect_views(self.outbox@) =~= Seq::<EffectView>::empty());
        }
        out
    }

    /// Writing has failed.
    fn transition_closed_on_io_fault(&mut self)
        ensures
            final(self)@ == io_fault(old(self)@),
            final(self).routed() == old(self).routed(),
    {
        if self.host_fault.is_none() {
            self.host_fault = Some(
                FaultEvent {
                    fault_code: self.fault_codes.disconnect,
                    fault_detail: 0,
                    segment_id: 0,
                    synthesized: false,
                },
            );
        }
        self.state = ReactorState::Closed;
    }

    /// Reading has failed.
    fn close_on_read_fault(&mut self)
        ensures
            final(self)@ == read_fault(old(self)@),
            final(self).routed() == old(self).routed(),
    {
        self.host_fault = Some(
            FaultEvent {
                fault_code: self.fault_codes.disconnect,
                fault_detail: 0,
                segment_id: 0,
                synthesized: false,
            },
        );
        self.state = ReactorState::Closed;
    }

    /// Sends a command, or lets it wait for room in the window.
    pub fn dispatch_submission(&mut self, s: PendingSubmission)
        requires
            old(self)@.writing is None,
        ensures
            final(self)@ == submission_started(old(self)@, s@),
            final(self).routed() == old(self).routed(),
            old(self).wf() ==> final(self).wf(),
    {
        if self.window.is_full() {
            if self.submissions.len() >= PENDING_SUBMISSION_CEILING {
                self.emit(
                    Effect::Complete {
                        call_id: s.call_id,
                        result: Err(TransportError::Backpressure),
                    },
                );
                return;
            }
            let ghost sv = s@;
            let ghost was = submission_views(self.submissions@);
            self.submissions.push_back(s);
            self.order.push_back(PendingOutboundKind::Submission);
            proof {
                assert(submission_views(self.submissions@) =~= was.push(sv));
            }
            return;
        }
        let seq: u64 = self.send_seq;
        self.send_seq = seq.wrapping_add(1);
        let frame: Vec<u8> = build_frame(s.payload.as_slice(), (seq % 16) as u8);
        self.writing = Some(
            WriteGoal::Submission {
                call_id: s.call_id,
                seq,
                expected_response_name: s.expected_response_name,
                deadline: s.deadline,
                frame,
            },
        );
    }

    /// Sends a command without a response, or lets it wait for room in the
    /// window.
    pub fn dispatch_fire_and_forget(&mut self, payload: Vec<u8>)
        requires
            old(self)@.writing is None,
        ensures
            final(self)@ == forget_started(old(self)@, payload@),
            final(self).routed() == old(self).routed(),
            old(self).wf() ==> final(self).wf(),
    {
        if self.window.is_full() {
            if self.forgets.len() >= PENDING_FIRE_AND_FORGET_CEILING {
                return;
            }
            let ghost pv = payload@;
            let ghost was = byte_rows(self.forgets@);
            self.forgets.push_back(payload);
            self.order.push_back(PendingOutboundKind::FireAndForget);
            proof {
                assert(byte_rows(self.forgets@) =~= was.push(pv));
            }
            return;
        }
        let seq: u64 = self.send_seq;
        self.send_seq = seq.wrapping_add(1);
        let frame: Vec<u8> = build_frame(payload.as_slice(), (seq % 16) as u8);
        self.writing = Some(WriteGoal::FireAndForget { seq, frame });
    }

    /// Sends all unacknowledged frames again.
    fn write_retransmit(&mut self, trigger: RetransmitTrigger)
        requires
            old(self)@.writing is None,
        ensures
            final(self)@ == retransmit_started(old(self)@, trigger),
            final(self).routed() == old(self).routed(),
    {
        let entries: Vec<&UnackedEntry> = self.window.iter();
        let mut frames: Vec<&[u8]> = Vec::new();
        let mut i: usize = 0;
        while i < entries.len()
            invariant
                i <= entries@.len(),
                i == frames@.len(),
                forall|j: int|
                    0 <= j < i ==> (#[trigger] frames@[j])@ == entries@[j]@.frame_bytes,
            decreases entries@.len() - i,
        {
            frames.push(entries[i].frame_bytes.as_slice());
            i += 1;
        }
        let frame: Vec<u8> = build_retransmit_buffer(frames.as_slice());
        proof {
            assert(slice_rows(frames@) =~= frame_rows(self.window@));
        }
        self.writing = Some(WriteGoal::Retransmit { trigger, frame });
    }

    /// Remembers a frame that was just sent.
    fn push_sent(&mut self, seq: u64, frame: Vec<u8>, now: u64)
        requires
            old(self)@.window.len() < WINDOW,
        ensures
            final(self)@ == (ReactorView {
                window: old(self)@.window.push(sent_frame(seq, frame@, now)),
                ..old(self)@
            }),
            final(self).routed() == old(self).routed(),
    {
        self.window.push(
            UnackedEntry { seq, frame_bytes: frame, sent_at: now, retry_count: 0 },
        );
    }

    /// Measures the round-trip time of a sequence.
    fn arm(&mut self, seq: u64)
        ensures
            final(self)@ == armed(old(self)@, seq),
            final(self).routed() == old(self).routed(),
    {
        if !self.rtt_sample_armed {
            self.rtt_sample_seq = seq;
            self.rtt_sample_armed = true;
        }
    }

    /// Counts the frames as sent once more. Says whether the connection was
    /// given up.
    fn count_retries(&mut self, trigger: RetransmitTrigger, now: u64) -> (failed: bool)
        ensures
            (final(self)@, failed) == retransmitted(old(self)@, trigger, now),
            final(self).routed() == old(self).routed(),
    {
        self.ignore_nak_seq = match trigger {
            RetransmitTrigger::NakDriven => if self.receive_seq < self.retransmit_seq {
                self.retransmit_seq
            } else {
                self.receive_seq
            },
            RetransmitTrigger::TimeoutDriven => self.send_seq,
        };
        self.retransmit_seq = self.send_seq;
        self.rtt_sample_armed = false;
        let silent: bool = now >= self.last_recv_time && now - self.last_recv_time
            >= MCU_SILENCE_FOR_CLOSE;
        let ghost base = self@;
        let ghost w = self@.window;
        let mut i: usize = 0;
        proof {
            assert(w.skip(0) =~= w);
            assert(retried(w, 0) =~= w);
        }
        while i < self.window.len()
            invariant
                i <= w.len(),
                self@ == (ReactorView { window: retried(w, i as int), ..base }),
                silent == (now >= base.last_recv_time + MCU_SILENCE_FOR_CLOSE),
                self.routed() == old(self).routed(),
                match first_exhausted(w.skip(i as int), silent) {
                    Some(k) => first_exhausted(w, silent) == Some(k + i),
                    None => first_exhausted(w, silent) is None,
                },
                base.fault_codes == old(self)@.fault_codes,
                base == (ReactorView {
                    ignore_nak_seq: base.ignore_nak_seq,
                    retransmit_seq: base.retransmit_seq,
                    rtt_sample_armed: false,
                    ..old(self)@
                }),
                base.retransmit_seq == old(self)@.send_seq,
                base.ignore_nak_seq == retransmitted(old(self)@, trigger, now).0.ignore_nak_seq,
                w == old(self)@.window,
            decreases w.len() - i,
        {
            let ghost here = retried(w, i as int);
            proof {
                assert(here[i as int] == w[i as int]);
                assert(w.skip(i as int)[0] == w[i as int]);
                assert(w.skip(i as int).skip(1) =~= w.skip(i + 1));
            }
            let e: &mut UnackedEntry = self.window.iter_mut(i);
            let n: u32 = e.retry_count.wrapping_add(1);
            e.retry_count = n;
            proof {
                assert(self@.window =~= retried(w, i + 1));
            }
            if n >= MAX_RETRY_COUNT && silent {
                self.state = ReactorState::Closed;
                self.host_fault = Some(
                    FaultEvent {
                        fault_code: self.fault_codes.retransmit_exhausted,
                        fault_detail: n,
                        segment_id: 0,
                        synthesized: false,
                    },
                );
                return true;
            }
            i += 1;
        }
        proof {
            assert(i == w.len());
        }
        match trigger {
            RetransmitTrigger::TimeoutDriven => {
                self.rtt.backoff();
            },
            RetransmitTrigger::NakDriven => {},
        }
        false
    }

    /// Gives up the frames that were received.
    fn drop_frames(&mut self)
        ensures
            final(self)@ == frames_dropped(old(self)@),
            final(self).routed() == old(self).routed(),
    {
        self.inbound.clear();
        proof {
            assert(frame_views(self.inbound@) =~= Seq::<FrameView>::empty());
        }
        self.phase = Phase::Draining;
    }

    /// A write was made, or not.
    fn finish_write(&mut self, goal: WriteGoal, r: Result<(), String>, now: u64)
        requires
            old(self)@.writing is None,
            needs_room(goal@) ==> old(self)@.window.len() < WINDOW,
        ensures
            ({
                let rv = match r {
                    Ok(_) => Ok(()),
                    Err(s) => Err(s@),
                };
                final(self)@ == written(
                    ReactorView { writing: Some(goal@), ..old(self)@ },
                    rv,
                    now,
                )
            }),
            final(self).routed() == old(self).routed(),
    {
        proof {
            let v = ReactorView { writing: Some(goal@), ..old(self)@ };
            assert(ReactorView { writing: None, ..v } == old(self)@);
        }
        match goal {
            WriteGoal::Submission { call_id, seq, expected_response_name, deadline, frame } => {
                match r {
                    Err(text) => {
                        self.emit(
                            Effect::Complete { call_id, result: Err(TransportError::Io(text)) },
                        );
                        self.transition_closed_on_io_fault();
                        if self.phase == Phase::Draining {
                            self.phase = Phase::Promoting;
                        }
                    },
                    Ok(_) => {
                        self.push_sent(seq, frame, now);
                        let entry = AwaitEntry {
                            call_id,
                            seq,
                            expected_response_name,
                            submitted_at: now,
                            deadline,
                            abandoned: false,
                        };
                        match self.awaiting.push(entry) {
                            Ok(_) => {
                                self.arm(seq);
                            },
                            Err(e) => {
                                self.emit(Effect::Complete { call_id, result: Err(e) });
                            },
                        }
                    },
                }
            },
            WriteGoal::FireAndForget { seq, frame } => match r {
                Err(_) => {
                    self.transition_closed_on_io_fault();
                    if self.phase == Phase::Draining {
                        self.phase = Phase::Promoting;
                    }
                },
                Ok(_) => {
                    self.push_sent(seq, frame, now);
                },
            },
            WriteGoal::Passthrough { seq, frame, mcu, notify_id } => match r {
                Err(_) => {
                    self.transition_closed_on_io_fault();
                    self.phase = Phase::Rto;
                },
                Ok(_) => {
                    self.push_sent(seq, frame, now);
                    if !notify_id.is_none() {
                        self.notify.insert(NotifyEntry { seq, mcu, notify_id });
                    }
                    self.arm(seq);
                },
            },
            WriteGoal::Retransmit { trigger, frame } => match r {
                Err(_) => {
                    self.transition_closed_on_io_fault();
                    if self.phase == Phase::Rto {
                        self.phase = Phase::Finishing;
                    } else {
                        self.drop_frames();
                    }
                },
                Ok(_) => {
                    let failed: bool = self.count_retries(trigger, now);
                    if self.phase == Phase::Rto {
                        self.phase = Phase::Finishing;
                    } else if failed {
                        self.drop_frames();
                    }
                },
            },
            WriteGoal::Identify { correlation_id } => match r {
                Ok(_) => {},
                Err(text) => {
                    match self.native.identify_pending {
                        Some(token) => {
                            self.native.identify_pending = None;
                            self.emit(
                                Effect::CompleteIdentify {
                                    token,
                                    result: Err(TransportError::Io(text)),
                                },
                            );
                        },
                        None => {},
                    }
                    self.transition_closed_on_io_fault();
                },
            },
            WriteGoal::Call { correlation_id, channel, kind, body } => match r {
                Ok(_) => {},
                Err(text) => {
                    match self.native.take_call(correlation_id) {
                        Some(c) => {
                            self.emit(
                                Effect::CompleteNative {
                                    token: c.token,
                                    result: Err(TransportError::Io(text)),
                                },
                            );
                        },
                        None => {},
                    }
                    self.transition_closed_on_io_fault();
                },
            },
        }
    }

    /// Tells the router of acknowledged frames.
    fn ack_router(&mut self, popped: &Vec<UnackedEntry>)
        requires
            old(self).routed(),
        ensures
            final(self).routed(),
            final(self)@ == (ReactorView {
                router: match (old(self)@.router, old(self)@.mcu) {
                    (Some(r), Some(m)) => Some(router_acked_all(r, m, unacked_views(popped@))),
                    _ => old(self)@.router,
                },
                ..old(self)@
            }),
    {
        match (&mut self.router, self.mcu) {
            (Some(r), Some(m)) => {
                let ghost start = r@;
                let ghost all = unacked_views(popped@);
                let mut i: usize = 0;
                while i < popped.len()
                    invariant
                        i <= popped@.len(),
                        all == unacked_views(popped@),
                        r.wf(),
                        r@ == router_acked_all(start, m, all.take(i as int)),
                    decreases popped@.len() - i,
                {
                    proof {
                        assert(all.take(i + 1).drop_last() =~= all.take(i as int));
                        assert(all.take(i + 1).last() == popped@[i as int]@);
                    }
                    let n: u64 = popped[i].frame_bytes.len().saturating_sub(MESSAGE_MIN) as u64;
                    let _ = r.record_ack(m, n);
                    i += 1;
                }
                proof {
                    assert(all.take(all.len() as int) =~= all);
                }
            },
            _ => {},
        }
    }

    /// The controller has received everything before a sequence.
    fn update_receive_seq(&mut self, rseq: u64, now: u64)
        requires
            old(self).routed(),
        ensures
            final(self).routed(),
            final(self)@ == received_through(old(self)@, rseq, now),
    {
        if self.window.is_empty() {
            self.send_seq = rseq;
            self.receive_seq = rseq;
            return;
        }
        let popped: Vec<UnackedEntry> = self.window.pop_acked(rseq);
        if self.rtt_sample_armed {
            let ghost all = unacked_views(popped@);
            let ghost before = self@;
            let mut i: usize = 0;
            proof {
                assert(all.skip(0) =~= all);
            }
            while i < popped.len() && popped[i].seq < self.rtt_sample_seq
                invariant
                    i <= popped@.len(),
                    all == unacked_views(popped@),
                    self@ == before,
                    self.routed() == old(self).routed(),
                    match first_from(all.skip(i as int), before.rtt_sample_seq) {
                        Some(k) => first_from(all, before.rtt_sample_seq) == Some(k + i),
                        None => first_from(all, before.rtt_sample_seq) is None,
                    },
                decreases popped@.len() - i,
            {
                proof {
                    assert(all.skip(i as int)[0] == popped@[i as int]@);
                    assert(all.skip(i as int).skip(1) =~= all.skip(i + 1));
                }
                i += 1;
            }
            if i < popped.len() {
                proof {
                    assert(all.skip(i as int)[0] == popped@[i as int]@);
                    assert(all[i as int] == popped@[i as int]@);
                }
                self.rtt.update(now.saturating_sub(popped[i].sent_at));
                self.rtt_sample_armed = false;
            }
        }
        self.ack_router(&popped);
        self.receive_seq = rseq;
    }

    /// Takes an acknowledgement in.
    fn handle_ack_nak(&mut self, nibble: u8, now: u64)
        requires
            old(self).routed(),
            old(self)@.writing is None,
        ensures
            final(self).routed(),
            final(self)@ == ack_taken(old(self)@, nibble, now),
    {
        let rseq: u64 = decode_absolute(self.receive_seq, nibble);
        if rseq > self.receive_seq {
            self.update_receive_seq(rseq, now);
        }
        if self.last_ack_seq < rseq {
            self.last_ack_seq = rseq;
        } else if rseq > self.ignore_nak_seq && !self.window.is_empty() {
            self.write_retransmit(RetransmitTrigger::NakDriven);
        }
    }

    /// Hands a response to the oldest passthrough message that waits for one.
    fn try_dispatch_passthrough_response(&mut self, raw: Vec<u8>, now: u64) -> (fate: Fate)
        requires
            old(self).routed(),
        ensures
            final(self).routed(),
            (final(self)@, fate@) == passthrough_answered(old(self)@, raw@, now),
    {
        match self.notify.take_lowest() {
            None => Fate::Forward,
            Some(e) => {
                let mut response: Option<NotifyResponse> = None;
                match &mut self.router {
                    Some(r) => match r.dispatch_response(e.mcu, e.notify_id, raw, now) {
                        Ok(x) => {
                            response = x;
                        },
                        Err(_) => {},
                    },
                    None => {},
                }
                Fate::Notified { mcu: e.mcu, notify_id: e.notify_id, response }
            },
        }
    }

    /// Takes a response in.
    fn handle_response(&mut self, name: String, params: MessageParams, raw: Vec<u8>, now: u64)
        requires
            old(self).routed(),
        ensures
            final(self).routed(),
            final(self)@ == response_taken(old(self)@, name@, params@, raw@, now),
    {
        match self.awaiting.find_match(name.as_str()) {
            Some(i) => {
                let e: AwaitEntry = self.awaiting.remove(i);
                self.emit(Effect::Complete { call_id: e.call_id, result: Ok(params) });
            },
            None => {
                let oid: Option<u32> = params.try_get_u32("oid");
                let interceptors: Vec<InterceptorId> = self.interceptors.dispatch(
                    name.as_str(),
                    oid,
                );
                let fate: Fate = self.try_dispatch_passthrough_response(raw, now);
                self.emit(Effect::Unsolicited { interceptors, name, params, fate });
            },
        }
    }

    /// Takes a received frame in.
    fn handle_inbound_frame(&mut self, b: Vec<u8>, now: u64)
        requires
            old(self).routed(),
            old(self)@.writing is None,
        ensures
            final(self).routed(),
            final(self)@ == frame_taken(old(self)@, b@, now),
    {
        if b.len() < MESSAGE_MIN {
            return;
        }
        let nibble: u8 = b[1] & 0x0F;
        if b.len() == MESSAGE_MIN {
            self.handle_ack_nak(nibble, now);
            return;
        }
        let rseq: u64 = decode_absolute(self.receive_seq, nibble);
        if rseq != self.receive_seq {
            self.update_receive_seq(rseq, now);
        }
        match self.parser.decode(b.as_slice()) {
            Err(_) => {},
            Ok(DecodedFrame::Response { name, params }) => {
                let n: usize = b[0] as usize;
                let raw: Vec<u8> = if n > MESSAGE_MIN && n - MESSAGE_TRAILER_SIZE <= b.len() {
                    vstd::slice::slice_to_vec(
                        vstd::slice::slice_subrange(
                            b.as_slice(),
                            MESSAGE_HEADER_SIZE,
                            n - MESSAGE_TRAILER_SIZE,
                        ),
                    )
                } else {
                    Vec::new()
                };
                proof {
                    assert(raw@ =~= raw_payload(b@));
                }
                self.handle_response(name, params, raw, now);
            },
            Ok(DecodedFrame::Output { name, params }) => {
                let event: RuntimeEvent = RuntimeEvent::lift(name.as_str(), params);
                self.emit(Effect::Event(event));
            },
        }
    }

    /// Takes a received native frame in.
    fn handle_kalico_frame(&mut self, f: NativeFrame)
        ensures
            final(self).routed() == old(self).routed(),
            final(self)@ == native_frame_taken(old(self)@, f@),
    {
        match dispatch_kalico_frame(&mut self.native, f) {
            KalicoDispatchResult::Call { token, outcome } => {
                self.emit(Effect::CompleteNative { token, result: Ok(outcome) });
            },
            KalicoDispatchResult::Identify { token, outcome } => match token {
                Some(t) => {
                    self.emit(Effect::CompleteIdentify { token: t, result: outcome });
                },
                None => {},
            },
            KalicoDispatchResult::Event(e) => {
                self.emit(Effect::Event(e));
            },
            KalicoDispatchResult::Ignored => {},
        }
    }

    /// Takes in what reading from the port gave.
    fn poll_serial(&mut self, p: PollOutcome, now: u64)
        ensures
            final(self).routed() == old(self).routed(),
            final(self)@ == polled(old(self)@, p@, now),
    {
        match p {
            PollOutcome::Frames { frames, errors } => {
                self.zero_byte_first_seen = None;
                if frames.len() > 0 || errors > 0 {
                    self.last_recv_time = now;
                }
                let ghost all = frames@;
                let ghost before = self@;
                let mut left: Vec<Frame> = frames;
                self.inbound.clear();
                while left.len() > 0
                    invariant
                        left@ + self.inbound@ == all,
                        self@ == (ReactorView { inbound: self@.inbound, ..before }),
                        self.routed() == old(self).routed(),
                    decreases left@.len(),
                {
                    match left.pop() {
                        Some(f) => {
                            self.inbound.push_front(f);
                            proof {
                                assert(left@ + self.inbound@ =~= all);
                            }
                        },
                        None => {},
                    }
                }
                proof {
                    assert(self.inbound@ =~= all);
                }
                self.phase = Phase::Frames;
            },
            PollOutcome::Timeout => {
                self.zero_byte_first_seen = None;
                self.phase = Phase::Draining;
            },
            PollOutcome::PhantomZero => {
                let first: u64 = match self.zero_byte_first_seen {
                    Some(t) => t,
                    None => now,
                };
                self.zero_byte_first_seen = Some(first);
                self.phase = Phase::Draining;
                if now.saturating_sub(first) >= ZERO_BYTE_DEBOUNCE {
                    self.close_on_read_fault();
                }
            },
            PollOutcome::Failed => {
                self.close_on_read_fault();
                self.phase = Phase::Draining;
            },
        }
    }

    /// Takes an identify request in.
    fn start_identify(&mut self, token: u64)
        requires
            old(self)@.writing is None,
        ensures
            final(self).routed() == old(self).routed(),
            final(self)@ == identify_started(old(self)@, token),
    {
        let cid: u32 = self.native.allocate_correlation_id();
        if self.native.identify_pending.is_some() {
            self.emit(
                Effect::CompleteIdentify { token, result: Err(TransportError::Backpressure) },
            );
            return;
        }
        self.native.identify_pending = Some(token);
        self.writing = Some(WriteGoal::Identify { correlation_id: cid });
    }

    /// Takes a native call in.
    fn start_call(
        &mut self,
        channel: u8,
        kind: MessageKind,
        body: Vec<u8>,
        token: u64,
        deadline: u64,
    )
        requires
            old(self)@.writing is None,
        ensures
            final(self).routed() == old(self).routed(),
            final(self)@ == call_started(old(self)@, channel, kind, body@, token, deadline),
    {
        if self.state == ReactorState::Closed {
            self.emit(Effect::CompleteNative { token, result: Err(TransportError::Closed) });
            return;
        }
        if !self.native.identified {
            self.emit(
                Effect::CompleteNative {
                    token,
                    result: Err(
                        TransportError::Parse(copy_text("kalico transport not yet identified")),
                    ),
                },
            );
            return;
        }
        let cid: u32 = self.native.allocate_correlation_id();
        self.native.add_call(PendingKalicoCall { correlation_id: cid, token, deadline });
        self.writing = Some(WriteGoal::Call { correlation_id: cid, channel, kind, body });
    }

    /// Takes a textual command in.
    fn submit_line(
        &mut self,
        call_id: u64,
        cmd: String,
        expected_response_name: String,
        deadline: u64,
    )
        requires
            old(self)@.writing is None,
        ensures
            final(self).routed() == old(self).routed(),
            final(self)@ == taken(
                old(self)@,
                CommandView::Submit {
                    call_id,
                    cmd: cmd@,
                    expected_response_name: expected_response_name@,
                    deadline,
                },
            ),
    {
        proof {
            reveal(taken);
        }
        match self.parser.encode(cmd.as_str()) {
            Ok(payload) => {
                self.dispatch_submission(
                    PendingSubmission { call_id, payload, expected_response_name, deadline },
                );
            },
            Err(e) => {
                self.emit(Effect::Complete { call_id, result: Err(e.into_transport()) });
            },
        }
    }

    /// Takes a textual command without a response in.
    fn forget_line(&mut self, cmd: String)
        requires
            old(self)@.writing is None,
        ensures
            final(self).routed() == old(self).routed(),
            final(self)@ == taken(
                old(self)@,
                CommandView::FireAndForget { cmd: cmd@ },
            ),
    {
        proof {
            reveal(taken);
        }
        match self.parser.encode(cmd.as_str()) {
            Ok(payload) => {
                self.dispatch_fire_and_forget(payload);
            },
            Err(_) => {},
        }
    }

    /// Takes a passthrough message in.
    fn passthrough_send(
        &mut self,
        mcu: McuHandle,
        queue_id: CommandQueueId,
        entry: PassthroughEntry,
    )
        requires
            old(self).routed(),
        ensures
            final(self).routed(),
            final(self)@ == taken(
                old(self)@,
                CommandView::PassthroughSend { mcu, queue_id, entry: entry@ },
            ),
    {
        proof {
            reveal(taken);
        }
        match &mut self.router {
            Some(r) => {
                let _ = r.push(mcu, queue_id, entry);
            },
            None => {},
        }
    }

    /// Takes a router in.
    fn install_router(&mut self, r: PassthroughRouter)
        requires
            r.wf(),
        ensures
            final(self).routed(),
            final(self)@ == taken(
                old(self)@,
                CommandView::InstallPassthroughRouter(r@),
            ),
    {
        proof {
            reveal(taken);
        }
        self.mcu = r.mcu_handle(0);
        self.router = Some(r);
    }

    /// Takes an encoded command in.
    fn submit_payload(
        &mut self,
        call_id: u64,
        payload: Vec<u8>,
        expected_response_name: String,
        deadline: u64,
    )
        requires
            old(self)@.writing is None,
        ensures
            final(self).routed() == old(self).routed(),
            final(self)@ == taken(
                old(self)@,
                CommandView::SubmitTyped {
                    call_id,
                    payload: payload@,
                    expected_response_name: expected_response_name@,
                    deadline,
                },
            ),
    {
        proof {
            reveal(taken);
        }
        self.dispatch_submission(
            PendingSubmission { call_id, payload, expected_response_name, deadline },
        );
    }

    /// Takes an encoded command without a response in.
    fn forget_payload(&mut self, payload: Vec<u8>)
        requires
            old(self)@.writing is None,
        ensures
            final(self).routed() == old(self).routed(),
            final(self)@ == taken(
                old(self)@,
                CommandView::FireAndForgetTyped { payload: payload@ },
            ),
    {
        proof {
            reveal(taken);
        }
        self.dispatch_fire_and_forget(payload);
    }

    /// Takes in the question of who the controller is.
    fn native_identify(&mut self, token: u64)
        requires
            old(self)@.writing is None,
        ensures
            final(self).routed() == old(self).routed(),
            final(self)@ == taken(old(self)@, CommandView::KalicoIdentify { token }),
    {
        proof {
            reveal(taken);
        }
        self.start_identify(token);
    }

    /// Takes a native call in.
    fn native_call(
        &mut self,
        channel: u8,
        kind: MessageKind,
        body: Vec<u8>,
        token: u64,
        deadline: u64,
    )
        requires
            old(self)@.writing is None,
        ensures
            final(self).routed() == old(self).routed(),
            final(self)@ == taken(
                old(self)@,
                CommandView::KalicoCall { channel, kind, body: body@, token, deadline },
            ),
    {
        proof {
            reveal(taken);
        }
        self.start_call(channel, kind, body, token, deadline);
    }

    /// Takes in a request that sends nothing to the controller.
    #[verifier::spinoff_prover]
    fn handle_request(&mut self, cmd: ReactorCommand)
        requires
            old(self).routed(),
            !sends(cmd@),
            cmd matches ReactorCommand::InstallPassthroughRouter(r) ==> r.wf(),
        ensures
            final(self).routed(),
            final(self)@ == taken(old(self)@, cmd@),
    {
        proof {
            reveal(taken);
        }
        match cmd {
            ReactorCommand::Abandon(call_id) => {
                self.awaiting.mark_abandoned(call_id);
            },
            ReactorCommand::Shutdown => {
                self.state = ReactorState::Closed;
                self.closed_via_shutdown = true;
            },
            ReactorCommand::MarkExpectedDisconnect => {
                self.closed_via_shutdown = true;
            },
            ReactorCommand::AttachHeartbeatCallback => {
                self.emit(Effect::AttachHeartbeat);
            },
            ReactorCommand::SetMcuLogHook => {
                self.emit(Effect::AttachLogHook);
            },
            ReactorCommand::Subscribe { channel, token } => {
                self.emit(Effect::Subscribe { channel, token });
            },
            ReactorCommand::InstallPassthroughRouter(r) => {
                self.install_router(r);
            },
            ReactorCommand::PassthroughSend { mcu, queue_id, entry } => {
                self.passthrough_send(mcu, queue_id, entry);
            },
            ReactorCommand::RegisterInterceptor { msg_name, oid, token } => {
                let id: InterceptorId = self.interceptors.register(msg_name, oid);
                self.emit(Effect::InterceptorRegistered { token, id });
            },
            ReactorCommand::UnregisterInterceptor { id } => {
                self.interceptors.unregister(id);
            },
            _ => {},
        }
    }

    /// Takes a request in.
    #[verifier::spinoff_prover]
    fn handle_command(&mut self, cmd: ReactorCommand)
        requires
            old(self).routed(),
            old(self)@.writing is None,
            cmd matches ReactorCommand::InstallPassthroughRouter(r) ==> r.wf(),
        ensures
            final(self).routed(),
            final(self)@ == taken(old(self)@, cmd@),
    {
        match cmd {
            ReactorCommand::Submit { call_id, cmd, expected_response_name, deadline } => {
                self.submit_line(call_id, cmd, expected_response_name, deadline);
            },
            ReactorCommand::SubmitTyped { call_id, payload, expected_response_name, deadline } => {
                self.submit_payload(call_id, payload, expected_response_name, deadline);
            },
            ReactorCommand::FireAndForget { cmd } => {
                self.forget_line(cmd);
            },
            ReactorCommand::FireAndForgetTyped { payload } => {
                self.forget_payload(payload);
            },
            ReactorCommand::KalicoIdentify { token } => {
                self.native_identify(token);
            },
            ReactorCommand::KalicoCall { channel, kind, body, token, deadline } => {
                self.native_call(channel, kind, body, token, deadline);
            },
            other => {
                self.handle_request(other);
            },
        }
    }

    /// Handles the next received frame.
    fn next_frame(&mut self, now: u64)
        requires
            old(self).routed(),
            old(self)@.writing is None,
        ensures
            final(self).routed(),
            final(self)@ == frame_step(old(self)@, now),
    {
        let ghost was = frame_views(self.inbound@);
        match self.inbound.pop_front() {
            None => {
                self.phase = Phase::Draining;
            },
            Some(f) => {
                proof {
                    assert(was[0] == f@);
                    assert(frame_views(self.inbound@) =~= was.skip(1));
                }
                match f {
                    Frame::Klipper(b) => {
                        self.handle_inbound_frame(b, now);
                    },
                    Frame::Native(n) => {
                        self.handle_kalico_frame(n);
                    },
                }
            },
        }
    }

    /// Sends the next message that waits for room in the window.
    pub fn drain_pending_submissions(&mut self)
        requires
            old(self)@.writing is None,
        ensures
            final(self)@ == drain_step(old(self)@),
            final(self).routed() == old(self).routed(),
            old(self).wf() ==> final(self).wf(),
    {
        if self.window.is_full() {
            self.phase = Phase::Promoting;
            return;
        }
        let ghost order = self.order@;
        match self.order.pop_front() {
            None => {
                self.phase = Phase::Promoting;
            },
            Some(kind) => {
                proof {
                    assert(self.order@ =~= order.skip(1));
                }
                match kind {
                    PendingOutboundKind::Submission => {
                        let ghost was = submission_views(self.submissions@);
                        match self.submissions.pop_front() {
                            None => {},
                            Some(p) => {
                                proof {
                                    assert(was[0] == p@);
                                    assert(submission_views(self.submissions@) =~= was.skip(1));
                                }
                                self.dispatch_submission(p);
                            },
                        }
                    },
                    PendingOutboundKind::FireAndForget => {
                        let ghost was = byte_rows(self.forgets@);
                        match self.forgets.pop_front() {
                            None => {},
                            Some(p) => {
                                proof {
                                    assert(was[0] == p@);
                                    assert(byte_rows(self.forgets@) =~= was.skip(1));
                                }
                                self.dispatch_fire_and_forget(p);
                            },
                        }
                    },
                }
            },
        }
    }

    /// Brings the passthrough queues up to date.
    fn promote_passthrough(&mut self)
        requires
            old(self).routed(),
        ensures
            final(self).routed(),
            final(self)@ == promote_step(old(self)@),
    {
        match (&mut self.router, self.mcu) {
            (Some(r), Some(m)) => {
                let _ = r.promote_all(m, 0);
                self.phase = Phase::Passthrough;
            },
            _ => {
                self.phase = Phase::Rto;
            },
        }
    }

    /// Sends the next passthrough message.
    fn drain_passthrough(&mut self, now: u64)
        requires
            old(self).routed(),
            old(self)@.writing is None,
        ensures
            final(self).routed(),
            final(self)@ == passthrough_step(old(self)@, now),
    {
        let full: bool = self.window.is_full();
        match (&mut self.router, self.mcu) {
            (Some(r), Some(m)) => {
                if full {
                    self.phase = Phase::Rto;
                    return;
                }
                match r.pop_next_for_emission(m, now) {
                    Ok(Some(e)) => {
                        let seq: u64 = self.send_seq;
                        self.send_seq = seq.wrapping_add(1);
                        let frame: Vec<u8> = build_frame(e.bytes(), (seq % 16) as u8);
                        self.writing = Some(
                            WriteGoal::Passthrough { seq, frame, mcu: m, notify_id: e.notify_id() },
                        );
                    },
                    _ => {
                        self.phase = Phase::Rto;
                    },
                }
            },
            _ => {
                self.phase = Phase::Rto;
            },
        }
    }

    /// Sends the frames again if the oldest has waited for the timeout.
    fn check_rto(&mut self, now: u64)
        requires
            old(self)@.writing is None,
        ensures
            final(self).routed() == old(self).routed(),
            final(self)@ == rto_step(old(self)@, now),
    {
        let due: bool = match self.window.front() {
            Some(e) => now as u128 >= e.sent_at as u128 + self.rtt.current_rto() as u128,
            None => false,
        };
        if due {
            self.write_retransmit(RetransmitTrigger::TimeoutDriven);
        } else {
            self.phase = Phase::Finishing;
        }
    }

    /// Tells the callers of some calls an error: the deadline, or that the
    /// connection is closed.
    fn fail_calls(&mut self, calls: Vec<AwaitEntry>, closed: bool)
        ensures
            final(self).routed() == old(self).routed(),
            final(self)@ == (ReactorView {
                outbox: old(self)@.outbox + calls_failed(
                    await_views(calls@),
                    if closed {
                        TransportErrorView::Closed
                    } else {
                        TransportErrorView::DispatcherTimeout
                    },
                ),
                ..old(self)@
            }),
    {
        let ghost before = self@;
        let ghost e = if closed {
            TransportErrorView::Closed
        } else {
            TransportErrorView::DispatcherTimeout
        };
        let ghost all = calls_failed(await_views(calls@), e);
        let mut i: usize = 0;
        proof {
            assert(before.outbox + all.take(0) =~= before.outbox);
        }
        while i < calls.len()
            invariant
                i <= calls@.len(),
                self.routed() == old(self).routed(),
                e == (if closed {
                    TransportErrorView::Closed
                } else {
                    TransportErrorView::DispatcherTimeout
                }),
                all == calls_failed(await_views(calls@), e),
                self@ == (ReactorView {
                    outbox: before.outbox + all.take(i as int),
                    ..before
                }),
            decreases calls@.len() - i,
        {
            let error: TransportError = if closed {
                TransportError::Closed
            } else {
                TransportError::DispatcherTimeout
            };
            self.emit(Effect::Complete { call_id: calls[i].call_id, result: Err(error) });
            proof {
                assert(all[i as int] == (EffectView::Complete {
                    call_id: calls@[i as int].call_id,
                    result: Err(e),
                }));
                assert(self@.outbox =~= before.outbox + all.take(i + 1));
            }
            i += 1;
        }
        proof {
            assert(all.take(all.len() as int) =~= all);
        }
    }

    /// Tells the callers of some native calls an error: the deadline, or that
    /// the connection is closed.
    fn fail_natives(&mut self, calls: Vec<PendingKalicoCall>, closed: bool)
        ensures
            final(self).routed() == old(self).routed(),
            final(self)@ == (ReactorView {
                outbox: old(self)@.outbox + natives_failed(
                    calls@,
                    if closed {
                        TransportErrorView::Closed
                    } else {
                        TransportErrorView::Timeout
                    },
                ),
                ..old(self)@
            }),
    {
        let ghost before = self@;
        let ghost e = if closed {
            TransportErrorView::Closed
        } else {
            TransportErrorView::Timeout
        };
        let ghost all = natives_failed(calls@, e);
        let mut i: usize = 0;
        proof {
            assert(before.outbox + all.take(0) =~= before.outbox);
        }
        while i < calls.len()
            invariant
                i <= calls@.len(),
                self.routed() == old(self).routed(),
                e == (if closed {
                    TransportErrorView::Closed
                } else {
                    TransportErrorView::Timeout
                }),
                all == natives_failed(calls@, e),
                self@ == (ReactorView {
                    outbox: before.outbox + all.take(i as int),
                    ..before
                }),
            decreases calls@.len() - i,
        {
            let error: TransportError = if closed {
                TransportError::Closed
            } else {
                TransportError::Timeout
            };
            self.emit(Effect::CompleteNative { token: calls[i].token, result: Err(error) });
            proof {
                assert(self@.outbox =~= before.outbox + all.take(i + 1));
            }
            i += 1;
        }
        proof {
            assert(all.take(all.len() as int) =~= all);
        }
    }

    /// Gives up the native calls whose deadline has come.
    fn gc_kalico_pending(&mut self, now: u64)
        ensures
            final(self).routed() == old(self).routed(),
            final(self)@ == (ReactorView {
                native: NativeView {
                    pending: in_time(old(self)@.native.pending, now),
                    ..old(self)@.native
                },
                outbox: old(self)@.outbox + natives_failed(
                    overdue(old(self)@.native.pending, now),
                    TransportErrorView::Timeout,
                ),
                ..old(self)@
            }),
    {
        let late: Vec<PendingKalicoCall> = self.native.take_overdue(now);
        self.fail_natives(late, false);
    }

    /// Tells the callers of waiting commands that the connection is closed.
    fn flush_submissions(&mut self)
        ensures
            final(self).routed() == old(self).routed(),
            final(self)@ == (ReactorView {
                submissions: Seq::empty(),
                outbox: old(self)@.outbox + submissions_failed(
                    old(self)@.submissions,
                    TransportErrorView::Closed,
                ),
                ..old(self)@
            }),
    {
        let ghost before = self@;
        let ghost all = submissions_failed(before.submissions, TransportErrorView::Closed);
        let ghost mut k: int = 0;
        proof {
            assert(before.outbox + all.take(0) =~= before.outbox);
            assert(before.submissions.skip(0) =~= before.submissions);
        }
        while self.submissions.len() > 0
            invariant
                0 <= k <= before.submissions.len(),
                self.routed() == old(self).routed(),
                all == submissions_failed(before.submissions, TransportErrorView::Closed),
                self@ == (ReactorView {
                    submissions: before.submissions.skip(k),
                    outbox: before.outbox + all.take(k),
                    ..before
                }),
            decreases before.submissions.len() - k,
        {
            let ghost was = self@.submissions;
            proof {
                assert(was.len() == self.submissions@.len());
                assert(was.len() == before.submissions.len() - k);
                assert(was[0] == self.submissions@[0]@);
            }
            match self.submissions.pop_front() {
                Some(p) => {
                    proof {
                        assert(submission_views(self.submissions@) =~= was.skip(1));
                        assert(was.skip(1) =~= before.submissions.skip(k + 1));
                        assert(p@ == before.submissions[k]);
                    }
                    self.emit(
                        Effect::Complete {
                            call_id: p.call_id,
                            result: Err(TransportError::Closed),
                        },
                    );
                    proof {
                        assert(self@.outbox =~= before.outbox + all.take(k + 1));
                        k = k + 1;
                    }
                },
                None => {},
            }
        }
        proof {
            assert(self@.submissions.len() == self.submissions@.len());
            assert(before.submissions.skip(k).len() == before.submissions.len() - k);
            assert(all.take(all.len() as int) =~= all);
            assert(self@.submissions =~= Seq::<SubmissionView>::empty());
        }
    }

    /// Tells everybody who waits that the connection is closed.
    fn flush_all_completions(&mut self)
        ensures
            final(self).routed() == old(self).routed(),
            final(self)@ == all_failed(old(self)@),
    {
        let calls: Vec<AwaitEntry> = self.awaiting.drain_all();
        self.fail_calls(calls, true);
        self.window.clear();
        self.flush_submissions();
        self.forgets.clear();
        self.order.clear();
        self.notify.clear();
        proof {
            assert(byte_rows(self.forgets@) =~= Seq::<Seq<u8>>::empty());
        }
        let mut natives: Vec<PendingKalicoCall> = Vec::new();
        core::mem::swap(&mut natives, &mut self.native.pending);
        self.fail_natives(natives, true);
        match self.native.identify_pending {
            Some(token) => {
                self.native.identify_pending = None;
                self.emit(
                    Effect::CompleteIdentify { token, result: Err(TransportError::Closed) },
                );
            },
            None => {},
        }
        proof {
            assert(self@.outbox =~= all_failed(old(self)@).outbox);
        }
    }

    /// Ends a tick.
    fn finish(&mut self, now: u64)
        ensures
            final(self).routed() == old(self).routed(),
            final(self)@ == finish_step(old(self)@, now),
    {
        match self.host_fault {
            Some(f) => {
                self.host_fault = None;
                self.emit(Effect::HostFault(f));
            },
            None => {},
        }
        let late: Vec<AwaitEntry> = self.awaiting.evict_expired(now);
        self.fail_calls(late, false);
        self.gc_kalico_pending(now);
        if self.state == ReactorState::Closed {
            self.flush_all_completions();
            self.phase = Phase::Done(TickOutcome::Closed);
        } else {
            self.phase = Phase::Done(TickOutcome::Continue);
        }
    }

    /// Goes on with the tick.
    fn go_on(&mut self, now: u64)
        requires
            old(self).routed(),
            old(self)@.writing is None,
        ensures
            final(self).routed(),
            final(self)@ == gone_on(old(self)@, now),
    {
        match self.phase {
            Phase::Frames => self.next_frame(now),
            Phase::Draining => self.drain_pending_submissions(),
            Phase::Promoting => self.promote_passthrough(),
            Phase::Passthrough => self.drain_passthrough(now),
            Phase::Rto => self.check_rto(now),
            Phase::Finishing => self.finish(now),
            Phase::Done(TickOutcome::Continue) => {
                self.phase = Phase::Commands(0);
            },
            _ => {},
        }
    }

    /// What the owner is to do next.
    pub fn next_action(&self) -> (a: TickAction)
        ensures
            a@ == wanted(self@),
    {
        match &self.writing {
            Some(g) => TickAction::Write(
                match g {
                    WriteGoal::Submission { frame, .. } => Outgoing::Bytes(
                        vstd::slice::slice_to_vec(frame.as_slice()),
                    ),
                    WriteGoal::FireAndForget { frame, .. } => Outgoing::Bytes(
                        vstd::slice::slice_to_vec(frame.as_slice()),
                    ),
                    WriteGoal::Passthrough { frame, .. } => Outgoing::Bytes(
                        vstd::slice::slice_to_vec(frame.as_slice()),
                    ),
                    WriteGoal::Retransmit { frame, .. } => Outgoing::Bytes(
                        vstd::slice::slice_to_vec(frame.as_slice()),
                    ),
                    WriteGoal::Identify { correlation_id } => Outgoing::NativeIdentify {
                        correlation_id: *correlation_id,
                    },
                    WriteGoal::Call { correlation_id, channel, kind, body } => {
                        Outgoing::NativeCall {
                            channel: *channel,
                            kind: *kind,
                            correlation_id: *correlation_id,
                            body: vstd::slice::slice_to_vec(body.as_slice()),
                        }
                    },
                },
            ),
            None => match self.phase {
                Phase::Commands(_) => TickAction::Receive,
                Phase::Polling => TickAction::Poll,
                Phase::Done(o) => TickAction::Done(o),
                _ => TickAction::Again,
            },
        }
    }

    /// The write that was asked for is made, or has failed.
    #[verifier::spinoff_prover]
    fn on_written(&mut self, r: Result<(), String>, now: u64)
        requires
            old(self).wf(),
        ensures
            final(self).routed(),
            final(self)@ == ticked(old(self)@, TickEvent::Written(r)@, now),
    {
        let ghost v = self@;
        let mut goal: Option<WriteGoal> = None;
        core::mem::swap(&mut goal, &mut self.writing);
        match goal {
            Some(g) => {
                proof {
                    assert(ReactorView { writing: Some(g@), ..self@ } == v);
                }
                self.finish_write(g, r, now);
            },
            None => {},
        }
    }

    /// Something else than the end of a write has happened. It is left
    /// unheeded while a write is under way, or where the tick does not wait
    /// for it.
    #[verifier::spinoff_prover]
    fn on_event(&mut self, event: TickEvent, now: u64)
        requires
            old(self).wf(),
            !(event is Written),
            event matches TickEvent::Command(ReactorCommand::InstallPassthroughRouter(r))
                ==> r.wf(),
        ensures
            final(self).routed(),
            final(self)@ == ticked(old(self)@, event@, now),
    {
        proof {
            reveal(taken);
        }
        if self.writing.is_some() {
            return;
        }
        match (self.phase, event) {
            (Phase::Commands(k), TickEvent::Command(c)) => {
                self.phase = if k < MAX_SUBMITS_PER_ITER - 1 {
                    Phase::Commands(k + 1)
                } else {
                    Phase::Polling
                };
                self.handle_command(c);
            },
            (Phase::Commands(_), TickEvent::NoCommand) => {
                self.phase = Phase::Polling;
            },
            (Phase::Commands(_), TickEvent::CommandsClosed) => {
                self.phase = Phase::Polling;
                self.state = ReactorState::Closed;
            },
            (Phase::Polling, TickEvent::Polled(p)) => {
                self.poll_serial(p, now);
            },
            (_, TickEvent::Go) => {
                self.go_on(now);
            },
            _ => {},
        }
    }

    /// Takes an event in, at time `now`, and says what to do next. A tick
    /// receives some requests, reads the port once, handles what was read,
    /// sends what waits, sends again what is overdue, and gives up what is too
    /// late.
    #[verifier::spinoff_prover]
    pub fn tick_once(&mut self, event: TickEvent, now: u64) -> (a: TickAction)
        requires
            old(self).wf(),
            event matches TickEvent::Command(ReactorCommand::InstallPassthroughRouter(r))
                ==> r.wf(),
        ensures
            final(self).wf(),
            final(self)@ == ticked(old(self)@, event@, now),
            a@ == wanted(final(self)@),
    {
        proof {
            law_window_bounded(self@, event@, now);
        }
        match event {
            TickEvent::Written(r) => self.on_written(r, now),
            other => self.on_event(other, now),
        }
        self.next_action()
    }

    /// Whether the connection was closed as wanted.
    pub fn exited_gracefully(&self) -> (r: bool)
        ensures
            r == self@.closed_via_shutdown,
    {
        self.closed_via_shutdown
    }

    /// Installs a router, for one of its controllers.
    pub fn set_passthrough_router(&mut self, router: PassthroughRouter, mcu: McuHandle)
        requires
            old(self).wf(),
            router.wf(),
        ensures
            final(self).wf(),
            final(self)@ == (ReactorView {
                router: Some(router@),
                mcu: Some(mcu),
                ..old(self)@
            }),
    {
        self.router = Some(router);
        self.mcu = Some(mcu);
    }

    /// The router, where one is installed.
    pub fn passthrough_router(&self) -> (r: Option<&PassthroughRouter>)
        ensures
            match r {
                Some(x) => self@.router == Some(x@),
                None => self@.router is None,
            },
    {
        self.router.as_ref()
    }

    /// The controller that the router serves.
    pub fn passthrough_mcu(&self) -> (r: Option<McuHandle>)
        ensures
            r == self@.mcu,
    {
        self.mcu
    }

    /// Where passthrough responses are to go.
    pub fn passthrough_notify_map(&self) -> (r: &NotifyMap)
        ensures
            r@ == self@.notify,
    {
        &self.notify
    }

    /// The frames that are not acknowledged yet.
    pub fn unacked_window(&self) -> (r: &UnackedWindow)
        ensures
            r@ == self@.window,
    {
        &self.window
    }

    /// The calls that wait for a response.
    pub fn awaiting_response(&self) -> (r: &AwaitingResponse)
        ensures
            r@ == self@.awaiting,
    {
        &self.awaiting
    }

    /// The estimate of the round-trip time.
    pub fn rtt(&self) -> (r: &RttEstimator)
        ensures
            r@ == self@.rtt,
    {
        &self.rtt
    }

    /// The sequence of the next frame.
    pub fn send_seq(&self) -> (r: u64)
        ensures
            r == self@.send_seq,
    {
        self.send_seq
    }

    /// The sequence that the firmware expects.
    pub fn receive_seq(&self) -> (r: u64)
        ensures
            r == self@.receive_seq,
    {
        self.receive_seq
    }

    /// The sequence that was acknowledged last.
    pub fn last_ack_seq(&self) -> (r: u64)
        ensures
            r == self@.last_ack_seq,
    {
        self.last_ack_seq
    }

    /// Whether the connection is in use.
    pub fn state(&self) -> (r: ReactorState)
        ensures
            r == self@.state,
    {
        self.state
    }
}

} // verus!
