//! Who is told what, and when a connection is given up.

use crate::host_io::interceptor::matching;
use crate::host_io::kalico_native::{find_call, overdue, PendingKalicoCall};
use crate::host_io::native_laws::{calls_apart, law_deadlines_part_calls, lemma_find_call};
use crate::host_io::reactor_model::{
    after_command, command_taken, drain_step, finish_step, first_from, frame_step, gone_on,
    passthrough_step, payload_len, promote_step, raw_payload, received_through, response_taken,
    retransmitted, rto_step, sent_frame, submission_started, ticked, wire_seq, written,
    ReactorView,
};
use crate::host_io::reactor_types::{
    lemma_lowest, lowest, CommandView, EffectView, FateView, GoalView, NotifyEntry, Phase, PollView,
    ReactorState, RetransmitTrigger, SubmissionView, TickEventView, TickOutcome,
};
use crate::host_io::rtt::rtt_updated;
use crate::host_io::runtime_events::FaultEvent;
use crate::host_io::window::{
    acked_count, expired, first_waiting, law_acked_prefix, lemma_acked_count, unexpired, AwaitView,
    UnackedView,
};
use crate::host_io::wire::framed;
use crate::host_io::wire_laws::law_frame_layout;
use crate::passthrough_queue::entry::NotifyId;
use crate::passthrough_queue::router::McuHandle;
use crate::transport::{param_u32, ParamsView, TransportErrorView};
use vstd::prelude::*;

verus! {

proof fn lemma_waiting_at(s: Seq<AwaitView>, name: Seq<char>, i: int)
    requires
        0 <= i <= s.len(),
        forall|j: int|
            0 <= j < i ==> (#[trigger] s[j]).abandoned || s[j].expected_response_name != name,
        i < s.len() ==> !s[i].abandoned && s[i].expected_response_name == name,
    ensures
        first_waiting(s, name) == if i < s.len() {
            Some(i)
        } else {
            None
        },
    decreases i,
{
    if i > 0 {
        let t = s.skip(1);
        assert(s[0].abandoned || s[0].expected_response_name != name);
        assert forall|j: int| 0 <= j < i - 1 implies (#[trigger] t[j]).abandoned
            || t[j].expected_response_name != name by {
            assert(t[j] == s[j + 1]);
        }
        lemma_waiting_at(t, name, i - 1);
    }
}

/// A response goes to the oldest call that waits for one of its name and was not
/// abandoned. The call waits no longer, and the others wait on.
pub proof fn law_response_answers_oldest_call(
    v: ReactorView,
    name: Seq<char>,
    params: ParamsView,
    raw: Seq<u8>,
    now: u64,
    i: int,
)
    requires
        0 <= i < v.awaiting.len(),
        !v.awaiting[i].abandoned,
        v.awaiting[i].expected_response_name == name,
        forall|j: int|
            0 <= j < i ==> (#[trigger] v.awaiting[j]).abandoned
                || v.awaiting[j].expected_response_name != name,
    ensures
        ({
            let w = response_taken(v, name, params, raw, now);
            &&& w.awaiting == v.awaiting.remove(i)
            &&& w.outbox == v.outbox.push(
                EffectView::Complete { call_id: v.awaiting[i].call_id, result: Ok(params) },
            )
            &&& w.notify == v.notify && w.router == v.router
        }),
{
    lemma_waiting_at(v.awaiting, name, i);
}

/// A response that no call waits for answers the passthrough message with the
/// lowest sequence that waits for one; where none waits it is passed on. Either
/// way those who registered for the message and its object are told.
pub proof fn law_other_responses_are_passed_on(
    v: ReactorView,
    name: Seq<char>,
    params: ParamsView,
    raw: Seq<u8>,
    now: u64,
)
    requires
        forall|j: int|
            0 <= j < v.awaiting.len() ==> (#[trigger] v.awaiting[j]).abandoned
                || v.awaiting[j].expected_response_name != name,
    ensures
        ({
            let w = response_taken(v, name, params, raw, now);
            &&& w.awaiting == v.awaiting
            &&& w.outbox.len() == v.outbox.len() + 1
            &&& w.outbox.last() matches EffectView::Unsolicited {
                interceptors,
                name: n,
                params: p,
                fate,
            } && n == name && p == params && interceptors == matching(
                v.interceptors.entries,
                name,
                param_u32(params, "oid"@),
            ) && if v.notify.len() == 0 {
                fate == FateView::Forward
            } else {
                exists|i: int|
                    #![trigger v.notify[i]]
                    0 <= i < v.notify.len() && (forall|j: int|
                        0 <= j < v.notify.len() ==> v.notify[i].seq <= (#[trigger] v.notify[j]).seq)
                        && w.notify == v.notify.remove(i) && (fate matches FateView::Notified {
                        mcu,
                        notify_id,
                        ..
                    } && mcu == v.notify[i].mcu && notify_id == v.notify[i].notify_id)
            }
        }),
{
    lemma_waiting_at(v.awaiting, name, v.awaiting.len() as int);
    if v.notify.len() > 0 {
        lemma_lowest(v.notify);
        assert(v.notify[lowest(v.notify)].seq <= v.notify[0].seq);
    }
}

proof fn lemma_push_has(s: Seq<AwaitView>, x: AwaitView, c: AwaitView)
    ensures
        s.push(x).contains(c) <==> s.contains(c) || c == x,
{
    if s.contains(c) {
        let i = s.index_of(c);
        assert(s.push(x)[i] == c);
    }
    if c == x {
        assert(s.push(x)[s.len() as int] == c);
    }
    if s.push(x).contains(c) {
        let i = s.push(x).index_of(c);
        if i < s.len() {
            assert(s[i] == c);
        }
    }
}

proof fn lemma_deadlines(s: Seq<AwaitView>, now: u64, c: AwaitView)
    ensures
        expired(s, now).contains(c) <==> s.contains(c) && c.deadline <= now,
        unexpired(s, now).contains(c) <==> s.contains(c) && now < c.deadline,
    decreases s.len(),
{
    if s.len() > 0 {
        let t = s.drop_last();
        lemma_deadlines(t, now, c);
        assert(s =~= t.push(s.last()));
        lemma_push_has(t, s.last(), c);
        lemma_push_has(expired(t, now), s.last(), c);
        lemma_push_has(unexpired(t, now), s.last(), c);
    }
}

proof fn lemma_told(w: Seq<EffectView>, a: Seq<EffectView>, b: Seq<EffectView>, i: int)
    requires
        0 <= i < b.len(),
    ensures
        (w + a + b).contains(b[i]),
        (w + b + a).contains(b[i]),
{
    assert((w + a + b)[w.len() + a.len() + i] == b[i]);
    assert((w + b + a)[w.len() + i] == b[i]);
}

/// At the end of a tick each call whose deadline has come is told so, and waits
/// no longer; while the connection is open the others wait on.
#[verifier::spinoff_prover]
pub proof fn law_overdue_calls_are_told(
    v: ReactorView,
    now: u64,
    c: AwaitView,
    n: PendingKalicoCall,
)
    requires
        v.writing is None,
        v.phase == Phase::Finishing,
        v.state == ReactorState::Active,
        v.awaiting.contains(c),
        v.native.pending.contains(n),
    ensures
        ({
            let w = ticked(v, TickEventView::Go, now);
            &&& w.phase == Phase::Done(TickOutcome::Continue)
            &&& w.awaiting.contains(c) <==> now < c.deadline
            &&& w.native.pending.contains(n) <==> now < n.deadline
            &&& c.deadline <= now ==> w.outbox.contains(
                EffectView::Complete {
                    call_id: c.call_id,
                    result: Err(TransportErrorView::DispatcherTimeout),
                },
            )
            &&& n.deadline <= now ==> w.outbox.contains(
                EffectView::CompleteNative {
                    token: n.token,
                    result: Err(TransportErrorView::Timeout),
                },
            )
        }),
{
    lemma_deadlines(v.awaiting, now, c);
    law_deadlines_part_calls(v.native.pending, now, n);
    let told = crate::host_io::reactor_model::fault_told(v);
    let a = crate::host_io::reactor_model::calls_failed(
        expired(v.awaiting, now),
        TransportErrorView::DispatcherTimeout,
    );
    let b = crate::host_io::reactor_model::natives_failed(
        overdue(v.native.pending, now),
        TransportErrorView::Timeout,
    );
    if c.deadline <= now {
        let i = expired(v.awaiting, now).index_of(c);
        assert(a[i] == (EffectView::Complete {
            call_id: c.call_id,
            result: Err(TransportErrorView::DispatcherTimeout),
        }));
        lemma_told(told.outbox, b, a, i);
    }
    if n.deadline <= now {
        let i = overdue(v.native.pending, now).index_of(n);
        assert(b[i] == (EffectView::CompleteNative {
            token: n.token,
            result: Err(TransportErrorView::Timeout),
        }));
        lemma_told(told.outbox, a, b, i);
    }
}

/// Once the connection is closed, the end of the tick tells each waiting
/// command that it is.
#[verifier::spinoff_prover]
pub proof fn law_closed_is_told(v: ReactorView, now: u64, i: int)
    requires
        v.writing is None,
        v.phase == Phase::Finishing,
        v.state == ReactorState::Closed,
        0 <= i < v.submissions.len(),
    ensures
        ({
            let w = ticked(v, TickEventView::Go, now);
            &&& w.phase == Phase::Done(TickOutcome::Closed)
            &&& w.outbox.contains(
                EffectView::Complete {
                    call_id: v.submissions[i].call_id,
                    result: Err(TransportErrorView::Closed),
                },
            )
            &&& w.submissions.len() == 0 && w.forgets.len() == 0 && w.awaiting.len() == 0
        }),
{
    let x = crate::host_io::reactor_model::overdue_failed(
        crate::host_io::reactor_model::fault_told(v),
        now,
    );
    let e = TransportErrorView::Closed;
    let a = crate::host_io::reactor_model::calls_failed(x.awaiting, e);
    let b = crate::host_io::reactor_model::submissions_failed(x.submissions, e);
    let w = ticked(v, TickEventView::Go, now);
    assert(b[i] == (EffectView::Complete { call_id: v.submissions[i].call_id, result: Err(e) }));
    assert((x.outbox + a + b)[x.outbox.len() + a.len() + i] == b[i]);
    assert(w.outbox[x.outbox.len() + a.len() + i] == b[i]);
}

/// What is read counts as a sign of life, be it damaged; silence does not. A
/// port that gives empty reads for a tenth of a second is taken for lost, and so
/// is one whose reading fails.
#[verifier::spinoff_prover]
pub proof fn law_reading(v: ReactorView, p: PollView, first: u64, now: u64)
    requires
        v.writing is None,
        v.phase == Phase::Polling,
        v.state == ReactorState::Active,
        first <= now,
    ensures
        ({
            let w = ticked(v, TickEventView::Polled(p), now);
            match p {
                PollView::Frames { frames, errors } => {
                    &&& w.state == ReactorState::Active && w.inbound == frames
                    &&& w.phase == Phase::Frames && w.zero_byte_first_seen is None
                    &&& w.last_recv_time == if frames.len() == 0 && errors == 0 {
                        v.last_recv_time
                    } else {
                        now
                    }
                },
                PollView::Timeout => w.state == ReactorState::Active && w.zero_byte_first_seen
                    is None && w.last_recv_time == v.last_recv_time && w.phase == Phase::Draining,
                PollView::PhantomZero => {
                    &&& w.last_recv_time == v.last_recv_time && w.phase == Phase::Draining
                    &&& v.zero_byte_first_seen is None ==> w.zero_byte_first_seen == Some(now)
                        && w.state == ReactorState::Active
                    &&& v.zero_byte_first_seen == Some(first) ==> w.zero_byte_first_seen == Some(
                        first,
                    ) && (w.state == ReactorState::Closed <==> now - first >= 100_000_000)
                    &&& w.state == ReactorState::Closed ==> (w.host_fault matches Some(f)
                        && f.fault_code == v.fault_codes.disconnect)
                },
                PollView::Failed => w.state == ReactorState::Closed && w.phase == Phase::Draining
                    && (w.host_fault matches Some(f) && f.fault_code == v.fault_codes.disconnect),
            }
        }),
{
}

/// Four requests are taken per tick at most.
pub proof fn law_requests_per_tick(k: u8)
    requires
        k < 4,
    ensures
        k < 3 ==> after_command(k) == Phase::Commands((k + 1) as u8),
        k == 3 ==> after_command(k) == Phase::Polling,
{
}

proof fn lemma_submission_started(v: ReactorView, s: SubmissionView)
    requires
        v.send_seq < u64::MAX,
    ensures
        ({
            let w = submission_started(v, s);
            &&& v.window.len() < 12 ==> w.send_seq == v.send_seq + 1 && w.submissions
                == v.submissions && w.outbox == v.outbox && (w.writing matches Some(
                GoalView::Submission { call_id, seq, expected_response_name, deadline, frame },
            ) && call_id == s.call_id && seq == v.send_seq && expected_response_name
                == s.expected_response_name && deadline == s.deadline && frame == framed(
                s.payload,
                (v.send_seq % 16) as u8,
            ))
            &&& v.window.len() >= 12 ==> w.writing == v.writing && w.send_seq == v.send_seq
            &&& v.window.len() >= 12 && v.submissions.len() < 256 ==> w.submissions
                == v.submissions.push(s) && w.outbox == v.outbox
            &&& v.window.len() >= 12 && v.submissions.len() >= 256 ==> w.submissions
                == v.submissions && w.outbox == v.outbox.push(
                EffectView::Complete {
                    call_id: s.call_id,
                    result: Err(TransportErrorView::Backpressure),
                },
            )
        }),
{
}

/// While twelve frames are unacknowledged nothing more is sent: a command waits,
/// and where 256 of them wait already its caller is told so. Otherwise it goes
/// out at once under the next sequence.
#[verifier::spinoff_prover]
pub proof fn law_commands_wait_for_room(v: ReactorView, k: u8, s: SubmissionView)
    requires
        v.writing is None,
        v.phase == Phase::Commands(k),
        k < 4,
        v.send_seq < u64::MAX,
    ensures
        ({
            let w = ticked(
                v,
                TickEventView::Command(
                    CommandView::SubmitTyped {
                        call_id: s.call_id,
                        payload: s.payload,
                        expected_response_name: s.expected_response_name,
                        deadline: s.deadline,
                    },
                ),
                0,
            );
            &&& v.window.len() < 12 ==> w.send_seq == v.send_seq + 1 && w.submissions
                == v.submissions && w.outbox == v.outbox && (w.writing matches Some(
                GoalView::Submission { call_id, seq, expected_response_name, deadline, frame },
            ) && call_id == s.call_id && seq == v.send_seq && expected_response_name
                == s.expected_response_name && deadline == s.deadline && frame == framed(
                s.payload,
                (v.send_seq % 16) as u8,
            ))
            &&& v.window.len() >= 12 ==> w.writing is None && w.send_seq == v.send_seq
            &&& v.window.len() >= 12 && v.submissions.len() < 256 ==> w.submissions
                == v.submissions.push(s) && w.outbox == v.outbox
            &&& v.window.len() >= 12 && v.submissions.len() >= 256 ==> w.submissions
                == v.submissions && w.outbox == v.outbox.push(
                EffectView::Complete {
                    call_id: s.call_id,
                    result: Err(TransportErrorView::Backpressure),
                },
            )
        }),
{
    let c = CommandView::SubmitTyped {
        call_id: s.call_id,
        payload: s.payload,
        expected_response_name: s.expected_response_name,
        deadline: s.deadline,
    };
    let x = ReactorView { phase: after_command(k), ..v };
    assert(ticked(v, TickEventView::Command(c), 0) == command_taken(x, c));
    assert(command_taken(x, c) == submission_started(x, s));
    lemma_submission_started(x, s);
}

/// A command that was written waits for its response, and its frame for an
/// acknowledgement, from then on.
#[verifier::spinoff_prover]
pub proof fn law_written_command_waits(
    v: ReactorView,
    call_id: u64,
    seq: u64,
    name: Seq<char>,
    deadline: u64,
    frame: Seq<u8>,
    now: u64,
)
    requires
        v.writing == Some(
            GoalView::Submission { call_id, seq, expected_response_name: name, deadline, frame },
        ),
        v.awaiting.len() < 1024,
    ensures
        ({
            let w = ticked(v, TickEventView::Written(Ok(())), now);
            &&& w.writing is None && w.outbox == v.outbox
            &&& w.window.len() == v.window.len() + 1
            &&& w.window.last() == (UnackedView {
                seq,
                frame_bytes: frame,
                sent_at: now,
                retry_count: 0,
            })
            &&& w.awaiting.len() == v.awaiting.len() + 1
            &&& w.awaiting.last() == (AwaitView {
                call_id,
                seq,
                expected_response_name: name,
                submitted_at: now,
                deadline,
                abandoned: false,
            })
            &&& !v.rtt_sample_armed ==> w.rtt_sample_armed && w.rtt_sample_seq == seq
            &&& v.rtt_sample_armed ==> w.rtt_sample_seq == v.rtt_sample_seq
        }),
{
}

/// The bytes that an acknowledgement gives back to the controller's buffer are
/// those of the message that was sent.
pub proof fn law_ack_gives_back_what_was_sent(seq: u64, bytes: Seq<u8>, now: u64)
    requires
        bytes.len() <= 59,
    ensures
        payload_len(sent_frame(seq, framed(bytes, wire_seq(seq)), now)) == bytes.len(),
        bytes.len() > 0 ==> raw_payload(framed(bytes, wire_seq(seq))) == bytes,
{
    law_frame_layout(bytes, wire_seq(seq));
}

proof fn lemma_first_from(s: Seq<UnackedView>, seq: u64, i: int)
    requires
        0 <= i < s.len(),
        s[i].seq >= seq,
        forall|j: int| 0 <= j < i ==> (#[trigger] s[j]).seq < seq,
    ensures
        first_from(s, seq) == Some(i),
    decreases i,
{
    if i > 0 {
        let t = s.skip(1);
        assert(s[0].seq < seq);
        assert forall|j: int| 0 <= j < i - 1 implies (#[trigger] t[j]).seq < seq by {
            assert(t[j] == s[j + 1]);
        }
        lemma_first_from(t, seq, i - 1);
    }
}

/// The round-trip time is measured from the sending of the frame under
/// measurement to the acknowledgement that first covers it, once; sending frames
/// again ends the measurement.
pub proof fn law_round_trip_is_measured(v: ReactorView, rseq: u64, now: u64, i: int)
    requires
        forall|a: int, b: int| 0 <= a < b < v.window.len() ==> v.window[a].seq < v.window[b].seq,
        0 <= i < v.window.len(),
        v.rtt_sample_armed,
        v.window[i].seq == v.rtt_sample_seq,
        v.window[i].sent_at <= now,
    ensures
        ({
            let w = received_through(v, rseq, now);
            &&& v.window[i].seq < rseq ==> !w.rtt_sample_armed && w.rtt == rtt_updated(
                v.rtt,
                (now - v.window[i].sent_at) as u64,
            )
            &&& v.window[i].seq >= rseq ==> w.rtt_sample_armed && w.rtt == v.rtt && w.rtt_sample_seq
                == v.rtt_sample_seq
        }),
        !retransmitted(v, RetransmitTrigger::TimeoutDriven, now).0.rtt_sample_armed,
        !retransmitted(v, RetransmitTrigger::NakDriven, now).0.rtt_sample_armed,
{
    let n = acked_count(v.window, rseq) as int;
    lemma_acked_count(v.window, rseq);
    law_acked_prefix(v.window, rseq, i);
    let popped = v.window.take(n);
    if v.window[i].seq < rseq {
        assert(popped[i] == v.window[i]);
        assert forall|j: int| 0 <= j < i implies (#[trigger] popped[j]).seq < v.rtt_sample_seq by {
            assert(popped[j] == v.window[j]);
        }
        lemma_first_from(popped, v.rtt_sample_seq, i);
    } else {
        lemma_none_from(popped, v.rtt_sample_seq);
    }
}

proof fn lemma_none_from(s: Seq<UnackedView>, seq: u64)
    requires
        forall|j: int| 0 <= j < s.len() ==> (#[trigger] s[j]).seq < seq,
    ensures
        first_from(s, seq) is None,
    decreases s.len(),
{
    if s.len() > 0 {
        let t = s.skip(1);
        assert(s[0].seq < seq);
        assert forall|j: int| 0 <= j < t.len() implies (#[trigger] t[j]).seq < seq by {
            assert(t[j] == s[j + 1]);
        }
        lemma_none_from(t, seq);
    }
}

/// A frame that is sent again stays what it was, and is counted.
pub proof fn law_resent_frames_are_counted(
    v: ReactorView,
    trigger: RetransmitTrigger,
    now: u64,
    i: int,
)
    requires
        0 <= i < v.window.len(),
        now < v.last_recv_time + 120_000_000_000,
        v.window[i].retry_count < u32::MAX,
    ensures
        ({
            let (w, failed) = retransmitted(v, trigger, now);
            &&& !failed && w.state == v.state
            &&& w.window.len() == v.window.len()
            &&& w.window[i] == (UnackedView {
                retry_count: (v.window[i].retry_count + 1) as u32,
                ..v.window[i]
            })
            &&& w.retransmit_seq == v.send_seq
        }),
{
    lemma_not_silent(v.window);
}

proof fn lemma_not_silent(w: Seq<UnackedView>)
    ensures
        crate::host_io::reactor_model::first_exhausted(w, false) is None,
    decreases w.len(),
{
    if w.len() > 0 {
        lemma_not_silent(w.skip(1));
    }
}

/// What stays and what is told whatever write has failed: the connection is
/// closed, which is a fault, and nothing joins those who wait.
pub open spec fn closed_by_write(v: ReactorView, w: ReactorView) -> bool {
    &&& w.state == ReactorState::Closed && w.writing is None
    &&& v.host_fault is None ==> w.host_fault == Some(
        FaultEvent {
            fault_code: v.fault_codes.disconnect,
            fault_detail: 0,
            segment_id: 0,
            synthesized: false,
        },
    )
    &&& v.host_fault is Some ==> w.host_fault == v.host_fault
    &&& w.window == v.window && w.awaiting == v.awaiting && w.notify == v.notify
}

/// A command that could not be written is told so, and the connection is closed.
/// What waits to be sent is not drained on.
#[verifier::spinoff_prover]
pub proof fn law_unwritten_command_is_told(v: ReactorView, g: GoalView, text: Seq<char>, now: u64)
    requires
        v.writing == Some(g),
        g is Submission || g is FireAndForget,
    ensures
        ({
            let w = written(v, Err(text), now);
            &&& ticked(v, TickEventView::Written(Err(text)), now) == w
            &&& closed_by_write(v, w)
            &&& g matches GoalView::Submission { call_id, .. } ==> w.outbox == v.outbox.push(
                EffectView::Complete { call_id, result: Err(TransportErrorView::Io(text)) },
            )
            &&& g is FireAndForget ==> w.outbox == v.outbox
            &&& v.phase == Phase::Draining ==> w.phase == Phase::Promoting
            &&& v.phase != Phase::Draining ==> w.phase == v.phase
        }),
{
}

/// A passthrough message that could not be written closes the connection, and no
/// other is tried.
#[verifier::spinoff_prover]
pub proof fn law_unwritten_passthrough(v: ReactorView, g: GoalView, text: Seq<char>, now: u64)
    requires
        v.writing == Some(g),
        g is Passthrough,
    ensures
        ({
            let w = written(v, Err(text), now);
            &&& ticked(v, TickEventView::Written(Err(text)), now) == w
            &&& closed_by_write(v, w)
            &&& w.outbox == v.outbox && w.phase == Phase::Rto
        }),
{
}

/// Frames that could not be sent again close the connection: in the course of a
/// timeout the tick goes on, and in the course of received frames the rest of
/// them is dropped.
#[verifier::spinoff_prover]
pub proof fn law_unwritten_retransmission(v: ReactorView, g: GoalView, text: Seq<char>, now: u64)
    requires
        v.writing == Some(g),
        g is Retransmit,
    ensures
        ({
            let w = written(v, Err(text), now);
            &&& ticked(v, TickEventView::Written(Err(text)), now) == w
            &&& closed_by_write(v, w)
            &&& w.outbox == v.outbox
            &&& v.phase == Phase::Rto ==> w.phase == Phase::Finishing && w.inbound == v.inbound
            &&& v.phase != Phase::Rto ==> w.phase == Phase::Draining && w.inbound.len() == 0
        }),
{
}

/// Whoever asked for the native handshake is told where the request could not be
/// written.
#[verifier::spinoff_prover]
pub proof fn law_unwritten_identify_is_told(
    v: ReactorView,
    g: GoalView,
    token: u64,
    text: Seq<char>,
    now: u64,
)
    requires
        v.writing == Some(g),
        g is Identify,
        v.native.identify_pending == Some(token),
    ensures
        ({
            let w = written(v, Err(text), now);
            &&& ticked(v, TickEventView::Written(Err(text)), now) == w
            &&& closed_by_write(v, w)
            &&& w.native.identify_pending is None
            &&& w.outbox == v.outbox.push(
                EffectView::CompleteIdentify { token, result: Err(TransportErrorView::Io(text)) },
            )
        }),
{
}

/// A native call that could not be written is told so, and waits no longer.
#[verifier::spinoff_prover]
pub proof fn law_unwritten_call_is_told(v: ReactorView, g: GoalView, text: Seq<char>, now: u64, i: int)
    requires
        v.writing == Some(g),
        0 <= i < v.native.pending.len(),
        g matches GoalView::Call { correlation_id, .. } && v.native.pending[i].correlation_id
            == correlation_id,
        calls_apart(v.native.pending),
    ensures
        ({
            let w = ticked(v, TickEventView::Written(Err(text)), now);
            &&& w.native.pending == v.native.pending.remove(i)
            &&& w.outbox == v.outbox.push(
                EffectView::CompleteNative {
                    token: v.native.pending[i].token,
                    result: Err(TransportErrorView::Io(text)),
                },
            )
        }),
{
    let s = v.native.pending;
    lemma_find_call(s, s[i].correlation_id);
    let k = find_call(s, s[i].correlation_id)->0;
    if k != i {
        assert(s[k].correlation_id == s[i].correlation_id);
    }
}

/// A passthrough message that was written waits for its acknowledgement, and for
/// a response under its sequence if it asks for one.
#[verifier::spinoff_prover]
pub proof fn law_written_passthrough_waits(
    v: ReactorView,
    seq: u64,
    frame: Seq<u8>,
    mcu: McuHandle,
    notify_id: NotifyId,
    now: u64,
)
    requires
        v.writing == Some(GoalView::Passthrough { seq, frame, mcu, notify_id }),
    ensures
        ({
            let w = ticked(v, TickEventView::Written(Ok(())), now);
            &&& w.window == v.window.push(
                UnackedView { seq, frame_bytes: frame, sent_at: now, retry_count: 0 },
            )
            &&& notify_id.0 == 0 ==> w.notify == v.notify
            &&& notify_id.0 != 0 ==> w.notify.len() > 0 && w.notify.last() == (NotifyEntry {
                seq,
                mcu,
                notify_id,
            })
            &&& w.awaiting == v.awaiting && w.phase == v.phase && w.writing is None
            &&& !v.rtt_sample_armed ==> w.rtt_sample_armed && w.rtt_sample_seq == seq
        }),
{
}

/// Beyond 1024 waiting calls a command that was written is answered at once: no
/// response is waited for, though its frame still is acknowledged.
#[verifier::spinoff_prover]
pub proof fn law_too_many_waiting_calls(v: ReactorView, g: GoalView, now: u64)
    requires
        v.writing == Some(g),
        g is Submission,
        v.awaiting.len() >= 1024,
    ensures
        ({
            let w = ticked(v, TickEventView::Written(Ok(())), now);
            &&& w.awaiting == v.awaiting && w.window.len() == v.window.len() + 1
            &&& w.outbox.len() == v.outbox.len() + 1
            &&& w.outbox.last() matches EffectView::Complete { call_id, result } && (g matches
                GoalView::Submission { call_id: id, .. } && call_id == id) && result is Err
        }),
{
}

/// A tick takes requests first, then reads.
#[verifier::spinoff_prover]
pub proof fn law_requests_then_reading(v: ReactorView, now: u64, k: u8)
    requires
        v.writing is None,
        v.phase == Phase::Commands(k),
    ensures
        ticked(v, TickEventView::NoCommand, now) == (ReactorView { phase: Phase::Polling, ..v }),
        ticked(v, TickEventView::CommandsClosed, now) == (ReactorView {
            phase: Phase::Polling,
            state: ReactorState::Closed,
            ..v
        }),
{
}

/// Then come the frames that were read, what waits to be sent, the passthrough
/// queues, the timeout and the end; then the next tick begins with requests.
#[verifier::spinoff_prover]
pub proof fn law_phases_in_order(v: ReactorView, now: u64)
    requires
        v.writing is None,
    ensures
        ticked(v, TickEventView::Go, now) == gone_on(v, now),
        v.phase == Phase::Frames ==> gone_on(v, now) == frame_step(v, now),
        v.phase == Phase::Draining ==> gone_on(v, now) == drain_step(v),
        v.phase == Phase::Promoting ==> gone_on(v, now) == promote_step(v),
        v.phase == Phase::Passthrough ==> gone_on(v, now) == passthrough_step(v, now),
        v.phase == Phase::Rto ==> gone_on(v, now) == rto_step(v, now),
        v.phase == Phase::Finishing ==> gone_on(v, now) == finish_step(v, now),
        v.phase == Phase::Done(TickOutcome::Continue) ==> gone_on(v, now) == (ReactorView {
            phase: Phase::Commands(0),
            ..v
        }),
        v.phase == Phase::Done(TickOutcome::Closed) ==> gone_on(v, now) == v,
{
}

/// Each of these phases ends in the next: with no frame left, with nothing left
/// that waits or no room, without passthrough queues or room, and without a
/// timeout.
#[verifier::spinoff_prover]
pub proof fn law_phase_ends_in_the_next(v: ReactorView, now: u64)
    ensures
        v.inbound.len() == 0 ==> frame_step(v, now).phase == Phase::Draining,
        v.order.len() == 0 || v.window.len() >= 12 ==> drain_step(v).phase == Phase::Promoting,
        v.router is Some && v.mcu is Some ==> promote_step(v).phase == Phase::Passthrough,
        v.router is None || v.mcu is None ==> promote_step(v).phase == Phase::Rto,
        v.router is None || v.mcu is None || v.window.len() >= 12 ==> passthrough_step(v, now).phase
            == Phase::Rto,
        v.window.len() == 0 ==> rto_step(v, now).phase == Phase::Finishing,
{
}

/// The fault of the host is told once, at the end of the tick.
#[verifier::spinoff_prover]
pub proof fn law_host_fault_is_told(v: ReactorView, f: FaultEvent, now: u64)
    requires
        v.writing is None,
        v.phase == Phase::Finishing,
        v.host_fault == Some(f),
    ensures
        ({
            let w = ticked(v, TickEventView::Go, now);
            &&& w.host_fault is None
            &&& w.outbox.len() > v.outbox.len()
            &&& w.outbox[v.outbox.len() as int] == EffectView::HostFault(f)
        }),
{
}

} // verus!
