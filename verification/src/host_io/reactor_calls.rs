//! Every call is answered exactly once.

use crate::host_io::encode::line_bytes;
use crate::host_io::reactor_laws::lemma_received_keeps;
use crate::host_io::reactor_model::{
    after_command, calls_failed, command_taken, emit, fault_told, finish_step, frame_taken, gone_on,
    native_frame_taken, natives_failed, overdue_failed, passthrough_answered, received_through,
    response_taken, submission_started, submissions_failed, ticked, written, ReactorView, WINDOW,
};
use crate::host_io::reactor_types::{
    CommandView, EffectView, FrameView, GoalView, PendingOutboundKind, Phase, ReactorState,
    SubmissionView, TickEventView,
};
use crate::host_io::window::{
    abandoned, expired, first_call, first_waiting, law_oldest_first, unexpired, AwaitView,
};
use crate::host_io::wire::absolute;
use crate::transport::TransportErrorView;
use vstd::prelude::*;

verus! {

/// How many elements meet a condition.
pub open spec fn tally<A>(s: Seq<A>, f: spec_fn(A) -> bool) -> nat
    decreases s.len(),
{
    if s.len() == 0 {
        0
    } else {
        tally(s.drop_last(), f) + if f(s.last()) {
            1nat
        } else {
            0nat
        }
    }
}

proof fn lemma_tally_push<A>(s: Seq<A>, a: A, f: spec_fn(A) -> bool)
    ensures
        tally(s.push(a), f) == tally(s, f) + if f(a) {
            1nat
        } else {
            0nat
        },
{
    assert(s.push(a).drop_last() =~= s);
}

proof fn lemma_tally_concat<A>(s: Seq<A>, t: Seq<A>, f: spec_fn(A) -> bool)
    ensures
        tally(s + t, f) == tally(s, f) + tally(t, f),
    decreases t.len(),
{
    if t.len() == 0 {
        assert(s + t =~= s);
    } else {
        lemma_tally_concat(s, t.drop_last(), f);
        assert((s + t).drop_last() =~= s + t.drop_last());
        assert((s + t).last() == t.last());
    }
}

proof fn lemma_tally_remove<A>(s: Seq<A>, i: int, f: spec_fn(A) -> bool)
    requires
        0 <= i < s.len(),
    ensures
        tally(s, f) == tally(s.remove(i), f) + if f(s[i]) {
            1nat
        } else {
            0nat
        },
    decreases s.len(),
{
    if i == s.len() - 1 {
        assert(s.remove(i) =~= s.drop_last());
    } else {
        lemma_tally_remove(s.drop_last(), i, f);
        assert(s.remove(i).drop_last() =~= s.drop_last().remove(i));
        assert(s.remove(i).last() == s.last());
    }
}

proof fn lemma_tally_first<A>(s: Seq<A>, f: spec_fn(A) -> bool)
    requires
        s.len() > 0,
    ensures
        tally(s, f) == tally(s.skip(1), f) + if f(s[0]) {
            1nat
        } else {
            0nat
        },
{
    lemma_tally_remove(s, 0, f);
    assert(s.remove(0) =~= s.skip(1));
}

/// Whether a waiting call is of a caller.
pub open spec fn of_call(id: u64) -> spec_fn(AwaitView) -> bool {
    |e: AwaitView| e.call_id == id
}

/// Whether a waiting command is of a caller.
pub open spec fn of_submission(id: u64) -> spec_fn(SubmissionView) -> bool {
    |e: SubmissionView| e.call_id == id
}

/// Whether an effect tells a caller what its call gave.
pub open spec fn tells(id: u64) -> spec_fn(EffectView) -> bool {
    |e: EffectView| e matches EffectView::Complete { call_id, .. } && call_id == id
}

/// How often a caller is known: by a call that waits for its response, by a
/// command that waits for room or is being written, and by an answer.
pub open spec fn held(v: ReactorView, id: u64) -> nat {
    tally(v.awaiting, of_call(id)) + tally(v.submissions, of_submission(id)) + (match v.writing {
        Some(GoalView::Submission { call_id, .. }) => if call_id == id {
            1nat
        } else {
            0nat
        },
        _ => 0nat,
    }) + tally(v.outbox, tells(id))
}

/// How often an event brings a call of a caller.
pub open spec fn brought(v: ReactorView, e: TickEventView, id: u64) -> nat {
    if v.writing is None && v.phase is Commands {
        match e {
            TickEventView::Command(CommandView::Submit { call_id, .. }) => if call_id == id {
                1
            } else {
                0
            },
            TickEventView::Command(CommandView::SubmitTyped { call_id, .. }) => if call_id == id {
                1
            } else {
                0
            },
            _ => 0,
        }
    } else {
        0
    }
}

proof fn lemma_parts(s: Seq<AwaitView>, now: u64, id: u64)
    ensures
        tally(s, of_call(id)) == tally(expired(s, now), of_call(id)) + tally(
            unexpired(s, now),
            of_call(id),
        ),
    decreases s.len(),
{
    if s.len() > 0 {
        lemma_parts(s.drop_last(), now, id);
        if now >= s.last().deadline {
            lemma_tally_push(expired(s.drop_last(), now), s.last(), of_call(id));
        } else {
            lemma_tally_push(unexpired(s.drop_last(), now), s.last(), of_call(id));
        }
    }
}

proof fn lemma_calls_told(s: Seq<AwaitView>, e: TransportErrorView, id: u64)
    ensures
        tally(calls_failed(s, e), tells(id)) == tally(s, of_call(id)),
    decreases s.len(),
{
    if s.len() > 0 {
        lemma_calls_told(s.drop_last(), e, id);
        assert(calls_failed(s, e).drop_last() =~= calls_failed(s.drop_last(), e));
    }
}

proof fn lemma_submissions_told(s: Seq<SubmissionView>, e: TransportErrorView, id: u64)
    ensures
        tally(submissions_failed(s, e), tells(id)) == tally(s, of_submission(id)),
    decreases s.len(),
{
    if s.len() > 0 {
        lemma_submissions_told(s.drop_last(), e, id);
        assert(submissions_failed(s, e).drop_last() =~= submissions_failed(s.drop_last(), e));
    }
}

proof fn lemma_natives_silent(
    s: Seq<crate::host_io::kalico_native::PendingKalicoCall>,
    e: TransportErrorView,
    id: u64,
)
    ensures
        tally(natives_failed(s, e), tells(id)) == 0,
    decreases s.len(),
{
    if s.len() > 0 {
        lemma_natives_silent(s.drop_last(), e, id);
        assert(natives_failed(s, e).drop_last() =~= natives_failed(s.drop_last(), e));
    }
}

proof fn lemma_first_call(s: Seq<AwaitView>, call_id: u64)
    ensures
        match first_call(s, call_id) {
            Some(i) => 0 <= i < s.len(),
            None => true,
        },
    decreases s.len(),
{
    if s.len() > 0 {
        lemma_first_call(s.skip(1), call_id);
    }
}

proof fn lemma_tally_update(s: Seq<AwaitView>, i: int, a: AwaitView, id: u64)
    requires
        0 <= i < s.len(),
        a.call_id == s[i].call_id,
    ensures
        tally(s.update(i, a), of_call(id)) == tally(s, of_call(id)),
{
    let t = s.update(i, a);
    lemma_tally_remove(s, i, of_call(id));
    lemma_tally_remove(t, i, of_call(id));
    assert(t.remove(i) =~= s.remove(i));
}

proof fn lemma_emit(v: ReactorView, e: EffectView, id: u64)
    ensures
        held(emit(v, e), id) == held(v, id) + if tells(id)(e) {
            1nat
        } else {
            0nat
        },
{
    lemma_tally_push(v.outbox, e, tells(id));
}

proof fn lemma_submission_held(v: ReactorView, s: SubmissionView, id: u64)
    requires
        v.writing is None,
    ensures
        held(submission_started(v, s), id) == held(v, id) + if s.call_id == id {
            1nat
        } else {
            0nat
        },
{
    lemma_tally_push(v.submissions, s, of_submission(id));
    lemma_emit(
        v,
        EffectView::Complete {
            call_id: s.call_id,
            result: Err(TransportErrorView::Backpressure),
        },
        id,
    );
}

proof fn lemma_command_held(v: ReactorView, c: CommandView, id: u64)
    requires
        v.writing is None,
    ensures
        held(command_taken(v, c), id) == held(v, id) + match c {
            CommandView::Submit { call_id, .. } => if call_id == id {
                1nat
            } else {
                0nat
            },
            CommandView::SubmitTyped { call_id, .. } => if call_id == id {
                1nat
            } else {
                0nat
            },
            _ => 0nat,
        },
{
    match c {
        CommandView::Submit { call_id, cmd, expected_response_name, deadline } => {
            match line_bytes(v.parser, cmd) {
                Ok(payload) => lemma_submission_held(
                    v,
                    SubmissionView { call_id, payload, expected_response_name, deadline },
                    id,
                ),
                Err(e) => lemma_emit(
                    v,
                    EffectView::Complete {
                        call_id,
                        result: Err(
                            TransportErrorView::Parse(
                                crate::host_io::parse_error::error_text(e),
                            ),
                        ),
                    },
                    id,
                ),
            }
        },
        CommandView::SubmitTyped { call_id, payload, expected_response_name, deadline } => {
            lemma_submission_held(
                v,
                SubmissionView { call_id, payload, expected_response_name, deadline },
                id,
            )
        },
        CommandView::Abandon(call_id) => {
            lemma_first_call(v.awaiting, call_id);
            match first_call(v.awaiting, call_id) {
                Some(i) => lemma_tally_update(
                    v.awaiting,
                    i,
                    AwaitView { abandoned: true, ..v.awaiting[i] },
                    id,
                ),
                None => {},
            }
        },
        _ => {
            let w = command_taken(v, c);
            if w.outbox.len() > v.outbox.len() {
                lemma_tally_push(v.outbox, w.outbox.last(), tells(id));
                assert(w.outbox =~= v.outbox.push(w.outbox.last()));
            }
        },
    }
}

proof fn lemma_written_held(v: ReactorView, r: Result<(), Seq<char>>, now: u64, id: u64)
    requires
        v.writing is Some,
    ensures
        held(written(v, r, now), id) == held(v, id),
{
    let x = written(v, r, now);
    if x.outbox.len() > v.outbox.len() {
        assert(x.outbox =~= v.outbox.push(x.outbox.last()));
        lemma_tally_push(v.outbox, x.outbox.last(), tells(id));
    }
    if x.awaiting.len() > v.awaiting.len() {
        assert(x.awaiting =~= v.awaiting.push(x.awaiting.last()));
        lemma_tally_push(v.awaiting, x.awaiting.last(), of_call(id));
    }
}

proof fn lemma_response_held(
    v: ReactorView,
    name: Seq<char>,
    params: crate::transport::ParamsView,
    raw: Seq<u8>,
    now: u64,
    id: u64,
)
    ensures
        held(response_taken(v, name, params, raw, now), id) == held(v, id),
{
    match first_waiting(v.awaiting, name) {
        Some(i) => {
            law_oldest_first(v.awaiting, name);
            lemma_tally_remove(v.awaiting, i, of_call(id));
            lemma_emit(
                ReactorView { awaiting: v.awaiting.remove(i), ..v },
                EffectView::Complete { call_id: v.awaiting[i].call_id, result: Ok(params) },
                id,
            );
        },
        None => {
            let (w, fate) = passthrough_answered(v, raw, now);
            let x = response_taken(v, name, params, raw, now);
            assert(w.awaiting == v.awaiting && w.submissions == v.submissions && w.outbox
                == v.outbox && w.writing == v.writing);
            lemma_tally_push(w.outbox, x.outbox.last(), tells(id));
        },
    }
}

proof fn lemma_frame_held(v: ReactorView, b: Seq<u8>, now: u64, id: u64)
    requires
        v.writing is None,
    ensures
        held(frame_taken(v, b, now), id) == held(v, id),
{
    let rseq = absolute(v.receive_seq, b[1] & 0x0F) as u64;
    lemma_received_keeps(v, rseq, now);
    if b.len() > 5 {
        let w = if rseq != v.receive_seq {
            received_through(v, rseq, now)
        } else {
            v
        };
        assert(held(w, id) == held(v, id));
        match crate::host_io::decode::frame_decoded(v.parser, b) {
            Err(_) => {},
            Ok(crate::host_io::decode::DecodedView::Response { name, params }) => {
                lemma_response_held(
                    w,
                    name,
                    params,
                    crate::host_io::reactor_model::raw_payload(b),
                    now,
                    id,
                )
            },
            Ok(crate::host_io::decode::DecodedView::Output { name, params }) => {
                lemma_emit(
                    w,
                    EffectView::Event(crate::host_io::runtime_events::lifted(name, params)),
                    id,
                )
            },
        }
    }
}

proof fn lemma_native_held(
    v: ReactorView,
    f: crate::host_io::kalico_native::NativeFrameView,
    id: u64,
)
    ensures
        held(native_frame_taken(v, f), id) == held(v, id),
{
    let x = native_frame_taken(v, f);
    if x.outbox.len() > v.outbox.len() {
        assert(x.outbox =~= v.outbox.push(x.outbox.last()));
        lemma_tally_push(v.outbox, x.outbox.last(), tells(id));
    }
}

proof fn lemma_finish_held(v: ReactorView, now: u64, id: u64)
    requires
        v.writing is None,
    ensures
        held(finish_step(v, now), id) == held(v, id),
{
    let f = fault_told(v);
    match v.host_fault {
        Some(h) => lemma_emit(
            ReactorView { host_fault: None, ..v },
            EffectView::HostFault(h),
            id,
        ),
        None => {},
    }
    assert(held(f, id) == held(v, id));
    let w = overdue_failed(f, now);
    let late = calls_failed(expired(f.awaiting, now), TransportErrorView::DispatcherTimeout);
    let lost = natives_failed(
        crate::host_io::kalico_native::overdue(f.native.pending, now),
        TransportErrorView::Timeout,
    );
    lemma_parts(f.awaiting, now, id);
    lemma_calls_told(expired(f.awaiting, now), TransportErrorView::DispatcherTimeout, id);
    lemma_natives_silent(
        crate::host_io::kalico_native::overdue(f.native.pending, now),
        TransportErrorView::Timeout,
        id,
    );
    lemma_tally_concat(f.outbox, late, tells(id));
    lemma_tally_concat(f.outbox + late, lost, tells(id));
    assert(held(w, id) == held(f, id));
    if w.state == ReactorState::Closed {
        let closed = TransportErrorView::Closed;
        let a = calls_failed(w.awaiting, closed);
        let b = submissions_failed(w.submissions, closed);
        let c = natives_failed(w.native.pending, closed);
        let d = match w.native.identify_pending {
            Some(token) => seq![EffectView::CompleteIdentify { token, result: Err(closed) }],
            None => Seq::empty(),
        };
        lemma_calls_told(w.awaiting, closed, id);
        lemma_submissions_told(w.submissions, closed, id);
        lemma_natives_silent(w.native.pending, closed, id);
        lemma_tally_concat(w.outbox, a, tells(id));
        lemma_tally_concat(w.outbox + a, b, tells(id));
        lemma_tally_concat(w.outbox + a + b, c, tells(id));
        lemma_tally_concat(w.outbox + a + b + c, d, tells(id));
        if d.len() > 0 {
            assert(d =~= Seq::<EffectView>::empty().push(d[0]));
            lemma_tally_push(Seq::<EffectView>::empty(), d[0], tells(id));
        }
    }
}

proof fn lemma_go_held(v: ReactorView, now: u64, id: u64)
    requires
        v.writing is None,
    ensures
        held(gone_on(v, now), id) == held(v, id),
{
    match v.phase {
        Phase::Frames => {
            if v.inbound.len() > 0 {
                let w = ReactorView { inbound: v.inbound.skip(1), ..v };
                match v.inbound[0] {
                    FrameView::Klipper(b) => lemma_frame_held(w, b, now, id),
                    FrameView::Native(f) => lemma_native_held(w, f, id),
                }
            }
        },
        Phase::Draining => {
            if v.window.len() < WINDOW && v.order.len() > 0 && v.order[0]
                == PendingOutboundKind::Submission && v.submissions.len() > 0 {
                let w = ReactorView {
                    order: v.order.skip(1),
                    submissions: v.submissions.skip(1),
                    ..v
                };
                lemma_tally_first(v.submissions, of_submission(id));
                lemma_submission_held(w, v.submissions[0], id);
            }
        },
        Phase::Finishing => lemma_finish_held(v, now, id),
        _ => {},
    }
}

/// No call is lost and none is answered twice: whatever happens, a caller
/// stays known as often as it has made calls, each time by a call or a command
/// that waits, or by an answer.
pub proof fn law_every_call_answered_once(v: ReactorView, e: TickEventView, now: u64, id: u64)
    ensures
        held(ticked(v, e, now), id) == held(v, id) + brought(v, e, id),
{
    if v.writing is Some {
        match e {
            TickEventView::Written(r) => lemma_written_held(v, r, now, id),
            _ => {},
        }
    } else {
        match (v.phase, e) {
            (Phase::Commands(k), TickEventView::Command(c)) => lemma_command_held(
                ReactorView { phase: after_command(k), ..v },
                c,
                id,
            ),
            (Phase::Polling, TickEventView::Polled(p)) => {},
            (_, TickEventView::Go) => lemma_go_held(v, now, id),
            _ => {},
        }
    }
}

/// Once the connection is closed, nobody is left waiting: every caller that is
/// known is known by its answers alone.
pub proof fn law_closed_leaves_nobody_waiting(v: ReactorView, now: u64, id: u64)
    requires
        v.writing is None,
        v.phase == Phase::Finishing,
        v.state == ReactorState::Closed,
    ensures
        ({
            let w = ticked(v, TickEventView::Go, now);
            &&& tally(w.outbox, tells(id)) == held(v, id)
            &&& w.native.pending.len() == 0
            &&& w.native.identify_pending is None
            &&& w.window.len() == 0
            &&& w.order.len() == 0
        }),
{
    lemma_finish_held(v, now, id);
}

} // verus!
