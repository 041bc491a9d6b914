//! What becomes of messages that wait for room in the window.

use crate::host_io::interceptor::{law_numbers_stand_once, numbered, InterceptorId};
use crate::host_io::reactor_laws::{kinds, lemma_kinds_push, order_ok};
use crate::host_io::reactor_model::{
    drain_step, forget_started, outgoing, sent_frame, submission_started, ticked, wanted, wire_seq,
    written, ReactorView, PENDING_FIRE_AND_FORGET_CEILING, PENDING_SUBMISSION_CEILING, WINDOW,
};
use crate::host_io::reactor_types::{
    CommandView, OutgoingView, PendingOutboundKind, Phase, SubmissionView, TickActionView,
    TickEventView,
};
use crate::host_io::window::UnackedView;
use crate::host_io::wire::framed;
use crate::passthrough_queue::receive_window::wrapped_u64;
use vstd::prelude::*;

verus! {

/// The payloads that wait, in the order in which they came, whatever their
/// kind.
pub open spec fn waiting(
    order: Seq<PendingOutboundKind>,
    submissions: Seq<SubmissionView>,
    forgets: Seq<Seq<u8>>,
) -> Seq<Seq<u8>>
    decreases order.len(),
{
    if order.len() == 0 {
        Seq::empty()
    } else {
        match order[0] {
            PendingOutboundKind::Submission => seq![submissions[0].payload] + waiting(
                order.skip(1),
                submissions.skip(1),
                forgets,
            ),
            PendingOutboundKind::FireAndForget => seq![forgets[0]] + waiting(
                order.skip(1),
                submissions,
                forgets.skip(1),
            ),
        }
    }
}

/// The payloads that wait for room in a reactor's window.
pub open spec fn queued(v: ReactorView) -> Seq<Seq<u8>> {
    waiting(v.order, v.submissions, v.forgets)
}

/// The frame of the `i`-th payload that waits, under the sequence that it gets.
pub open spec fn queued_frame(v: ReactorView, i: int) -> Seq<u8> {
    framed(queued(v)[i], wire_seq(wrapped_u64(v.send_seq + i)))
}

/// The reactor after it took the next message that waits and the write that it
/// asked for was made.
#[verifier::opaque]
pub open spec fn after_write(v: ReactorView, now: u64) -> ReactorView {
    written(drain_step(v), Ok(()), now)
}

/// The reactor after it took the next message that waits and the write that it
/// asked for was made, once for each of the times.
pub open spec fn after_writes(v: ReactorView, times: Seq<u64>) -> ReactorView
    decreases times.len(),
{
    if times.len() == 0 {
        v
    } else {
        after_write(after_writes(v, times.drop_last()), times.last())
    }
}

/// The frames of the payloads that wait, as they stand in the window once they
/// were written at the given times.
pub open spec fn frames_sent(v: ReactorView, times: Seq<u64>) -> Seq<UnackedView> {
    Seq::new(
        times.len(),
        |i: int| sent_frame(wrapped_u64(v.send_seq + i), queued_frame(v, i), times[i]),
    )
}

proof fn lemma_waiting_len(
    order: Seq<PendingOutboundKind>,
    submissions: Seq<SubmissionView>,
    forgets: Seq<Seq<u8>>,
)
    ensures
        waiting(order, submissions, forgets).len() == order.len(),
    decreases order.len(),
{
    if order.len() > 0 {
        match order[0] {
            PendingOutboundKind::Submission => lemma_waiting_len(
                order.skip(1),
                submissions.skip(1),
                forgets,
            ),
            PendingOutboundKind::FireAndForget => lemma_waiting_len(
                order.skip(1),
                submissions,
                forgets.skip(1),
            ),
        }
    }
}

/// A message that has to wait goes behind all others.
proof fn lemma_waiting_push(
    order: Seq<PendingOutboundKind>,
    submissions: Seq<SubmissionView>,
    forgets: Seq<Seq<u8>>,
    s: SubmissionView,
    payload: Seq<u8>,
)
    requires
        kinds(order, PendingOutboundKind::Submission) == submissions.len(),
        kinds(order, PendingOutboundKind::FireAndForget) == forgets.len(),
    ensures
        waiting(order.push(PendingOutboundKind::Submission), submissions.push(s), forgets)
            == waiting(order, submissions, forgets).push(s.payload),
        waiting(order.push(PendingOutboundKind::FireAndForget), submissions, forgets.push(payload))
            == waiting(order, submissions, forgets).push(payload),
    decreases order.len(),
{
    let all = waiting(order, submissions, forgets);
    let with_s = order.push(PendingOutboundKind::Submission);
    let with_f = order.push(PendingOutboundKind::FireAndForget);
    if order.len() == 0 {
        assert(with_s.skip(1) =~= order);
        assert(with_f.skip(1) =~= order);
        assert(waiting(with_s.skip(1), submissions.push(s).skip(1), forgets).len() == 0);
        assert(waiting(with_f.skip(1), submissions, forgets.push(payload).skip(1)).len() == 0);
        assert(waiting(with_s, submissions.push(s), forgets) =~= all.push(s.payload));
        assert(waiting(with_f, submissions, forgets.push(payload)) =~= all.push(payload));
    } else {
        assert(with_s.skip(1) =~= order.skip(1).push(PendingOutboundKind::Submission));
        assert(with_f.skip(1) =~= order.skip(1).push(PendingOutboundKind::FireAndForget));
        match order[0] {
            PendingOutboundKind::Submission => {
                assert(submissions.push(s).skip(1) =~= submissions.skip(1).push(s));
                lemma_waiting_push(order.skip(1), submissions.skip(1), forgets, s, payload);
            },
            PendingOutboundKind::FireAndForget => {
                assert(forgets.push(payload).skip(1) =~= forgets.skip(1).push(payload));
                lemma_waiting_push(order.skip(1), submissions, forgets.skip(1), s, payload);
            },
        }
        assert(waiting(with_s, submissions.push(s), forgets) =~= all.push(s.payload));
        assert(waiting(with_f, submissions, forgets.push(payload)) =~= all.push(payload));
    }
}

/// While the window is full, a command, and likewise a command without a
/// response, goes behind all that wait, as long as not too many of its kind do.
pub proof fn law_full_window_queues(v: ReactorView, s: SubmissionView, payload: Seq<u8>)
    requires
        order_ok(v),
        v.window.len() >= WINDOW,
    ensures
        v.submissions.len() < PENDING_SUBMISSION_CEILING ==> queued(submission_started(v, s))
            == queued(v).push(s.payload) && order_ok(submission_started(v, s)),
        v.forgets.len() < PENDING_FIRE_AND_FORGET_CEILING ==> queued(forget_started(v, payload))
            == queued(v).push(payload) && order_ok(forget_started(v, payload)),
{
    lemma_waiting_push(v.order, v.submissions, v.forgets, s, payload);
    lemma_kinds_push(
        v.order,
        PendingOutboundKind::Submission,
        PendingOutboundKind::Submission,
    );
    lemma_kinds_push(
        v.order,
        PendingOutboundKind::Submission,
        PendingOutboundKind::FireAndForget,
    );
    lemma_kinds_push(
        v.order,
        PendingOutboundKind::FireAndForget,
        PendingOutboundKind::Submission,
    );
    lemma_kinds_push(
        v.order,
        PendingOutboundKind::FireAndForget,
        PendingOutboundKind::FireAndForget,
    );
}

/// Whether messages may leave: the reactor drains, and no write is under way.
pub open spec fn draining(v: ReactorView) -> bool {
    v.phase == Phase::Draining && v.writing is None && order_ok(v)
}

/// What one message leaves behind: `w` is `v` without the first that waits.
pub open spec fn one_left(v: ReactorView, w: ReactorView, now: u64) -> bool {
    &&& draining(w)
    &&& w.state == v.state
    &&& w.host_fault == v.host_fault
    &&& queued(w) == queued(v).skip(1)
    &&& w.send_seq == wrapped_u64(v.send_seq + 1)
    &&& w.window == v.window.push(
        sent_frame(v.send_seq, framed(queued(v)[0], wire_seq(v.send_seq)), now),
    )
}

proof fn lemma_go(v: ReactorView, now: u64)
    requires
        draining(v),
    ensures
        ticked(v, TickEventView::Go, now) == drain_step(v),
        drain_step(v).writing is Some ==> ticked(
            drain_step(v),
            TickEventView::Written(Ok(())),
            now,
        ) == written(drain_step(v), Ok(()), now),
{
}

proof fn lemma_submission_leaves(v: ReactorView, now: u64)
    requires
        draining(v),
        v.order.len() > 0,
        v.order[0] == PendingOutboundKind::Submission,
        v.window.len() < WINDOW,
    ensures
        drain_step(v).writing matches Some(g) && outgoing(g) == OutgoingView::Bytes(
            framed(queued(v)[0], wire_seq(v.send_seq)),
        ),
        one_left(v, written(drain_step(v), Ok(()), now), now),
{
    let rest = waiting(v.order.skip(1), v.submissions.skip(1), v.forgets);
    assert(queued(v).skip(1) =~= rest);
    assert(queued(v)[0] == v.submissions[0].payload);
}

proof fn lemma_forget_leaves(v: ReactorView, now: u64)
    requires
        draining(v),
        v.order.len() > 0,
        v.order[0] == PendingOutboundKind::FireAndForget,
        v.window.len() < WINDOW,
    ensures
        drain_step(v).writing matches Some(g) && outgoing(g) == OutgoingView::Bytes(
            framed(queued(v)[0], wire_seq(v.send_seq)),
        ),
        one_left(v, written(drain_step(v), Ok(()), now), now),
{
    let rest = waiting(v.order.skip(1), v.submissions, v.forgets.skip(1));
    assert(queued(v).skip(1) =~= rest);
    assert(queued(v)[0] == v.forgets[0]);
}

proof fn lemma_one_leaves(v: ReactorView, now: u64)
    requires
        draining(v),
        v.order.len() > 0,
        v.window.len() < WINDOW,
    ensures
        one_left(v, after_write(v, now), now),
{
    reveal(after_write);
    match v.order[0] {
        PendingOutboundKind::Submission => lemma_submission_leaves(v, now),
        PendingOutboundKind::FireAndForget => lemma_forget_leaves(v, now),
    }
}

/// While there is room, the first message that waits is written next, under
/// the send sequence; when no message waits or the window is full, nothing
/// more is written.
pub proof fn law_first_queued_goes_next(v: ReactorView, now: u64)
    requires
        draining(v),
    ensures
        queued(v).len() > 0 && v.window.len() < WINDOW ==> wanted(
            ticked(v, TickEventView::Go, now),
        ) == TickActionView::Write(
            OutgoingView::Bytes(framed(queued(v)[0], wire_seq(v.send_seq))),
        ),
        queued(v).len() == 0 || v.window.len() >= WINDOW ==> ticked(v, TickEventView::Go, now) == (
        ReactorView { phase: Phase::Promoting, ..v }),
{
    lemma_waiting_len(v.order, v.submissions, v.forgets);
    lemma_go(v, now);
    if v.order.len() > 0 && v.window.len() < WINDOW {
        match v.order[0] {
            PendingOutboundKind::Submission => lemma_submission_leaves(v, now),
            PendingOutboundKind::FireAndForget => lemma_forget_leaves(v, now),
        }
    }
}

/// The messages that wait leave in the order in which they came, whatever
/// their kind, for as long as there is room: of `n` of them with `k` places
/// free, any first ones, up to the lesser of both, are written as consecutive
/// frames from the old send sequence on. The others stay, in order.
pub proof fn law_queued_leave_in_order(v: ReactorView, times: Seq<u64>)
    requires
        draining(v),
        times.len() <= queued(v).len(),
        v.window.len() + times.len() <= WINDOW,
    ensures
        ({
            let w = after_writes(v, times);
            &&& draining(w)
            &&& w.state == v.state
            &&& w.host_fault == v.host_fault
            &&& queued(w) == queued(v).skip(times.len() as int)
            &&& w.send_seq == wrapped_u64(v.send_seq + times.len())
            &&& w.window == v.window + frames_sent(v, times)
        }),
    decreases times.len(),
{
    let w = after_writes(v, times);
    if times.len() == 0 {
        assert(queued(v).skip(0) =~= queued(v));
        assert(v.window + frames_sent(v, times) =~= v.window);
    } else {
        let before = times.drop_last();
        let u = after_writes(v, before);
        let n = before.len() as int;
        law_queued_leave_in_order(v, before);
        lemma_waiting_len(v.order, v.submissions, v.forgets);
        lemma_waiting_len(u.order, u.submissions, u.forgets);
        lemma_one_leaves(u, times.last());
        assert(queued(u)[0] == queued(v)[n]);
        assert(queued(v).skip(n).skip(1) =~= queued(v).skip(n + 1));
        let sent = frames_sent(v, times);
        assert(sent =~= frames_sent(v, before).push(sent[n]));
        assert(w.window =~= v.window + sent);
    }
}

/// What is put on the wire: once some of the messages have left, the next is
/// the frame of the one behind them, under the sequence behind theirs; and when
/// all have left, or the window is full, it is nothing more. Going on in a tick
/// is the same as taking the next message.
pub proof fn law_queued_are_written(v: ReactorView, times: Seq<u64>, now: u64)
    requires
        draining(v),
        times.len() <= queued(v).len(),
        v.window.len() + times.len() <= WINDOW,
    ensures
        ({
            let w = after_writes(v, times);
            let more = times.len() < queued(v).len() && v.window.len() + times.len() < WINDOW;
            &&& ticked(w, TickEventView::Go, now) == drain_step(w)
            &&& more ==> wanted(drain_step(w)) == TickActionView::Write(
                OutgoingView::Bytes(queued_frame(v, times.len() as int)),
            )
            &&& more ==> ticked(drain_step(w), TickEventView::Written(Ok(())), now) == after_write(
                w,
                now,
            )
            &&& !more ==> drain_step(w) == (ReactorView { phase: Phase::Promoting, ..w })
        }),
{
    law_queued_leave_in_order(v, times);
    let w = after_writes(v, times);
    let n = times.len() as int;
    assert(w.window.len() == v.window.len() + n);
    assert(queued(w).len() == queued(v).len() - n);
    if n < queued(v).len() {
        assert(queued(w)[0] == queued(v)[n]);
    }
    lemma_go(w, now);
    law_first_queued_goes_next(w, now);
    reveal(after_write);
}

/// When so many messages have left that none waits or the window is full, the
/// lesser of how many waited and how many places were free have left, in the
/// order in which they came and under consecutive sequences; the others still
/// wait, in that order, and nothing more is sent.
pub proof fn law_drain(v: ReactorView, times: Seq<u64>)
    requires
        draining(v),
        v.window.len() <= WINDOW,
        times.len() == if queued(v).len() < WINDOW - v.window.len() {
            queued(v).len() as int
        } else {
            WINDOW - v.window.len()
        },
    ensures
        ({
            let w = after_writes(v, times);
            &&& w.window == v.window + frames_sent(v, times)
            &&& w.send_seq == wrapped_u64(v.send_seq + times.len())
            &&& queued(w) == queued(v).skip(times.len() as int)
            &&& drain_step(w) == (ReactorView { phase: Phase::Promoting, ..w })
        }),
{
    law_queued_leave_in_order(v, times);
    law_queued_are_written(v, times, 0);
}

/// Whatever happens, the number of an interceptor stands at most once, as long
/// as numbers are left.
pub proof fn law_interceptors_stay_numbered(v: ReactorView, e: TickEventView, now: u64)
    requires
        numbered(v.interceptors),
        v.interceptors.next_id < u64::MAX,
    ensures
        numbered(ticked(v, e, now).interceptors),
{
    match e {
        TickEventView::Command(c) => match c {
            CommandView::RegisterInterceptor {
                msg_name,
                oid,
                token,
            } => {
                law_numbers_stand_once(
                    v.interceptors,
                    msg_name,
                    oid,
                    InterceptorId(0),
                );
            },
            CommandView::UnregisterInterceptor { id } => {
                law_numbers_stand_once(v.interceptors, Seq::empty(), None, id);
            },
            _ => {},
        },
        _ => {},
    }
}

} // verus!
