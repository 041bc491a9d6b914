//! What the reactor promises over all events.

use crate::host_io::reactor_model::{
    command_taken, drain_step, first_exhausted, forget_started, frame_taken, gone_on, received_through,
    submission_started, ticked, window_ok, written, ReactorView, MCU_SILENCE_FOR_CLOSE, WINDOW,
};
use crate::host_io::reactor_types::{
    CommandView, FrameView, GoalView, PendingOutboundKind, Phase, ReactorState, SubmissionView,
    TickEventView, TickOutcome,
};
use crate::host_io::window::{lemma_acked_count, UnackedView};
use crate::host_io::wire::absolute;
use vstd::prelude::*;

verus! {

/// How many of the waiting messages are of a kind.
pub open spec fn kinds(s: Seq<PendingOutboundKind>, k: PendingOutboundKind) -> nat
    decreases s.len(),
{
    if s.len() == 0 {
        0
    } else {
        kinds(s.skip(1), k) + if s[0] == k {
            1nat
        } else {
            0nat
        }
    }
}

pub(crate) proof fn lemma_kinds_push(s: Seq<PendingOutboundKind>, a: PendingOutboundKind, k: PendingOutboundKind)
    ensures
        kinds(s.push(a), k) == kinds(s, k) + if a == k {
            1nat
        } else {
            0nat
        },
    decreases s.len(),
{
    if s.len() > 0 {
        lemma_kinds_push(s.skip(1), a, k);
        assert(s.push(a).skip(1) =~= s.skip(1).push(a));
        assert(s.push(a)[0] == s[0]);
    } else {
        assert(s.push(a).skip(1) =~= Seq::<PendingOutboundKind>::empty());
        assert(kinds(s.push(a).skip(1), k) == 0);
    }
}

/// Whether the order of the waiting messages names each of them.
pub open spec fn order_ok(v: ReactorView) -> bool {
    &&& kinds(v.order, PendingOutboundKind::Submission) == v.submissions.len()
    &&& kinds(v.order, PendingOutboundKind::FireAndForget) == v.forgets.len()
}

/// The phases in which room in the window may not have been used yet.
pub open spec fn catching_up(p: Phase) -> bool {
    p == Phase::Frames || p == Phase::Draining || p == Phase::Done(TickOutcome::Closed)
}

/// Whether messages only wait while the window is full.
pub open spec fn in_turn(v: ReactorView) -> bool {
    catching_up(v.phase) || v.state == ReactorState::Closed || v.order.len() == 0 || v.window.len()
        >= WINDOW
}

/// What always holds of a reactor.
pub open spec fn orderly(v: ReactorView) -> bool {
    &&& window_ok(v)
    &&& order_ok(v)
    &&& in_turn(v)
    &&& v.inbound.len() > 0 ==> v.phase == Phase::Frames
    &&& v.writing matches Some(g) ==> match g {
        GoalView::Submission { .. } => !(v.phase == Phase::Frames),
        GoalView::FireAndForget { .. } => !(v.phase == Phase::Frames),
        GoalView::Passthrough { .. } => v.phase == Phase::Passthrough,
        GoalView::Retransmit { .. } => v.phase == Phase::Frames || v.phase == Phase::Rto,
        _ => !(v.phase == Phase::Frames),
    }
}

proof fn lemma_written_window(v: ReactorView, r: Result<(), Seq<char>>, now: u64)
    requires
        window_ok(v),
        v.writing is Some,
    ensures
        window_ok(written(v, r, now)),
        written(v, r, now).writing is None,
{
}

proof fn lemma_received_window(v: ReactorView, rseq: u64, now: u64)
    ensures
        received_through(v, rseq, now).window.len() <= v.window.len(),
        received_through(v, rseq, now).writing == v.writing,
{
    lemma_acked_count(v.window, rseq);
}

proof fn lemma_command_window(v: ReactorView, c: CommandView)
    requires
        window_ok(v),
        v.writing is None,
    ensures
        window_ok(command_taken(v, c)),
{
}

proof fn lemma_frame_window(v: ReactorView, b: Seq<u8>, now: u64)
    requires
        window_ok(v),
        v.writing is None,
    ensures
        window_ok(frame_taken(v, b, now)),
{
    lemma_received_window(v, absolute(v.receive_seq, b[1] & 0x0F) as u64, now);
}

proof fn lemma_go_window(v: ReactorView, now: u64)
    requires
        window_ok(v),
        v.writing is None,
    ensures
        window_ok(gone_on(v, now)),
{
    if v.phase == Phase::Frames {
        if v.inbound.len() > 0 {
            let w = ReactorView { inbound: v.inbound.skip(1), ..v };
            match v.inbound[0] {
                FrameView::Klipper(b) => lemma_frame_window(w, b, now),
                FrameView::Native(f) => {},
            }
        }
    }
}

/// No more frames are ever unacknowledged than the window allows, and a write
/// that adds one is only under way while there is room for it.
pub proof fn law_window_bounded(v: ReactorView, e: TickEventView, now: u64)
    requires
        window_ok(v),
    ensures
        window_ok(ticked(v, e, now)),
{
    if v.writing is Some {
        match e {
            TickEventView::Written(r) => lemma_written_window(v, r, now),
            _ => {},
        }
    } else {
        match (v.phase, e) {
            (Phase::Commands(k), TickEventView::Command(c)) => lemma_command_window(
                ReactorView { phase: crate::host_io::reactor_model::after_command(k), ..v },
                c,
            ),
            (Phase::Polling, TickEventView::Polled(p)) => {},
            (_, TickEventView::Go) => lemma_go_window(v, now),
            _ => {},
        }
    }
}

proof fn lemma_written_orderly(v: ReactorView, r: Result<(), Seq<char>>, now: u64)
    requires
        orderly(v),
        v.writing is Some,
    ensures
        orderly(written(v, r, now)),
{
    lemma_written_window(v, r, now);
}

proof fn lemma_submission_orderly(v: ReactorView, s: SubmissionView)
    requires
        orderly(v),
        v.writing is None,
        v.phase != Phase::Frames,
    ensures
        orderly(submission_started(v, s)),
{
    lemma_kinds_push(
        v.order,
        PendingOutboundKind::Submission,
        PendingOutboundKind::Submission,
    );
    lemma_kinds_push(
        v.order,
        PendingOutboundKind::Submission,
        PendingOutboundKind::FireAndForget,
    );
}

proof fn lemma_forget_orderly(v: ReactorView, payload: Seq<u8>)
    requires
        orderly(v),
        v.writing is None,
        v.phase != Phase::Frames,
    ensures
        orderly(forget_started(v, payload)),
{
    lemma_kinds_push(
        v.order,
        PendingOutboundKind::FireAndForget,
        PendingOutboundKind::Submission,
    );
    lemma_kinds_push(
        v.order,
        PendingOutboundKind::FireAndForget,
        PendingOutboundKind::FireAndForget,
    );
}

proof fn lemma_command_orderly(v: ReactorView, c: CommandView)
    requires
        orderly(v),
        v.writing is None,
        v.phase != Phase::Frames,
    ensures
        orderly(command_taken(v, c)),
{
    match c {
        CommandView::Submit { call_id, cmd, expected_response_name, deadline } => {
            match crate::host_io::encode::line_bytes(v.parser, cmd) {
                Ok(payload) => lemma_submission_orderly(
                    v,
                    SubmissionView { call_id, payload, expected_response_name, deadline },
                ),
                Err(_) => {},
            }
        },
        CommandView::SubmitTyped { call_id, payload, expected_response_name, deadline } => {
            lemma_submission_orderly(
                v,
                SubmissionView { call_id, payload, expected_response_name, deadline },
            )
        },
        CommandView::FireAndForget { cmd } => {
            match crate::host_io::encode::line_bytes(v.parser, cmd) {
                Ok(payload) => lemma_forget_orderly(v, payload),
                Err(_) => {},
            }
        },
        CommandView::FireAndForgetTyped { payload } => lemma_forget_orderly(v, payload),
        _ => {},
    }
}

pub proof fn lemma_received_keeps(v: ReactorView, rseq: u64, now: u64)
    ensures
        ({
            let w = received_through(v, rseq, now);
            &&& w.order == v.order
            &&& w.submissions == v.submissions
            &&& w.forgets == v.forgets
            &&& w.phase == v.phase
            &&& w.state == v.state
            &&& w.inbound == v.inbound
            &&& w.awaiting == v.awaiting
            &&& w.outbox == v.outbox
            &&& w.writing == v.writing
        }),
{
}

proof fn lemma_frame_orderly(v: ReactorView, b: Seq<u8>, now: u64)
    requires
        orderly(v),
        v.writing is None,
        v.phase == Phase::Frames,
    ensures
        orderly(frame_taken(v, b, now)),
{
    let rseq = absolute(v.receive_seq, b[1] & 0x0F) as u64;
    lemma_received_window(v, rseq, now);
    lemma_received_keeps(v, rseq, now);
}

proof fn lemma_go_orderly(v: ReactorView, now: u64)
    requires
        orderly(v),
        v.writing is None,
    ensures
        orderly(gone_on(v, now)),
{
    match v.phase {
        Phase::Frames => {
            if v.inbound.len() > 0 {
                let w = ReactorView { inbound: v.inbound.skip(1), ..v };
                match v.inbound[0] {
                    FrameView::Klipper(b) => lemma_frame_orderly(w, b, now),
                    FrameView::Native(f) => {},
                }
            }
        },
        Phase::Draining => {
            if v.window.len() < WINDOW && v.order.len() > 0 {
                let w = ReactorView { order: v.order.skip(1), ..v };
                match v.order[0] {
                    PendingOutboundKind::Submission => {
                        lemma_submission_orderly(
                            ReactorView { submissions: v.submissions.skip(1), ..w },
                            v.submissions[0],
                        );
                    },
                    PendingOutboundKind::FireAndForget => {
                        lemma_forget_orderly(
                            ReactorView { forgets: v.forgets.skip(1), ..w },
                            v.forgets[0],
                        );
                    },
                }
            }
        },
        _ => {},
    }
}

/// The reactor stays orderly: the window stays within its bounds; the order
/// of the waiting messages names each of them; and outside of the phases that
/// use up freed room, messages only wait while the window is full, as long as
/// the connection is open.
pub proof fn law_orderly(v: ReactorView, e: TickEventView, now: u64)
    requires
        orderly(v),
    ensures
        orderly(ticked(v, e, now)),
{
    if v.writing is Some {
        match e {
            TickEventView::Written(r) => lemma_written_orderly(v, r, now),
            _ => {},
        }
    } else {
        match (v.phase, e) {
            (Phase::Commands(k), TickEventView::Command(c)) => lemma_command_orderly(
                ReactorView { phase: crate::host_io::reactor_model::after_command(k), ..v },
                c,
            ),
            (Phase::Polling, TickEventView::Polled(p)) => {},
            (_, TickEventView::Go) => lemma_go_orderly(v, now),
            _ => {},
        }
    }
}

/// No message overtakes another: while the connection is open, a request is
/// sent at once only when no message waits; and of those that wait the first
/// is sent first.
pub proof fn law_no_overtaking(v: ReactorView, e: TickEventView, now: u64)
    requires
        orderly(v),
        v.state == ReactorState::Active,
        v.writing is None,
        ticked(v, e, now).writing matches Some(g) && (g is Submission || g is FireAndForget),
    ensures
        match e {
            TickEventView::Command(_) => v.order.len() == 0,
            _ => v.phase == Phase::Draining && v.order.len() > 0 && ticked(v, e, now)
                == drain_step(v),
        },
{
    match (v.phase, e) {
        (Phase::Frames, TickEventView::Go) => {
            if v.inbound.len() > 0 {
                let w = ReactorView { inbound: v.inbound.skip(1), ..v };
                match v.inbound[0] {
                    FrameView::Klipper(b) => {
                        let rseq = absolute(v.receive_seq, b[1] & 0x0F) as u64;
                        lemma_received_keeps(w, rseq, now);
                    },
                    FrameView::Native(f) => {},
                }
            }
        },
        _ => {},
    }
}

/// A write that fails closes the connection, whatever was written, and a fault
/// is there to be told.
pub proof fn law_write_fault_closes(v: ReactorView, text: Seq<char>, now: u64)
    requires
        v.writing is Some,
    ensures
        ({
            let w = ticked(v, TickEventView::Written(Err(text)), now);
            &&& w.state == ReactorState::Closed
            &&& w.host_fault is Some
            &&& v.host_fault is Some ==> w.host_fault == v.host_fault
        }),
{
}

/// However often frames are sent again, the connection is not given up while
/// something was received lately.
pub proof fn law_heard_controller_is_not_given_up(v: ReactorView, now: u64)
    requires
        v.writing matches Some(g) && g is Retransmit,
        now < v.last_recv_time + MCU_SILENCE_FOR_CLOSE,
    ensures
        ticked(v, TickEventView::Written(Ok(())), now).state == v.state,
        ticked(v, TickEventView::Written(Ok(())), now).host_fault == v.host_fault,
{
    lemma_none_exhausted(v.window);
}

proof fn lemma_none_exhausted(w: Seq<UnackedView>)
    ensures
        first_exhausted(w, false) is None,
    decreases w.len(),
{
    if w.len() > 0 {
        lemma_none_exhausted(w.skip(1));
    }
}

} // verus!
