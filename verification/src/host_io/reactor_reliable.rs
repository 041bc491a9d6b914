//! What makes a connection reliable: frames keep their sequences, leave the
//! window when they are acknowledged, and are sent again in order.

use crate::host_io::reactor_laws::lemma_received_keeps;
use crate::host_io::reactor_model::{
    ack_taken, command_taken, drain_step, first_exhausted, frame_step, frame_taken, gone_on,
    passthrough_step, received_through, retransmit_started, retransmitted, rto_step, ticked, wanted,
    wire_seq, written, ReactorView, MCU_SILENCE_FOR_CLOSE,
};
use crate::host_io::reactor_types::{
    CommandView, FrameView, GoalView, OutgoingView, Phase, ReactorState, RetransmitTrigger,
    TickActionView, TickEventView,
};
use crate::host_io::rtt::bounded_rto;
use crate::host_io::window::{acked_count, frame_rows, law_acked_prefix, lemma_acked_count, UnackedView};
use crate::host_io::wire::{absolute, framed, joined};
use crate::host_io::wire_laws::{
    law_frame_layout, law_frames_come_out_in_order, law_junk_is_passed_over, nth_frame,
};
use vstd::prelude::*;

verus! {

/// Whether a window holds the frames of some payloads, under consecutive
/// sequences from `first` on.
pub open spec fn holds_frames(w: Seq<UnackedView>, payloads: Seq<Seq<u8>>, first: u64) -> bool {
    &&& w.len() == payloads.len()
    &&& first + w.len() <= u64::MAX
    &&& forall|k: int|
        0 <= k < w.len() ==> {
            &&& (#[trigger] w[k]).seq == first + k
            &&& w[k].frame_bytes == framed(payloads[k], wire_seq((first + k) as u64))
            &&& payloads[k].len() <= 59
        }
}

/// A retransmission sends all frames that are not acknowledged, the one with
/// the lowest sequence first: the controller takes out, one after the other,
/// the frames whose sequences rise by one from the oldest on, each with its
/// payload.
pub proof fn law_retransmission_in_order(
    v: ReactorView,
    trigger: RetransmitTrigger,
    payloads: Seq<Seq<u8>>,
    first: u64,
    i: nat,
)
    requires
        holds_frames(v.window, payloads, first),
        i < payloads.len(),
    ensures
        wanted(retransmit_started(v, trigger)) matches TickActionView::Write(
            OutgoingView::Bytes(b),
        ) && b[0] == 0x7E && (nth_frame(b, i) matches Some(f) && {
            &&& f[1] == 16 + (first + i) % 16
            &&& f.subrange(2, f.len() - 3) == payloads[i as int]
        }),
{
    let w = v.window;
    let seqs = Seq::new(payloads.len(), |k: int| wire_seq((first + k) as u64));
    let rows = Seq::new(payloads.len(), |k: int| framed(payloads[k], seqs[k]));
    assert forall|k: int| 0 <= k < payloads.len() implies (#[trigger] payloads[k]).len() <= 59 by {
        assert(w[k].seq == first + k);
    }
    assert forall|k: int| 0 <= k < w.len() implies #[trigger] frame_rows(w)[k] == rows[k] by {
        assert(w[k].seq == first + k);
    }
    assert(frame_rows(w) =~= rows);
    let all = joined(rows);
    assert(all + Seq::<u8>::empty() =~= all);
    law_frames_come_out_in_order(payloads, seqs, Seq::empty(), i);
    law_junk_is_passed_over(0x7E, all, i);
    law_frame_layout(payloads[i as int], seqs[i as int]);
    assert(wire_seq((first + i) as u64) % 16 == (first + i) % 16);
}

/// Whether a frame carries a sequence.
pub open spec fn carries(f: Seq<u8>, seq: u64) -> bool {
    f.len() >= 5 && f[1] == 16 + seq % 16
}

/// The sequence under which the next frame joins the window.
pub open spec fn next_to_join(v: ReactorView) -> int {
    match v.writing {
        Some(GoalView::Submission { .. }) => v.send_seq - 1,
        Some(GoalView::FireAndForget { .. }) => v.send_seq - 1,
        Some(GoalView::Passthrough { .. }) => v.send_seq - 1,
        _ => v.send_seq as int,
    }
}

/// Whether the frames of an open connection stand under consecutive sequences
/// that end before the next to be given, each frame carrying its own; and a
/// frame that is being written carries the next.
pub open spec fn sequenced(v: ReactorView) -> bool {
    v.state == ReactorState::Active ==> {
        &&& forall|i: int|
            0 <= i < v.window.len() ==> {
                &&& (#[trigger] v.window[i]).seq == next_to_join(v) - v.window.len() + i
                &&& carries(v.window[i].frame_bytes, v.window[i].seq)
            }
        &&& match v.writing {
            Some(GoalView::Submission { seq, frame, .. }) => seq == v.send_seq - 1 && carries(
                frame,
                seq,
            ),
            Some(GoalView::FireAndForget { seq, frame }) => seq == v.send_seq - 1 && carries(
                frame,
                seq,
            ),
            Some(GoalView::Passthrough { seq, frame, .. }) => seq == v.send_seq - 1 && carries(
                frame,
                seq,
            ),
            _ => true,
        }
    }
}

proof fn lemma_framed_carries(payload: Seq<u8>, seq: u64)
    ensures
        carries(framed(payload, wire_seq(seq)), seq),
{
    let n = wire_seq(seq);
    assert((n & 0x0F) | 0x10 == 16 + n % 16) by (bit_vector);
}

proof fn lemma_received_sequenced(v: ReactorView, rseq: u64, now: u64)
    requires
        sequenced(v),
        v.writing is None,
    ensures
        sequenced(received_through(v, rseq, now)),
{
    lemma_acked_count(v.window, rseq);
    lemma_received_keeps(v, rseq, now);
    if v.window.len() > 0 {
        let n = acked_count(v.window, rseq) as int;
        let w = received_through(v, rseq, now);
        assert forall|i: int| 0 <= i < w.window.len() implies {
            &&& (#[trigger] w.window[i]).seq == next_to_join(w) - w.window.len() + i
            &&& carries(w.window[i].frame_bytes, w.window[i].seq)
        } || w.state != ReactorState::Active by {
            assert(w.window[i] == v.window[n + i]);
        }
    }
}

#[verifier::spinoff_prover]
proof fn lemma_command_sequenced(v: ReactorView, c: CommandView)
    requires
        sequenced(v),
        v.writing is None,
        v.send_seq < u64::MAX,
    ensures
        sequenced(command_taken(v, c)),
{
    match c {
        CommandView::Submit { call_id, cmd, expected_response_name, deadline } => {
            match crate::host_io::encode::line_bytes(v.parser, cmd) {
                Ok(payload) => lemma_framed_carries(payload, v.send_seq),
                Err(_) => {},
            }
        },
        CommandView::SubmitTyped { call_id, payload, expected_response_name, deadline } => {
            lemma_framed_carries(payload, v.send_seq)
        },
        CommandView::FireAndForget { cmd } => {
            match crate::host_io::encode::line_bytes(v.parser, cmd) {
                Ok(payload) => lemma_framed_carries(payload, v.send_seq),
                Err(_) => {},
            }
        },
        CommandView::FireAndForgetTyped { payload } => lemma_framed_carries(payload, v.send_seq),
        _ => {},
    }
}

#[verifier::spinoff_prover]
proof fn lemma_frame_sequenced(v: ReactorView, b: Seq<u8>, now: u64)
    requires
        sequenced(v),
        v.writing is None,
    ensures
        sequenced(frame_taken(v, b, now)),
{
    let rseq = absolute(v.receive_seq, b[1] & 0x0F) as u64;
    lemma_received_sequenced(v, rseq, now);
    lemma_received_keeps(v, rseq, now);
}

#[verifier::spinoff_prover]
proof fn lemma_frames_sequenced(v: ReactorView, now: u64)
    requires
        sequenced(v),
        v.writing is None,
    ensures
        sequenced(frame_step(v, now)),
{
    if v.inbound.len() > 0 {
        let w = ReactorView { inbound: v.inbound.skip(1), ..v };
        match v.inbound[0] {
            FrameView::Klipper(b) => lemma_frame_sequenced(w, b, now),
            FrameView::Native(f) => {},
        }
    }
}

#[verifier::spinoff_prover]
proof fn lemma_drain_sequenced(v: ReactorView)
    requires
        sequenced(v),
        v.writing is None,
        v.send_seq < u64::MAX,
    ensures
        sequenced(drain_step(v)),
{
    if v.submissions.len() > 0 {
        lemma_framed_carries(v.submissions[0].payload, v.send_seq);
    }
    if v.forgets.len() > 0 {
        lemma_framed_carries(v.forgets[0], v.send_seq);
    }
}

#[verifier::spinoff_prover]
proof fn lemma_passthrough_sequenced(v: ReactorView, now: u64)
    requires
        sequenced(v),
        v.writing is None,
        v.send_seq < u64::MAX,
    ensures
        sequenced(passthrough_step(v, now)),
{
    match (v.router, v.mcu) {
        (Some(r), Some(m)) => {
            match crate::passthrough_queue::router::emitted(r.record(m), now).0 {
                Some(e) => lemma_framed_carries(e.bytes, v.send_seq),
                None => {},
            }
        },
        _ => {},
    }
}

#[verifier::spinoff_prover]
proof fn lemma_go_sequenced(v: ReactorView, now: u64)
    requires
        sequenced(v),
        v.writing is None,
        v.send_seq < u64::MAX,
    ensures
        sequenced(gone_on(v, now)),
{
    match v.phase {
        Phase::Frames => lemma_frames_sequenced(v, now),
        Phase::Draining => lemma_drain_sequenced(v),
        Phase::Passthrough => lemma_passthrough_sequenced(v, now),
        _ => {},
    }
}

proof fn lemma_written_sequenced(v: ReactorView, r: Result<(), Seq<char>>, now: u64)
    requires
        sequenced(v),
        v.writing is Some,
    ensures
        sequenced(written(v, r, now)),
{
}

/// Whatever happens, the frames of an open connection stay under consecutive
/// sequences, and each carries its own, as long as sequences are left.
pub proof fn law_frames_stay_sequenced(v: ReactorView, e: TickEventView, now: u64)
    requires
        sequenced(v),
        v.send_seq < u64::MAX,
    ensures
        sequenced(ticked(v, e, now)),
{
    if v.writing is Some {
        match e {
            TickEventView::Written(r) => lemma_written_sequenced(v, r, now),
            _ => {},
        }
    } else {
        match (v.phase, e) {
            (Phase::Commands(k), TickEventView::Command(c)) => lemma_command_sequenced(
                ReactorView { phase: crate::host_io::reactor_model::after_command(k), ..v },
                c,
            ),
            (_, TickEventView::Go) => lemma_go_sequenced(v, now),
            _ => {},
        }
    }
}

/// The last four bits of a sequence that is near stand for it.
proof fn lemma_absolute(receive_seq: u64, rseq: u64)
    requires
        receive_seq <= rseq <= receive_seq + 15,
        receive_seq <= u64::MAX - 15,
    ensures
        absolute(receive_seq, (rseq % 16) as u8) == rseq,
{
}

/// An acknowledgement names a sequence by its last four bits: that of the next
/// frame that the controller wants. The frames before it leave the window, and
/// those from it on stay, as they are.
pub proof fn law_ack_frees_what_was_received(v: ReactorView, rseq: u64, now: u64)
    requires
        sequenced(v),
        v.state == ReactorState::Active,
        v.writing is None,
        v.receive_seq < rseq <= v.receive_seq + 15,
        v.receive_seq <= u64::MAX - 15,
    ensures
        ({
            let w = ack_taken(v, (rseq % 16) as u8, now);
            &&& w.receive_seq == rseq
            &&& forall|i: int|
                0 <= i < v.window.len() && (#[trigger] v.window[i]).seq >= rseq
                    ==> w.window.contains(v.window[i])
            &&& forall|j: int|
                0 <= j < w.window.len() ==> (#[trigger] w.window[j]).seq >= rseq
                    && v.window.contains(w.window[j])
        }),
{
    let nibble = (rseq % 16) as u8;
    lemma_absolute(v.receive_seq, rseq);
    let n = acked_count(v.window, rseq) as int;
    lemma_acked_count(v.window, rseq);
    let w = received_through(v, rseq, now);
    assert forall|a: int, b: int| 0 <= a < b < v.window.len() implies v.window[a].seq
        < v.window[b].seq by {}
    if v.window.len() > 0 {
        assert(w.window == v.window.skip(n));
        assert forall|i: int|
            0 <= i < v.window.len() && (#[trigger] v.window[i]).seq >= rseq implies w.window.contains(
            v.window[i],
        ) by {
            law_acked_prefix(v.window, rseq, i);
            assert(w.window[i - n] == v.window[i]);
        }
        assert forall|j: int| 0 <= j < w.window.len() implies (#[trigger] w.window[j]).seq >= rseq
            && v.window.contains(w.window[j]) by {
            law_acked_prefix(v.window, rseq, n + j);
            assert(w.window[j] == v.window[n + j]);
        }
    }
}

/// An acknowledgement that repeats the last one is a refusal: all frames are
/// sent again. Once they were, the same refusal leads to nothing more.
pub proof fn law_refusal_resends_once(v: ReactorView, now: u64, later: u64)
    requires
        v.writing is None,
        v.phase == Phase::Frames,
        v.window.len() > 0,
        v.receive_seq <= u64::MAX - 15,
        v.last_ack_seq >= v.receive_seq > v.ignore_nak_seq,
        now < v.last_recv_time + MCU_SILENCE_FOR_CLOSE,
    ensures
        ({
            let nibble = (v.receive_seq % 16) as u8;
            let w = ack_taken(v, nibble, now);
            let x = ticked(w, TickEventView::Written(Ok(())), now);
            &&& w.writing matches Some(g) && g is Retransmit
            &&& x.writing is None
            &&& x.window.len() == v.window.len()
            &&& ack_taken(x, nibble, later).writing is None
        }),
{
    let nibble = (v.receive_seq % 16) as u8;
    lemma_absolute(v.receive_seq, v.receive_seq);
    lemma_nothing_exhausted(v.window);
}

proof fn lemma_nothing_exhausted(w: Seq<UnackedView>)
    ensures
        first_exhausted(w, false) is None,
    decreases w.len(),
{
    if w.len() > 0 {
        lemma_nothing_exhausted(w.skip(1));
    }
}

/// An acknowledgement that moves on resends nothing.
pub proof fn law_progress_resends_nothing(v: ReactorView, rseq: u64, now: u64)
    requires
        v.writing is None,
        v.last_ack_seq <= v.receive_seq < rseq <= v.receive_seq + 15,
        v.receive_seq <= u64::MAX - 15,
    ensures
        ack_taken(v, (rseq % 16) as u8, now).writing is None,
{
    let nibble = (rseq % 16) as u8;
    lemma_absolute(v.receive_seq, rseq);
    lemma_received_keeps(v, rseq, now);
}

/// The oldest frame is not sent again for want of an acknowledgement before
/// half a second is over, and always after five seconds.
pub proof fn law_timeout_bounds(v: ReactorView, t: int, now: u64)
    requires
        v.rtt.rto == bounded_rto(t),
        v.writing is None,
        v.window.len() > 0,
    ensures
        now < v.window[0].sent_at + 500_000_000 ==> rto_step(v, now).writing is None,
        now >= v.window[0].sent_at + 5_000_000_000 ==> (rto_step(v, now).writing matches Some(g)
            && g is Retransmit),
{
}

/// After frames were sent again because of a timeout, the next timeout comes
/// later: after twice the time, or after five seconds.
pub proof fn law_timeouts_back_off(v: ReactorView, now: u64)
    requires
        500_000_000 <= v.rtt.rto <= 5_000_000_000,
        now < v.last_recv_time + MCU_SILENCE_FOR_CLOSE,
    ensures
        ({
            let w = retransmitted(v, RetransmitTrigger::TimeoutDriven, now).0;
            &&& w.rtt.rto == 2 * v.rtt.rto || (w.rtt.rto == 5_000_000_000 && 2 * v.rtt.rto
                > 5_000_000_000)
            &&& forall|i: int|
                0 <= i < v.window.len() ==> (#[trigger] w.window[i]).seq == v.window[i].seq
                    && w.window[i].frame_bytes == v.window[i].frame_bytes
        }),
{
    lemma_nothing_exhausted(v.window);
}

/// A frame that was sent eight times in vain, while nothing at all was heard
/// for two minutes, closes the connection; sent less often, it does not.
pub proof fn law_silence_is_given_up(v: ReactorView, now: u64)
    requires
        v.window.len() == 1,
        v.window[0].retry_count < u32::MAX,
        now >= v.last_recv_time + 120_000_000_000,
        v.state == ReactorState::Active,
    ensures
        (retransmitted(v, RetransmitTrigger::TimeoutDriven, now).0.state == ReactorState::Closed)
            <==> v.window[0].retry_count + 1 >= 8,
{
    reveal_with_fuel(first_exhausted, 3);
}

} // verus!
