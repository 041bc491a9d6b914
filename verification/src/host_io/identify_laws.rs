//! What a handshake asks for and what it makes of the answers.

use crate::host_io::decode::frame_body;
use crate::host_io::identify::{
    chunk_of, chunk_taken, dictionary_text, empty_frame_seen, frame_seen, frames_seen,
    fresh_identify, identify_stepped, identify_wanted, request_payload, request_written,
    sent_nibble, timed_out, walked, IdentifyActionView, IdentifyEventView, IdentifyPhaseView,
    IdentifyView,
};
use crate::host_io::minimal::{awaited, pumped, MinimalView};
use crate::host_io::reactor_types::FrameView;
use crate::host_io::vlq::{law_vlq_round_trip, vlq_bytes, vlq_decoded, vlq_len};
use crate::host_io::wire::{absolute, framed, law_frame_round_trip};
use crate::host_io::wire_laws::law_frame_layout;
use vstd::prelude::*;

verus! {

/// A request is a frame with the number 1, the place where the dictionary goes
/// on, and forty as the count of bytes, under the sequence that comes next.
pub proof fn law_request_asks_for_what_is_next(v: IdentifyView, now: u64)
    requires
        v.phase == IdentifyPhaseView::Asking,
        v.sent_seq is None,
        now < v.deadline,
        v.data.len() <= u32::MAX,
    ensures
        ({
            let w = identify_stepped(v, IdentifyEventView::Go, now);
            identify_wanted(w) matches IdentifyActionView::Write(f) && {
                let body = f.subrange(2, f.len() - 3);
                let n = vlq_len(v.data.len() as int) as int;
                &&& f[1] == 16 + v.next_send_seq_abs % 16
                &&& vlq_decoded(body) == Some((1int, 1int))
                &&& vlq_decoded(body.skip(1)) == Some((v.data.len() as int, n))
                &&& vlq_decoded(body.skip(1 + n)) == Some((40int, 1int))
            }
        }),
{
    let w = identify_stepped(v, IdentifyEventView::Go, now);
    let s = (v.next_send_seq_abs % 16) as u8;
    assert(s & 0x0F == s) by (bit_vector)
        requires
            s < 16,
    ;
    let offset = v.data.len() as int;
    let p = request_payload(offset);
    let f = framed(p, sent_nibble(w));
    assert(p.len() <= 59);
    law_frame_layout(p, sent_nibble(w));
    let n = vlq_len(offset) as int;
    law_vlq_round_trip(1, vlq_bytes(offset) + vlq_bytes(40));
    assert(vlq_bytes(1) =~= seq![1u8]);
    assert(p =~= vlq_bytes(1) + (vlq_bytes(offset) + vlq_bytes(40)));
    law_vlq_round_trip(offset, vlq_bytes(40));
    assert(p.skip(1) =~= vlq_bytes(offset) + vlq_bytes(40));
    law_vlq_round_trip(40, Seq::empty());
    assert(p.skip(1 + n) =~= vlq_bytes(40) + Seq::<u8>::empty());
}

/// The payload with which the firmware answers a request: the number 0, the
/// place, the count of bytes, and the bytes.
pub open spec fn answer(offset: int, bytes: Seq<u8>) -> Seq<u8> {
    seq![0u8] + (vlq_bytes(offset) + (seq![bytes.len() as u8] + bytes))
}

proof fn lemma_answer(offset: int, bytes: Seq<u8>, nibble: u8)
    requires
        0 <= offset <= u32::MAX,
        bytes.len() <= 40,
    ensures
        chunk_of(framed(answer(offset, bytes), nibble)) == Some((offset as u32, bytes)),
        framed(answer(offset, bytes), nibble)[1] == 16 + nibble % 16,
        framed(answer(offset, bytes), nibble).len() > 5,
{
    let a = answer(offset, bytes);
    let tail = seq![bytes.len() as u8] + bytes;
    assert(a.len() <= 59);
    law_frame_layout(a, nibble);
    let f = framed(a, nibble);
    assert(frame_body(f) == a);
    law_vlq_round_trip(offset, tail);
    let n = vlq_len(offset) as int;
    assert(a.skip(1) =~= vlq_bytes(offset) + tail);
    assert(a.skip(1 + n) =~= tail);
    assert(tail.subrange(1, 1 + tail[0]) =~= bytes);
}

/// The answer to a request is taken: its bytes go to the end of the dictionary,
/// and the next request goes out under the sequence that the answer names. An
/// answer without bytes ends the handshake.
pub proof fn law_answer_is_taken(v: IdentifyView, until: u64, bytes: Seq<u8>, now: u64)
    requires
        v.phase == IdentifyPhaseView::Waiting(until),
        bytes.len() <= 40,
        v.data.len() <= u32::MAX,
        now < v.deadline,
        v.next_send_seq_abs < 0x1000_0000_0000_0000,
    ensures
        ({
            let next = ((v.next_send_seq_abs + 1) % 16) as u8;
            let f = framed(answer(v.data.len() as int, bytes), next);
            let w = identify_stepped(
                v,
                IdentifyEventView::Frames(seq![FrameView::Klipper(f)]),
                now,
            );
            &&& w.data == v.data + bytes
            &&& w.next_send_seq_abs == v.next_send_seq_abs + 1
            &&& w.phase == if bytes.len() == 0 {
                IdentifyPhaseView::Done
            } else {
                IdentifyPhaseView::Asking
            }
            &&& bytes.len() > 0 ==> w.sent_seq is None
        }),
{
    let next = ((v.next_send_seq_abs + 1) % 16) as u8;
    let f = framed(answer(v.data.len() as int, bytes), next);
    assert(f.len() > 5 && f[1] & 0x0F == next && chunk_of(f) == Some(
        (v.data.len() as u32, bytes),
    )) by {
        lemma_answer(v.data.len() as int, bytes, next);
        let x = f[1];
        assert(x & 0x0F == x % 16) by (bit_vector);
    }
    lemma_next(v.next_send_seq_abs);
    lemma_chunk_step(v, until, f, next, bytes, now);
}

#[verifier::spinoff_prover]
proof fn lemma_chunk_step(
    v: IdentifyView,
    until: u64,
    f: Seq<u8>,
    next: u8,
    bytes: Seq<u8>,
    now: u64,
)
    requires
        v.phase == IdentifyPhaseView::Waiting(until),
        f.len() > 5,
        f[1] & 0x0F == next,
        chunk_of(f) == Some((v.data.len() as u32, bytes)),
        v.data.len() <= u32::MAX,
        now < v.deadline,
    ensures
        ({
            let w = identify_stepped(
                v,
                IdentifyEventView::Frames(seq![FrameView::Klipper(f)]),
                now,
            );
            &&& w.data == v.data + bytes
            &&& w.next_send_seq_abs == absolute(v.next_send_seq_abs, next) as u64
            &&& w.phase == if bytes.len() == 0 {
                IdentifyPhaseView::Done
            } else {
                IdentifyPhaseView::Asking
            }
            &&& bytes.len() > 0 ==> w.sent_seq is None
        }),
{
    let fs = seq![FrameView::Klipper(f)];
    let one = FrameView::Klipper(f);
    assert(fs[0] == one);
    assert(frame_seen(v, one) == (walked(v, next), chunk_of(f)));
    assert(frames_seen(v, fs) == (walked(v, next), Some((v.data.len() as u32, bytes))));
    if bytes.len() == 0 {
        assert(v.data + bytes =~= v.data);
    }
}

proof fn lemma_next(seq: u64)
    requires
        seq < 0x1000_0000_0000_0000,
    ensures
        absolute(seq, ((seq + 1) % 16) as u8) == seq + 1,
{
}

/// A request that is not answered within a fifth of a second, and before the
/// handshake's end, is sent once more under the same sequence; a second time in
/// vain ends the handshake, unless the firmware refused the very first one.
pub proof fn law_unanswered_request_is_repeated(v: IdentifyView, now: u64)
    requires
        v.data.len() > 0 || !v.saw_nak,
    ensures
        !v.retransmitted_same_seq ==> {
            &&& timed_out(v).phase == IdentifyPhaseView::Asking
            &&& timed_out(v).sent_seq == v.sent_seq
            &&& timed_out(timed_out(v)).phase is Failed
        },
        v.retransmitted_same_seq ==> timed_out(v).phase is Failed,
        now + 200_000_000 <= v.deadline ==> request_written(v, now).phase
            == IdentifyPhaseView::Waiting((now + 200_000_000) as u64),
        now < v.deadline < now + 200_000_000 ==> request_written(v, now).phase
            == IdentifyPhaseView::Waiting(v.deadline),
{
}

/// A handshake never asks on once its time is over.
pub proof fn law_deadline_ends_the_handshake(v: IdentifyView, now: u64)
    requires
        v.phase == IdentifyPhaseView::Asking,
    ensures
        identify_stepped(v, IdentifyEventView::Go, now).phase is Failed <==> now >= v.deadline,
{
}

/// A handshake begins with seventy synchronisation bytes, and drops what comes
/// in the three tenths of a second after them, or until nothing comes; then it
/// asks for the start of the dictionary under the sequence zero.
pub proof fn law_handshake_begins(deadline: u64, now: u64, then: u64, fs: Seq<FrameView>)
    requires
        now + 300_000_000 <= u64::MAX,
    ensures
        ({
            let v = fresh_identify(deadline);
            let w = identify_stepped(v, IdentifyEventView::Written(Ok(())), now);
            let x = identify_stepped(w, IdentifyEventView::Idle, then);
            let y = identify_stepped(w, IdentifyEventView::Frames(fs), then);
            &&& identify_wanted(v) matches IdentifyActionView::Write(b) && b.len() == 70 && forall|
                i: int,
            |
                0 <= i < 70 ==> #[trigger] b[i] == 0x7E
            &&& identify_wanted(w) == IdentifyActionView::Poll((now + 300_000_000) as u64)
            &&& x.phase == IdentifyPhaseView::Asking
            &&& then < now + 300_000_000 ==> y == w
            &&& then >= now + 300_000_000 ==> y.phase == IdentifyPhaseView::Asking
            &&& x.data.len() == 0 && x.next_send_seq_abs == 0
            &&& y.data.len() == 0 && y.next_send_seq_abs == 0
        }),
{
}

/// An acknowledgement of the request moves the sequence on by one; one that
/// repeats the request's own sequence is ignored; any other is a refusal, whose
/// sequence is taken over.
pub proof fn law_acknowledgement_of_a_request(v: IdentifyView, s: u8, n: u8)
    requires
        v.sent_seq == Some(s),
        s < 16,
        n < 16,
    ensures
        ({
            let w = empty_frame_seen(v, n);
            &&& n == s ==> w == v
            &&& n != s ==> w.next_send_seq_abs == absolute(v.next_send_seq_abs, n) as u64
            &&& n != s && (n == s + 1 || s == 15 && n == 0) ==> w.saw_nak == v.saw_nak
            &&& n != s && !(n == s + 1 || s == 15 && n == 0) ==> w.saw_nak
            &&& w.data == v.data && w.phase == v.phase
        }),
{
    assert(s & 0x0F == s) by (bit_vector)
        requires
            s < 16,
    ;
}

/// After a refusal at the very start the request goes out afresh, under the
/// sequence that was taken over, up to twenty times.
pub proof fn law_refused_start_is_repeated(v: IdentifyView)
    requires
        v.data.len() == 0,
        v.saw_nak,
    ensures
        v.resync_attempts < 20 ==> {
            let w = timed_out(v);
            &&& w.phase == IdentifyPhaseView::Asking
            &&& w.sent_seq is None
            &&& w.next_send_seq_abs == v.next_send_seq_abs
            &&& w.resync_attempts == v.resync_attempts + 1
        },
        v.resync_attempts >= 20 && v.retransmitted_same_seq ==> timed_out(v).phase is Failed,
{
}

/// A chunk for another place than the end of the dictionary is dropped, and the
/// request goes out afresh.
pub proof fn law_other_chunks_are_dropped(v: IdentifyView, offset: u32, chunk: Seq<u8>, now: u64)
    requires
        offset != v.data.len(),
    ensures
        chunk_taken(v, offset, chunk, now).data == v.data,
        chunk_taken(v, offset, chunk, now).phase == IdentifyPhaseView::Asking,
        chunk_taken(v, offset, chunk, now).sent_seq is None,
{
}

/// A dictionary is inflated exactly where it starts with the first byte of a
/// zlib stream.
pub proof fn law_when_inflated(
    data: Seq<u8>,
    inflated: Result<Seq<u8>, Seq<char>>,
    other: Result<Seq<u8>, Seq<char>>,
    complaint: spec_fn(Seq<u8>) -> Seq<char>,
)
    ensures
        data.len() == 0 || data[0] != 0x78 ==> dictionary_text(data, inflated, complaint)
            == dictionary_text(data, other, complaint),
        data.len() > 0 && data[0] == 0x78 && inflated is Err ==> dictionary_text(
            data,
            inflated,
            complaint,
        ) is Err,
        data.len() > 0 && data[0] == 0x78 && inflated is Ok ==> dictionary_text(
            data,
            inflated,
            complaint,
        ) == dictionary_text(seq![0x78u8], inflated, complaint),
{
}

proof fn lemma_low_bits(s: u8)
    ensures
        (16 + s % 16) as u8 & 0x0F == s % 16,
{
    assert((16 + s % 16) as u8 & 0x0F == s % 16) by (bit_vector);
}

/// The small client takes the sequence of the next frame from each frame that
/// comes in, and goes on with what stands behind it.
pub proof fn law_client_follows_the_sequence(
    v: MinimalView,
    payload: Seq<u8>,
    seq: u8,
    rest: Seq<u8>,
)
    requires
        payload.len() <= 59,
        v.rx == framed(payload, seq) + rest,
    ensures
        pumped(v) == pumped(MinimalView { seq: seq % 16, rx: rest, ..v }),
        rest.len() < 5 ==> pumped(v) == (MinimalView { seq: seq % 16, rx: rest, ..v }),
{
    let f = framed(payload, seq);
    law_frame_round_trip(payload, seq, rest, 5);
    law_frame_layout(payload, seq);
    lemma_low_bits(seq);
    assert(f[1] & 0x0F == seq % 16);
}

/// While the small client waits for a part of the dictionary, it takes the first
/// that comes, with its place, and leaves what stands behind it for later; other
/// frames before it are passed over.
pub proof fn law_client_takes_the_first_part(
    v: MinimalView,
    offset: int,
    bytes: Seq<u8>,
    seq: u8,
    rest: Seq<u8>,
)
    requires
        0 <= offset <= u32::MAX,
        bytes.len() <= 40,
    ensures
        awaited(MinimalView { rx: framed(answer(offset, bytes), seq) + rest, ..v }) == (
            MinimalView { seq: seq % 16, rx: rest, ..v },
            Some((offset as u32, bytes)),
        ),
        awaited(MinimalView { rx: framed(Seq::empty(), seq) + rest, ..v }) == awaited(
            MinimalView { seq: seq % 16, rx: rest, ..v },
        ),
{
    let a = answer(offset, bytes);
    let f = framed(a, seq);
    assert(a.len() <= 59);
    lemma_answer(offset, bytes, seq);
    law_frame_round_trip(a, seq, rest, 5);
    lemma_low_bits(seq);
    assert(f[1] & 0x0F == seq % 16);
    let none = Seq::<u8>::empty();
    let e = framed(none, seq);
    law_frame_round_trip(none, seq, rest, 5);
    law_frame_layout(none, seq);
    assert(e[1] & 0x0F == seq % 16);
    assert(e.len() == 5);
    assert(chunk_of(e) is None);
}

} // verus!
