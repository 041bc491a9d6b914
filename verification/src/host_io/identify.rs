//! The identify handshake: fetches the firmware's dictionary in chunks, and
//! finds out where the sequences stand.
//!
//! The handshake does no input or output itself. Its owner reports events to
//! [`IdentifySession::step`], which says what to do next.


use crate::host_io::decode::frame_body;
use crate::host_io::enums::{low_u32, to_u32};
use crate::host_io::parse_error::{around, enclose, error_text, ErrorView};
use crate::host_io::parser::{parser_of, DataDictionary, MsgProtoParser};
use crate::host_io::reactor_types::{frame_views, Frame, FrameView};
use crate::host_io::vlq::{decode_vlq, encode_vlq, lemma_vlq_decoded_bounds, vlq_bytes, vlq_decoded, vlq_fits};
use crate::host_io::wire::{
    absolute, build_frame, decode_absolute, framed, joined, MESSAGE_HEADER_SIZE, MESSAGE_MIN,
    MESSAGE_SYNC, MESSAGE_TRAILER_SIZE,
};
use crate::text::copy_text;
use crate::transport::{TransportError, TransportErrorView};
use vstd::prelude::*;
use vstd::utf8::{decode_utf8, valid_utf8};

verus! {

/// Where the sequences stand after the handshake.
#[derive(Debug, Clone, Copy, PartialEq, Eq, Structural)]
pub struct IdentifySeqState {
    pub next_send_seq_abs: u64,
    pub mcu_receive_seq_abs: u64,
}

/// How many bytes one request asks for.
pub const IDENTIFY_CHUNK: u32 = 40;

/// How many sync bytes reset the firmware's frame reader.
pub const FLUSH_BYTES: usize = 70;

/// How long old frames are read and dropped, in nanoseconds.
pub const DRAIN_TIME: u64 = 300_000_000;

/// How long one request waits for its response, in nanoseconds.
pub const ATTEMPT_TIME: u64 = 200_000_000;

/// How often the sequence is taken over from a refusal.
pub const MAX_TOTAL_RESYNC_ATTEMPTS: usize = 20;

/// How far the handshake has come.
#[derive(Debug)]
pub enum IdentifyPhase {
    /// The firmware's frame reader is reset.
    Flushing,
    /// Old frames are dropped, until a time.
    Draining(u64),
    /// A chunk is asked for.
    Asking,
    /// The request is written.
    Sending,
    /// The response is waited for, until a time.
    Waiting(u64),
    Done,
    Failed(TransportError),
}

/// Model of [`IdentifyPhase`].
#[verifier::ext_equal]
pub enum IdentifyPhaseView {
    Flushing,
    Draining(u64),
    Asking,
    Sending,
    Waiting(u64),
    Done,
    Failed(TransportErrorView),
}

impl View for IdentifyPhase {
    type V = IdentifyPhaseView;

    open spec fn view(&self) -> IdentifyPhaseView {
        match self {
            IdentifyPhase::Flushing => IdentifyPhaseView::Flushing,
            IdentifyPhase::Draining(t) => IdentifyPhaseView::Draining(*t),
            IdentifyPhase::Asking => IdentifyPhaseView::Asking,
            IdentifyPhase::Sending => IdentifyPhaseView::Sending,
            IdentifyPhase::Waiting(t) => IdentifyPhaseView::Waiting(*t),
            IdentifyPhase::Done => IdentifyPhaseView::Done,
            IdentifyPhase::Failed(e) => IdentifyPhaseView::Failed(e@),
        }
    }
}

/// A handshake under way.
#[derive(Debug)]
pub struct IdentifySession {
    next_send_seq_abs: u64,
    mcu_recv_abs: u64,
    data: Vec<u8>,
    resync_attempts: usize,
    sent_seq: Option<u8>,
    retransmitted_same_seq: bool,
    saw_nak: bool,
    deadline: u64,
    phase: IdentifyPhase,
}

/// Model of [`IdentifySession`].
#[verifier::ext_equal]
pub struct IdentifyView {
    pub next_send_seq_abs: u64,
    pub mcu_recv_abs: u64,
    pub data: Seq<u8>,
    pub resync_attempts: usize,
    pub sent_seq: Option<u8>,
    pub retransmitted_same_seq: bool,
    pub saw_nak: bool,
    pub deadline: u64,
    pub phase: IdentifyPhaseView,
}

impl View for IdentifySession {
    type V = IdentifyView;

    closed spec fn view(&self) -> IdentifyView {
        IdentifyView {
            next_send_seq_abs: self.next_send_seq_abs,
            mcu_recv_abs: self.mcu_recv_abs,
            data: self.data@,
            resync_attempts: self.resync_attempts,
            sent_seq: self.sent_seq,
            retransmitted_same_seq: self.retransmitted_same_seq,
            saw_nak: self.saw_nak,
            deadline: self.deadline,
            phase: self.phase@,
        }
    }
}

/// What reading from the port gave.
#[derive(Debug)]
pub enum IdentifyPoll {
    Frames(Vec<Frame>),
    /// Nothing came.
    Idle,
    /// The read failed.
    Failed(String),
}

/// What the owner reports to the handshake.
#[derive(Debug)]
pub enum IdentifyEvent {
    Go,
    Written(Result<(), String>),
    Polled(IdentifyPoll),
}

/// Model of [`IdentifyEvent`].
pub enum IdentifyEventView {
    Go,
    Written(Result<(), Seq<char>>),
    Frames(Seq<FrameView>),
    Idle,
    ReadFailed(Seq<char>),
}

impl View for IdentifyEvent {
    type V = IdentifyEventView;

    open spec fn view(&self) -> IdentifyEventView {
        match self {
            IdentifyEvent::Go => IdentifyEventView::Go,
            IdentifyEvent::Written(r) => IdentifyEventView::Written(
                match r {
                    Ok(_) => Ok(()),
                    Err(s) => Err(s@),
                },
            ),
            IdentifyEvent::Polled(p) => match p {
                IdentifyPoll::Frames(f) => IdentifyEventView::Frames(frame_views(f@)),
                IdentifyPoll::Idle => IdentifyEventView::Idle,
                IdentifyPoll::Failed(s) => IdentifyEventView::ReadFailed(s@),
            },
        }
    }
}

/// What the owner is to do next.
#[derive(Debug)]
pub enum IdentifyAction {
    /// Report [`IdentifyEvent::Go`].
    Again,
    Write(Vec<u8>),
    /// Read from the port, at most until a time.
    Poll(u64),
    Done,
    Failed,
}

/// Model of [`IdentifyAction`].
#[verifier::ext_equal]
pub enum IdentifyActionView {
    Again,
    Write(Seq<u8>),
    Poll(u64),
    Done,
    Failed,
}

impl View for IdentifyAction {
    type V = IdentifyActionView;

    open spec fn view(&self) -> IdentifyActionView {
        match self {
            IdentifyAction::Again => IdentifyActionView::Again,
            IdentifyAction::Write(b) => IdentifyActionView::Write(b@),
            IdentifyAction::Poll(t) => IdentifyActionView::Poll(*t),
            IdentifyAction::Done => IdentifyActionView::Done,
            IdentifyAction::Failed => IdentifyActionView::Failed,
        }
    }
}

/// A request: its number, the place in the dictionary, and how many bytes.
pub open spec fn request_payload(offset: int) -> Seq<u8> {
    seq![1u8] + vlq_bytes(offset) + vlq_bytes(IDENTIFY_CHUNK as int)
}

/// The chunk that an identify response holds: the place in the dictionary and
/// the bytes there.
pub open spec fn chunk_of(packet: Seq<u8>) -> Option<(u32, Seq<u8>)> {
    let body = frame_body(packet);
    if packet.len() < 6 || body[0] != 0 {
        None
    } else {
        match vlq_decoded(body.skip(1)) {
            None => None,
            Some(v) => match counted_bytes(body.skip(1 + v.1)) {
                None => None,
                Some(b) => Some((low_u32(v.0) as u32, b)),
            },
        }
    }
}

/// The bytes that stand behind their count.
pub open spec fn counted_bytes(b: Seq<u8>) -> Option<Seq<u8>> {
    if b.len() == 0 || b.len() < 1 + b[0] {
        None
    } else {
        Some(b.subrange(1, 1 + b[0]))
    }
}

/// Reads bytes that stand behind their count.
pub fn decode_bytes(buf: &[u8]) -> (r: Option<(Vec<u8>, usize)>)
    ensures
        match r {
            Some(p) => counted_bytes(buf@) == Some(p.0@) && p.1 == 1 + buf@[0],
            None => counted_bytes(buf@) is None,
        },
{
    if buf.len() == 0 {
        return None;
    }
    let n: usize = buf[0] as usize;
    if buf.len() < 1 + n {
        return None;
    }
    let part: &[u8] = vstd::slice::slice_subrange(buf, 1, 1 + n);
    Some((vstd::slice::slice_to_vec(part), 1 + n))
}

/// Reads an identify response.
pub fn decode_identify_response(packet: &[u8]) -> (r: Option<(u32, Vec<u8>)>)
    ensures
        match r {
            Some(p) => chunk_of(packet@) == Some((p.0, p.1@)),
            None => chunk_of(packet@) is None,
        },
{
    if packet.len() < MESSAGE_MIN + 1 {
        return None;
    }
    let body: &[u8] = vstd::slice::slice_subrange(
        packet,
        MESSAGE_HEADER_SIZE,
        packet.len() - MESSAGE_TRAILER_SIZE,
    );
    proof {
        assert(body@ =~= frame_body(packet@));
    }
    if body[0] != 0 {
        return None;
    }
    let rest: &[u8] = vstd::slice::slice_subrange(body, 1, body.len());
    proof {
        assert(rest@ =~= body@.skip(1));
        lemma_vlq_decoded_bounds(rest@);
    }
    match decode_vlq(rest) {
        Err(_) => None,
        Ok(v) => {
            let tail: &[u8] = vstd::slice::slice_subrange(rest, v.1, rest.len());
            proof {
                assert(tail@ =~= body@.skip(1 + v.1));
            }
            match decode_bytes(tail) {
                None => None,
                Some(b) => Some((to_u32(v.0), b.0)),
            }
        },
    }
}

/// Both sequences are moved on to where four bits say.
pub open spec fn walked(v: IdentifyView, nibble: u8) -> IdentifyView {
    IdentifyView {
        next_send_seq_abs: absolute(v.next_send_seq_abs, nibble) as u64,
        mcu_recv_abs: absolute(v.mcu_recv_abs, nibble) as u64,
        ..v
    }
}

/// The four bits that were sent last.
pub open spec fn sent_nibble(v: IdentifyView) -> u8 {
    match v.sent_seq {
        Some(s) => s & 0x0F,
        None => 0,
    }
}

/// A frame without a body: the acknowledgement of the request moves the
/// sequences on; one that repeats the request's own sequence is old and is
/// ignored; any other is a refusal, which moves them on too.
pub open spec fn empty_frame_seen(v: IdentifyView, nibble: u8) -> IdentifyView {
    if nibble == (sent_nibble(v) + 1) % 16 {
        walked(v, nibble)
    } else if nibble != sent_nibble(v) {
        IdentifyView { saw_nak: true, ..walked(v, nibble) }
    } else {
        v
    }
}

/// What a frame leads to, and the chunk, if it holds one.
pub open spec fn frame_seen(v: IdentifyView, f: FrameView) -> (
    IdentifyView,
    Option<(u32, Seq<u8>)>,
) {
    match f {
        FrameView::Native(_) => (v, None),
        FrameView::Klipper(b) => if b.len() < 2 {
            (v, None)
        } else if b.len() <= 5 {
            (empty_frame_seen(v, b[1] & 0x0F), None)
        } else {
            (walked(v, b[1] & 0x0F), chunk_of(b))
        },
    }
}

/// What frames lead to, up to the first that holds a chunk.
pub open spec fn frames_seen(v: IdentifyView, fs: Seq<FrameView>) -> (
    IdentifyView,
    Option<(u32, Seq<u8>)>,
)
    decreases fs.len(),
{
    if fs.len() == 0 {
        (v, None)
    } else {
        let (w, chunk) = frame_seen(v, fs[0]);
        if chunk is Some {
            (w, chunk)
        } else {
            frames_seen(w, fs.skip(1))
        }
    }
}

/// The handshake has failed.
pub open spec fn failed(v: IdentifyView, e: TransportErrorView) -> IdentifyView {
    IdentifyView { phase: IdentifyPhaseView::Failed(e), ..v }
}

/// The next chunk, or the same once more, is asked for afresh.
pub open spec fn asked_afresh(v: IdentifyView) -> IdentifyView {
    IdentifyView {
        sent_seq: None,
        retransmitted_same_seq: false,
        phase: IdentifyPhaseView::Asking,
        ..v
    }
}

/// A chunk has come: one from another place is dropped; an empty one ends the
/// dictionary.
pub open spec fn chunk_taken(v: IdentifyView, offset: u32, chunk: Seq<u8>, now: u64) -> IdentifyView {
    if offset != v.data.len() {
        asked_afresh(v)
    } else if chunk.len() == 0 {
        IdentifyView { phase: IdentifyPhaseView::Done, ..v }
    } else {
        let w = IdentifyView { data: v.data + chunk, ..v };
        if now >= v.deadline {
            failed(w, TransportErrorView::Parse("identify exceeded timeout"@))
        } else {
            asked_afresh(w)
        }
    }
}

/// No response has come in time: after a refusal at the very start the
/// sequence is taken over, so many times; otherwise the request is repeated
/// once.
pub open spec fn timed_out(v: IdentifyView) -> IdentifyView {
    if v.data.len() == 0 && v.saw_nak && v.resync_attempts < MAX_TOTAL_RESYNC_ATTEMPTS {
        IdentifyView {
            resync_attempts: (v.resync_attempts + 1) as usize,
            ..asked_afresh(v)
        }
    } else if !v.retransmitted_same_seq {
        IdentifyView { retransmitted_same_seq: true, phase: IdentifyPhaseView::Asking, ..v }
    } else {
        failed(
            v,
            TransportErrorView::Parse("identify exceeded NAK-resync attempts for one chunk"@),
        )
    }
}

/// A time later than another, as far as times go.
pub open spec fn later(t: u64, by: u64) -> u64 {
    if t + by > u64::MAX {
        u64::MAX
    } else {
        (t + by) as u64
    }
}

/// The request was written: the response is waited for, but not past the end
/// of the handshake.
pub open spec fn request_written(v: IdentifyView, now: u64) -> IdentifyView {
    let until = if v.deadline < later(now, ATTEMPT_TIME) {
        v.deadline
    } else {
        later(now, ATTEMPT_TIME)
    };
    let w = IdentifyView { saw_nak: false, ..v };
    if now >= until {
        timed_out(w)
    } else {
        IdentifyView { phase: IdentifyPhaseView::Waiting(until), ..w }
    }
}

/// What an event leads to.
pub open spec fn identify_stepped(v: IdentifyView, e: IdentifyEventView, now: u64) -> IdentifyView {
    match (v.phase, e) {
        (IdentifyPhaseView::Flushing, IdentifyEventView::Written(Ok(_))) => IdentifyView {
            phase: IdentifyPhaseView::Draining(later(now, DRAIN_TIME)),
            ..v
        },
        (IdentifyPhaseView::Flushing, IdentifyEventView::Written(Err(s))) => failed(
            v,
            TransportErrorView::Io(s),
        ),
        (IdentifyPhaseView::Draining(until), IdentifyEventView::Frames(_)) => if now < until {
            v
        } else {
            IdentifyView { phase: IdentifyPhaseView::Asking, ..v }
        },
        (IdentifyPhaseView::Draining(_), IdentifyEventView::Idle) => IdentifyView {
            phase: IdentifyPhaseView::Asking,
            ..v
        },
        (IdentifyPhaseView::Draining(_), IdentifyEventView::ReadFailed(s)) => failed(
            v,
            TransportErrorView::Io(s),
        ),
        (IdentifyPhaseView::Asking, IdentifyEventView::Go) => if now >= v.deadline {
            failed(
                v,
                TransportErrorView::Parse("identify timed out (no firmware response)"@),
            )
        } else {
            IdentifyView {
                sent_seq: match v.sent_seq {
                    Some(s) => Some(s),
                    None => Some((v.next_send_seq_abs % 16) as u8),
                },
                phase: IdentifyPhaseView::Sending,
                ..v
            }
        },
        (IdentifyPhaseView::Sending, IdentifyEventView::Written(Ok(_))) => request_written(
            v,
            now,
        ),
        (IdentifyPhaseView::Sending, IdentifyEventView::Written(Err(s))) => failed(
            v,
            TransportErrorView::Io(s),
        ),
        (IdentifyPhaseView::Waiting(until), IdentifyEventView::Frames(fs)) => {
            let (w, chunk) = frames_seen(v, fs);
            match chunk {
                Some(c) => chunk_taken(w, c.0, c.1, now),
                None => if now >= until {
                    timed_out(w)
                } else {
                    w
                },
            }
        },
        (IdentifyPhaseView::Waiting(until), IdentifyEventView::Idle) => if now >= until {
            timed_out(v)
        } else {
            v
        },
        (IdentifyPhaseView::Waiting(_), IdentifyEventView::ReadFailed(s)) => failed(
            v,
            TransportErrorView::Io(s),
        ),
        _ => v,
    }
}

/// What the owner is to do next.
pub open spec fn identify_wanted(v: IdentifyView) -> IdentifyActionView {
    match v.phase {
        IdentifyPhaseView::Flushing => IdentifyActionView::Write(
            Seq::new(FLUSH_BYTES as nat, |i: int| 0x7Eu8),
        ),
        IdentifyPhaseView::Draining(t) => IdentifyActionView::Poll(t),
        IdentifyPhaseView::Asking => IdentifyActionView::Again,
        IdentifyPhaseView::Sending => IdentifyActionView::Write(
            framed(request_payload(v.data.len() as int), sent_nibble(v)),
        ),
        IdentifyPhaseView::Waiting(t) => IdentifyActionView::Poll(t),
        IdentifyPhaseView::Done => IdentifyActionView::Done,
        IdentifyPhaseView::Failed(_) => IdentifyActionView::Failed,
    }
}

/// A handshake that has not begun.
pub open spec fn fresh_identify(deadline: u64) -> IdentifyView {
    IdentifyView {
        next_send_seq_abs: 0,
        mcu_recv_abs: 0,
        data: Seq::empty(),
        resync_attempts: 0,
        sent_seq: None,
        retransmitted_same_seq: false,
        saw_nak: false,
        deadline,
        phase: IdentifyPhaseView::Flushing,
    }
}

/// A time later than another.
fn later_than(t: u64, by: u64) -> (r: u64)
    ensures
        r == later(t, by),
{
    t.saturating_add(by)
}

impl IdentifySession {
    /// A handshake that is to end by `deadline`.
    pub fn new(deadline: u64) -> (s: Self)
        ensures
            s@ == fresh_identify(deadline),
    {
        IdentifySession {
            next_send_seq_abs: 0,
            mcu_recv_abs: 0,
            data: Vec::new(),
            resync_attempts: 0,
            sent_seq: None,
            retransmitted_same_seq: false,
            saw_nak: false,
            deadline,
            phase: IdentifyPhase::Flushing,
        }
    }

    /// How many bytes of the dictionary have come.
    pub fn data_len(&self) -> (n: usize)
        ensures
            n == self@.data.len(),
    {
        self.data.len()
    }

    /// Moves both sequences on.
    fn walk(&mut self, nibble: u8)
        ensures
            final(self)@ == walked(old(self)@, nibble),
    {
        self.next_send_seq_abs = decode_absolute(self.next_send_seq_abs, nibble);
        self.mcu_recv_abs = decode_absolute(self.mcu_recv_abs, nibble);
    }

    /// The handshake has failed.
    fn fail(&mut self, e: TransportError)
        ensures
            final(self)@ == failed(old(self)@, e@),
    {
        self.phase = IdentifyPhase::Failed(e);
    }

    /// Takes a frame in.
    fn see_frame(&mut self, f: &Frame) -> (r: Option<(u32, Vec<u8>)>)
        ensures
            final(self)@ == frame_seen(old(self)@, f@).0,
            match r {
                Some(c) => frame_seen(old(self)@, f@).1 == Some((c.0, c.1@)),
                None => frame_seen(old(self)@, f@).1 is None,
            },
    {
        match f {
            Frame::Native(_) => None,
            Frame::Klipper(b) => {
                if b.len() < 2 {
                    return None;
                }
                let nibble: u8 = b[1] & 0x0F;
                if b.len() <= MESSAGE_MIN {
                    let sent: u8 = match self.sent_seq {
                        Some(s) => s & 0x0F,
                        None => 0,
                    };
                    proof {
                        let s = self.sent_seq;
                        match s {
                            Some(x) => {
                                assert(x & 0x0F < 16) by (bit_vector);
                            },
                            None => {},
                        }
                    }
                    if nibble == (sent + 1) % 16 {
                        self.walk(nibble);
                    } else if nibble != sent {
                        self.walk(nibble);
                        self.saw_nak = true;
                    }
                    return None;
                }
                self.walk(nibble);
                decode_identify_response(b.as_slice())
            },
        }
    }

    /// Takes frames in, up to the first that holds a chunk.
    fn wait_for_klipper_frame(&mut self, fs: &Vec<Frame>) -> (r: Option<(u32, Vec<u8>)>)
        ensures
            final(self)@ == frames_seen(old(self)@, frame_views(fs@)).0,
            match r {
                Some(c) => frames_seen(old(self)@, frame_views(fs@)).1 == Some((c.0, c.1@)),
                None => frames_seen(old(self)@, frame_views(fs@)).1 is None,
            },
    {
        let ghost all = frame_views(fs@);
        let mut i: usize = 0;
        proof {
            assert(all.skip(0) =~= all);
        }
        while i < fs.len()
            invariant
                i <= fs@.len(),
                all == frame_views(fs@),
                frames_seen(self@, all.skip(i as int)) == frames_seen(old(self)@, all),
            decreases fs@.len() - i,
        {
            proof {
                assert(all.skip(i as int)[0] == fs@[i as int]@);
                assert(all.skip(i as int).skip(1) =~= all.skip(i + 1));
            }
            match self.see_frame(&fs[i]) {
                Some(c) => return Some(c),
                None => {},
            }
            i += 1;
        }
        None
    }

    /// Asks afresh.
    fn ask_afresh(&mut self)
        ensures
            final(self)@ == asked_afresh(old(self)@),
    {
        self.sent_seq = None;
        self.retransmitted_same_seq = false;
        self.phase = IdentifyPhase::Asking;
    }

    /// Takes a chunk in.
    fn take_chunk(&mut self, offset: u32, chunk: Vec<u8>, now: u64)
        ensures
            final(self)@ == chunk_taken(old(self)@, offset, chunk@, now),
    {
        if offset as u64 != self.data.len() as u64 {
            self.ask_afresh();
            return;
        }
        if chunk.len() == 0 {
            self.phase = IdentifyPhase::Done;
            return;
        }
        let ghost was = self.data@;
        self.data.extend_from_slice(chunk.as_slice());
        proof {
            assert(self.data@ =~= was + chunk@);
        }
        if now >= self.deadline {
            self.fail(TransportError::Parse(copy_text("identify exceeded timeout")));
        } else {
            self.ask_afresh();
        }
    }

    /// No response has come in time.
    fn time_out(&mut self)
        ensures
            final(self)@ == timed_out(old(self)@),
    {
        if self.data.len() == 0 && self.saw_nak && self.resync_attempts
            < MAX_TOTAL_RESYNC_ATTEMPTS {
            self.resync_attempts += 1;
            self.ask_afresh();
        } else if !self.retransmitted_same_seq {
            self.retransmitted_same_seq = true;
            self.phase = IdentifyPhase::Asking;
        } else {
            self.fail(
                TransportError::Parse(
                    copy_text("identify exceeded NAK-resync attempts for one chunk"),
                ),
            );
        }
    }

    /// The request was written.
    fn begin_wait(&mut self, now: u64)
        ensures
            final(self)@ == request_written(old(self)@, now),
    {
        let attempt: u64 = later_than(now, ATTEMPT_TIME);
        let until: u64 = if self.deadline < attempt {
            self.deadline
        } else {
            attempt
        };
        self.saw_nak = false;
        if now >= until {
            self.time_out();
        } else {
            self.phase = IdentifyPhase::Waiting(until);
        }
    }

    /// Asks for the next chunk, or gives up.
    fn ask(&mut self, now: u64)
        requires
            old(self)@.phase == IdentifyPhaseView::Asking,
        ensures
            final(self)@ == identify_stepped(old(self)@, IdentifyEventView::Go, now),
    {
        if now >= self.deadline {
            self.fail(
                TransportError::Parse(copy_text("identify timed out (no firmware response)")),
            );
        } else {
            match self.sent_seq {
                Some(_) => {},
                None => {
                    self.sent_seq = Some((self.next_send_seq_abs % 16) as u8);
                },
            }
            self.phase = IdentifyPhase::Sending;
        }
    }

    /// What the owner is to do next.
    pub fn next_action(&self) -> (a: IdentifyAction)
        requires
            vlq_fits(self@.data.len() as int),
        ensures
            a@ == identify_wanted(self@),
    {
        match &self.phase {
            IdentifyPhase::Flushing => {
                let mut b: Vec<u8> = Vec::new();
                let mut i: usize = 0;
                while i < FLUSH_BYTES
                    invariant
                        i <= FLUSH_BYTES,
                        i == b@.len(),
                        forall|j: int| 0 <= j < i ==> #[trigger] b@[j] == 0x7E,
                    decreases FLUSH_BYTES - i,
                {
                    b.push(MESSAGE_SYNC);
                    i += 1;
                }
                proof {
                    assert(b@ =~= Seq::new(FLUSH_BYTES as nat, |i: int| 0x7Eu8));
                }
                IdentifyAction::Write(b)
            },
            IdentifyPhase::Draining(t) => IdentifyAction::Poll(*t),
            IdentifyPhase::Asking => IdentifyAction::Again,
            IdentifyPhase::Sending => {
                let mut payload: Vec<u8> = Vec::new();
                payload.push(1);
                let _ = encode_vlq(&mut payload, self.data.len() as i64);
                let _ = encode_vlq(&mut payload, IDENTIFY_CHUNK as i64);
                let seq: u8 = match self.sent_seq {
                    Some(s) => s & 0x0F,
                    None => 0,
                };
                proof {
                    assert(payload@ =~= request_payload(self@.data.len() as int));
                }
                IdentifyAction::Write(build_frame(payload.as_slice(), seq))
            },
            IdentifyPhase::Waiting(t) => IdentifyAction::Poll(*t),
            IdentifyPhase::Done => IdentifyAction::Done,
            IdentifyPhase::Failed(_) => IdentifyAction::Failed,
        }
    }

    /// Takes an event in, at time `now`.
    pub fn step(&mut self, event: IdentifyEvent, now: u64)
        ensures
            final(self)@ == identify_stepped(old(self)@, event@, now),
    {
        match event {
            IdentifyEvent::Go => match &self.phase {
                IdentifyPhase::Asking => self.ask(now),
                _ => {},
            },
            IdentifyEvent::Written(r) => match &self.phase {
                IdentifyPhase::Flushing => match r {
                    Ok(_) => {
                        self.phase = IdentifyPhase::Draining(later_than(now, DRAIN_TIME));
                    },
                    Err(s) => self.fail(TransportError::Io(s)),
                },
                IdentifyPhase::Sending => match r {
                    Ok(_) => self.begin_wait(now),
                    Err(s) => self.fail(TransportError::Io(s)),
                },
                _ => {},
            },
            IdentifyEvent::Polled(p) => match &self.phase {
                IdentifyPhase::Draining(until) => match p {
                    IdentifyPoll::Frames(_) => {
                        if now >= *until {
                            self.phase = IdentifyPhase::Asking;
                        }
                    },
                    IdentifyPoll::Idle => {
                        self.phase = IdentifyPhase::Asking;
                    },
                    IdentifyPoll::Failed(s) => self.fail(TransportError::Io(s)),
                },
                IdentifyPhase::Waiting(t) => {
                    let until: u64 = *t;
                    match p {
                        IdentifyPoll::Frames(fs) => match self.wait_for_klipper_frame(&fs) {
                            Some(c) => self.take_chunk(c.0, c.1, now),
                            None => {
                                if now >= until {
                                    self.time_out();
                                }
                            },
                        },
                        IdentifyPoll::Idle => {
                            if now >= until {
                                self.time_out();
                            }
                        },
                        IdentifyPoll::Failed(s) => self.fail(TransportError::Io(s)),
                    }
                },
                _ => {},
            },
        }
    }

    /// The outcome of the handshake: the dictionary's bytes and the sequences,
    /// or why it failed; none while it is under way.
    pub fn outcome(self) -> (r: Option<Result<(Vec<u8>, IdentifySeqState), TransportError>>)
        ensures
            match r {
                Some(Ok(p)) => self@.phase is Done && p.0@ == self@.data && p.1
                    == (IdentifySeqState {
                    next_send_seq_abs: self@.next_send_seq_abs,
                    mcu_receive_seq_abs: self@.mcu_recv_abs,
                }),
                Some(Err(e)) => self@.phase == IdentifyPhaseView::Failed(e@),
                None => !(self@.phase is Done || self@.phase is Failed),
            },
    {
        let seq = IdentifySeqState {
            next_send_seq_abs: self.next_send_seq_abs,
            mcu_receive_seq_abs: self.mcu_recv_abs,
        };
        match self.phase {
            IdentifyPhase::Done => Some(Ok((self.data, seq))),
            IdentifyPhase::Failed(e) => Some(Err(e)),
            _ => None,
        }
    }
}

/// What decompressing a zlib stream yields: the bytes, or the error in words.
pub uninterp spec fn zlib_inflated(data: Seq<u8>) -> Result<Seq<u8>, Seq<char>>;

/// What the standard library says of bytes that are not UTF-8.
pub uninterp spec fn utf8_complaint(data: Seq<u8>) -> Seq<char>;

/// `flate2::read::ZlibDecoder`, read to its end: the decompressed bytes, or
/// the error in words. What it yields depends on the bytes alone.
#[verifier::external_body]
fn zlib_inflate(data: &[u8]) -> (r: Result<Vec<u8>, String>)
    ensures
        match r {
            Ok(b) => zlib_inflated(data@) == Ok::<_, Seq<char>>(b@),
            Err(s) => zlib_inflated(data@) == Err::<Seq<u8>, _>(s@),
        },
{
    let mut out: Vec<u8> = Vec::new();
    match std::io::Read::read_to_end(&mut flate2::read::ZlibDecoder::new(data), &mut out) {
        Ok(_) => Ok(out),
        Err(e) => Err(e.to_string()),
    }
}

/// `std::str::from_utf8` of the standard library: the text that the bytes
/// encode, or the error in words where they are not UTF-8.
#[verifier::external_body]
fn utf8_text(data: &[u8]) -> (r: Result<String, String>)
    ensures
        match r {
            Ok(s) => valid_utf8(data@) && s@ == decode_utf8(data@),
            Err(e) => !valid_utf8(data@) && e@ == utf8_complaint(data@),
        },
{
    match std::str::from_utf8(data) {
        Ok(s) => Ok(s.to_owned()),
        Err(e) => Err(e.to_string()),
    }
}

/// The text of a dictionary's bytes, given what decompressing them yields. A
/// dictionary that starts with the first byte of a zlib stream is compressed.
pub open spec fn dictionary_text(
    data: Seq<u8>,
    inflated: Result<Seq<u8>, Seq<char>>,
    complaint: spec_fn(Seq<u8>) -> Seq<char>,
) -> Result<Seq<char>, Seq<char>> {
    let plain = if data.len() > 0 && data[0] == 0x78 {
        inflated
    } else {
        Ok(data)
    };
    match plain {
        Err(e) => Err(around("identify blob zlib inflate failed: "@, e, ""@)),
        Ok(b) => if valid_utf8(b) {
            Ok(decode_utf8(b))
        } else {
            Err(around("identify blob is not valid UTF-8: "@, complaint(b), ""@))
        },
    }
}

/// The text of bytes that are not compressed, or no longer.
pub fn plain_text(data: &[u8]) -> (r: Result<String, TransportError>)
    ensures
        match r {
            Ok(s) => valid_utf8(data@) && s@ == decode_utf8(data@),
            Err(e) => !valid_utf8(data@) && e@ == TransportErrorView::Parse(
                around("identify blob is not valid UTF-8: "@, utf8_complaint(data@), ""@),
            ),
        },
{
    match utf8_text(data) {
        Ok(s) => Ok(s),
        Err(e) => Err(
            TransportError::Parse(enclose("identify blob is not valid UTF-8: ", e, "")),
        ),
    }
}

/// The text of the dictionary that the handshake fetched.
pub fn identify_json(data: &[u8]) -> (r: Result<String, TransportError>)
    ensures
        match r {
            Ok(s) => dictionary_text(data@, zlib_inflated(data@), |b: Seq<u8>| utf8_complaint(b))
                == Ok::<_, Seq<char>>(s@),
            Err(e) => dictionary_text(
                data@,
                zlib_inflated(data@),
                |b: Seq<u8>| utf8_complaint(b),
            ) matches Err(t) && e@ == TransportErrorView::Parse(t),
        },
{
    if data.len() > 0 && data[0] == 0x78 {
        match zlib_inflate(data) {
            Err(e) => Err(
                TransportError::Parse(enclose("identify blob zlib inflate failed: ", e, "")),
            ),
            Ok(b) => plain_text(b.as_slice()),
        }
    } else {
        plain_text(data)
    }
}

/// The parser of the dictionary that the handshake fetched.
pub fn build_parser_from_identify(dict: DataDictionary) -> (r: Result<
    MsgProtoParser,
    TransportError,
>)
    requires
        dict.fits(),
    ensures
        match r {
            Ok(p) => parser_of(dict@) == Ok::<_, ErrorView>(p@),
            Err(t) => parser_of(dict@) matches Err(e) && t@ == TransportErrorView::Parse(
                around("MsgProtoParser::from_dictionary failed: "@, error_text(e), ""@),
            ),
        },
{
    match MsgProtoParser::from_dictionary(dict) {
        Ok(p) => Ok(p),
        Err(e) => Err(
            TransportError::Parse(
                enclose("MsgProtoParser::from_dictionary failed: ", e.to_text(), ""),
            ),
        ),
    }
}

/// An old acknowledgement, which repeats the sequence that was sent, moves
/// nothing.
pub proof fn law_stale_ack_ignored(v: IdentifyView)
    ensures
        empty_frame_seen(v, sent_nibble(v)) == v,
{
    match v.sent_seq {
        Some(x) => {
            assert(x & 0x0F < 16) by (bit_vector);
        },
        None => {},
    }
}

/// The dictionary only ever grows at its end, and only by a chunk for exactly
/// that place.
pub proof fn law_dictionary_grows(v: IdentifyView, offset: u32, chunk: Seq<u8>, now: u64)
    ensures
        ({
            let w = chunk_taken(v, offset, chunk, now);
            w.data == v.data || (offset == v.data.len() && w.data == v.data + chunk)
        }),
{
}

/// The handshake after some events, each at its time.
pub open spec fn identify_run(v: IdentifyView, es: Seq<(IdentifyEventView, u64)>) -> IdentifyView
    decreases es.len(),
{
    if es.len() == 0 {
        v
    } else {
        identify_stepped(identify_run(v, es.drop_last()), es.last().0, es.last().1)
    }
}

/// The chunk that an event brings for the end of the dictionary; nothing where
/// it brings none, or one for another place.
pub open spec fn chunk_brought(v: IdentifyView, e: IdentifyEventView) -> Seq<u8> {
    match (v.phase, e) {
        (IdentifyPhaseView::Waiting(_), IdentifyEventView::Frames(fs)) => {
            match frames_seen(v, fs).1 {
                Some(c) => if c.0 == v.data.len() {
                    c.1
                } else {
                    Seq::empty()
                },
                None => Seq::empty(),
            }
        },
        _ => Seq::empty(),
    }
}

/// The chunks that some events bring, one after the other.
pub open spec fn chunks_brought(v: IdentifyView, es: Seq<(IdentifyEventView, u64)>) -> Seq<Seq<u8>>
    decreases es.len(),
{
    if es.len() == 0 {
        Seq::empty()
    } else {
        chunks_brought(v, es.drop_last()).push(
            chunk_brought(identify_run(v, es.drop_last()), es.last().0),
        )
    }
}

proof fn lemma_frames_keep_data(v: IdentifyView, fs: Seq<FrameView>)
    ensures
        frames_seen(v, fs).0.data == v.data,
        frames_seen(v, fs).0.phase == v.phase,
    decreases fs.len(),
{
    if fs.len() > 0 {
        lemma_frames_keep_data(frame_seen(v, fs[0]).0, fs.skip(1));
    }
}

/// One event adds to the dictionary what it brings, and nothing else; and the
/// dictionary is complete only when an empty chunk came for its end.
pub proof fn law_event_adds_its_chunk(v: IdentifyView, e: IdentifyEventView, now: u64)
    ensures
        identify_stepped(v, e, now).data == v.data + chunk_brought(v, e),
        identify_stepped(v, e, now).phase is Done && !(v.phase is Done) ==> (e matches
            IdentifyEventView::Frames(fs) && (frames_seen(v, fs).1 matches Some(c) && c.0
            == v.data.len() && c.1.len() == 0)),
{
    assert(v.data + Seq::<u8>::empty() =~= v.data);
    match e {
        IdentifyEventView::Frames(fs) => {
            lemma_frames_keep_data(v, fs);
            match frames_seen(v, fs).1 {
                Some(c) => {
                    assert(c.1.len() == 0 ==> v.data + c.1 =~= v.data);
                },
                None => {},
            }
        },
        _ => {},
    }
}

/// The dictionary that a handshake has fetched is made of the chunks that came
/// for its end, in the order in which they came, whatever else happened in
/// between.
pub proof fn law_dictionary_is_its_chunks(
    v: IdentifyView,
    es: Seq<(IdentifyEventView, u64)>,
    deadline: u64,
)
    ensures
        identify_run(v, es).data == v.data + joined(chunks_brought(v, es)),
        identify_run(fresh_identify(deadline), es).data == joined(
            chunks_brought(fresh_identify(deadline), es),
        ),
    decreases es.len(),
{
    let f = fresh_identify(deadline);
    if es.len() == 0 {
        assert(v.data + joined(chunks_brought(v, es)) =~= v.data);
    } else {
        let before = es.drop_last();
        law_dictionary_is_its_chunks(v, before, deadline);
        lemma_chunk_joined(v, es);
        lemma_chunk_joined(f, es);
        assert(identify_run(v, es).data =~= v.data + joined(chunks_brought(v, es)));
        assert(identify_run(f, es).data =~= joined(chunks_brought(f, es)));
    }
}

/// The last event adds its chunk to those before.
proof fn lemma_chunk_joined(v: IdentifyView, es: Seq<(IdentifyEventView, u64)>)
    requires
        es.len() > 0,
    ensures
        identify_run(v, es).data == identify_run(v, es.drop_last()).data + chunk_brought(
            identify_run(v, es.drop_last()),
            es.last().0,
        ),
        joined(chunks_brought(v, es)) == joined(chunks_brought(v, es.drop_last()))
            + chunk_brought(identify_run(v, es.drop_last()), es.last().0),
{
    let u = identify_run(v, es.drop_last());
    law_event_adds_its_chunk(u, es.last().0, es.last().1);
    let cs = chunks_brought(v, es.drop_last());
    let c = chunk_brought(u, es.last().0);
    assert(cs.push(c).drop_last() =~= cs);
    assert(cs.push(c).last() == c);
}

} // verus!
