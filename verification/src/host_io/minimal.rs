//! A small client of the message protocol: one request at a time, no
//! retransmission, no dictionary.
//!
//! It does no input or output itself: its owner hands it the bytes that were
//! read, and writes the frames that it builds.

use crate::host_io::identify::{chunk_of, decode_identify_response, later, IDENTIFY_CHUNK};
use crate::host_io::parse_error::{around, enclose};
use crate::host_io::vlq::{encode_vlq, law_vlq_round_trip, vlq_bytes, vlq_decoded, vlq_len};
use crate::host_io::wire::{
    build_frame, extract_packet_from, extracted, framed, MESSAGE_MIN, MESSAGE_PAYLOAD_MAX,
    MESSAGE_SEQ_MASK,
};
use crate::text::{copy_text, decimal, push_decimal, same_text};
use crate::transport::{MessageParams, ParamsView, TransportError, TransportErrorView};
use vstd::prelude::*;

verus! {

/// The speed at which a port is opened unless another is asked for.
pub const DEFAULT_BAUD: u32 = 250_000;

/// How long the handshake may take unless another time is asked for, in
/// milliseconds.
pub const DEFAULT_IDENTIFY_TIMEOUT_MS: u64 = 15_000;

/// How long one request of the handshake waits, in nanoseconds.
pub const MINIMAL_ATTEMPT_TIME: u64 = 150_000_000;

/// A small client of the message protocol.
#[derive(Debug)]
pub struct MinimalHostIo {
    seq: u8,
    rx_buf: Vec<u8>,
    pending: Vec<(String, MessageParams)>,
}

/// Model of [`MinimalHostIo`].
#[verifier::ext_equal]
pub struct MinimalView {
    /// The sequence of the next frame.
    pub seq: u8,
    /// What was received and is no frame yet.
    pub rx: Seq<u8>,
    /// The messages that nobody has asked for yet, oldest first.
    pub pending: Seq<(Seq<char>, ParamsView)>,
}

/// Models of messages.
pub open spec fn message_views(v: Seq<(String, MessageParams)>) -> Seq<(Seq<char>, ParamsView)> {
    Seq::new(v.len(), |i: int| (v[i].0@, v[i].1@))
}

impl View for MinimalHostIo {
    type V = MinimalView;

    closed spec fn view(&self) -> MinimalView {
        MinimalView { seq: self.seq, rx: self.rx_buf@, pending: message_views(self.pending@) }
    }
}

/// What happens to the frames that have come in: every one tells the sequence
/// that the firmware expects.
pub open spec fn pumped(v: MinimalView) -> MinimalView
    decreases v.rx.len(),
{
    match extracted(v.rx, 5) {
        (None, rest) => MinimalView { rx: rest, ..v },
        (Some(packet), rest) => if rest.len() < v.rx.len() {
            pumped(MinimalView { seq: packet[1] & 0x0F, rx: rest, ..v })
        } else {
            v
        },
    }
}

/// What happens to the frames that have come in while a response of the
/// handshake is waited for: they are taken up to the first that holds a chunk.
pub open spec fn awaited(v: MinimalView) -> (MinimalView, Option<(u32, Seq<u8>)>)
    decreases v.rx.len(),
{
    match extracted(v.rx, 5) {
        (None, rest) => (MinimalView { rx: rest, ..v }, None),
        (Some(packet), rest) => {
            let w = MinimalView { seq: packet[1] & 0x0F, rx: rest, ..v };
            if chunk_of(packet) is Some {
                (w, chunk_of(packet))
            } else if rest.len() < v.rx.len() {
                awaited(w)
            } else {
                (w, None)
            }
        },
    }
}

/// The place of the first message of that name.
pub open spec fn first_named(p: Seq<(Seq<char>, ParamsView)>, name: Seq<char>) -> Option<int>
    decreases p.len(),
{
    if p.len() == 0 {
        None
    } else if p[0].0 == name {
        Some(0)
    } else {
        match first_named(p.skip(1), name) {
            Some(i) => Some(i + 1),
            None => None,
        }
    }
}

/// The fields of the messages of that name, and the other messages, each in
/// order.
pub open spec fn named_apart(p: Seq<(Seq<char>, ParamsView)>, name: Seq<char>) -> (
    Seq<ParamsView>,
    Seq<(Seq<char>, ParamsView)>,
)
    decreases p.len(),
{
    if p.len() == 0 {
        (Seq::empty(), Seq::empty())
    } else {
        let (hit, other) = named_apart(p.drop_last(), name);
        if p.last().0 == name {
            (hit.push(p.last().1), other)
        } else {
            (hit, other.push(p.last()))
        }
    }
}

/// Why a payload is too long for a frame.
pub open spec fn too_large(n: nat) -> Seq<char> {
    around("cmd payload too large: "@, decimal(n), " > 59"@)
}

/// Why no command can be written without a dictionary.
pub open spec fn not_loaded(cmd: Seq<char>) -> Seq<char> {
    around(
        "kalico-host-rt: dictionary not loaded; cannot encode `"@,
        cmd,
        "`. Step-6 minimal shim relies on the Python identify dictionary being either pre-loaded or the user invoking via MockTransport. Step-7 MVP wires the full JSON parse."@,
    )
}

/// The payload of a request of the handshake.
pub open spec fn minimal_request(offset: int) -> Seq<u8> {
    seq![0u8] + vlq_bytes(offset) + vlq_bytes(IDENTIFY_CHUNK as int)
}

/// What to do while a message is waited for.
#[derive(Debug)]
pub enum WaitStep {
    Got(MessageParams),
    TimedOut,
    /// Read at most that long.
    Pump(u64),
}

/// What happens to the packet that [`extracted`] hands out.
proof fn lemma_packet(b: Seq<u8>)
    ensures
        match extracted(b, 5) {
            (Some(p), rest) => p.len() >= 5 && rest.len() < b.len(),
            (None, _) => true,
        },
    decreases b.len(),
{
    if b.len() >= 5 {
        lemma_packet(b.skip(1));
    }
}

/// The first message of a name is one, and those before it are not.
proof fn lemma_first_named(p: Seq<(Seq<char>, ParamsView)>, name: Seq<char>, i: int)
    requires
        0 <= i <= p.len(),
        forall|j: int| 0 <= j < i ==> (#[trigger] p[j]).0 != name,
        i < p.len() ==> p[i].0 == name,
    ensures
        first_named(p, name) == if i < p.len() {
            Some(i)
        } else {
            None
        },
    decreases p.len(),
{
    if i > 0 {
        assert(p[0].0 != name);
        assert forall|j: int| 0 <= j < i - 1 implies (#[trigger] p.skip(1)[j]).0 != name by {
            assert(p[j + 1].0 != name);
        }
        lemma_first_named(p.skip(1), name, i - 1);
    }
}

impl MinimalHostIo {
    /// A client that has exchanged nothing.
    pub fn new() -> (s: Self)
        ensures
            s@ == (MinimalView { seq: 0, rx: Seq::empty(), pending: Seq::empty() }),
    {
        let s = MinimalHostIo { seq: 0, rx_buf: Vec::new(), pending: Vec::new() };
        proof {
            assert(s@.pending =~= Seq::empty());
        }
        s
    }

    /// Forgets what was received.
    pub fn clear(&mut self)
        ensures
            final(self)@ == (MinimalView {
                rx: Seq::empty(),
                pending: Seq::empty(),
                ..old(self)@
            }),
    {
        self.rx_buf = Vec::new();
        self.pending = Vec::new();
        proof {
            assert(self@.pending =~= Seq::empty());
        }
    }

    /// The sequence of the next frame; the one after it comes next.
    pub fn next_seq(&mut self) -> (s: u8)
        ensures
            s == old(self)@.seq,
            final(self)@ == (MinimalView {
                seq: (((old(self)@.seq + 1) % 256) as u8) & 0x0F,
                ..old(self)@
            }),
    {
        let s: u8 = self.seq;
        self.seq = s.wrapping_add(1) & MESSAGE_SEQ_MASK;
        s
    }

    /// The frame of a payload, unless it is too long for one.
    pub fn frame_and_write(&mut self, cmd_bytes: &[u8]) -> (r: Result<Vec<u8>, TransportError>)
        ensures
            match r {
                Ok(f) => cmd_bytes@.len() <= 59 && f@ == framed(cmd_bytes@, old(self)@.seq)
                    && final(self)@ == (MinimalView {
                    seq: (((old(self)@.seq + 1) % 256) as u8) & 0x0F,
                    ..old(self)@
                }),
                Err(e) => cmd_bytes@.len() > 59 && final(self)@ == old(self)@ && e@
                    == TransportErrorView::Parse(too_large(cmd_bytes@.len())),
            },
    {
        if cmd_bytes.len() > MESSAGE_PAYLOAD_MAX {
            let mut n: String = String::new();
            push_decimal(&mut n, cmd_bytes.len() as u64);
            proof {
                assert(n@ =~= decimal(cmd_bytes@.len()));
            }
            return Err(TransportError::Parse(enclose("cmd payload too large: ", n, " > 59")));
        }
        let seq: u8 = self.next_seq();
        Ok(build_frame(cmd_bytes, seq))
    }

    /// The frame that asks for the part of the dictionary at a place.
    pub fn send_identify_request(&mut self, offset: u32) -> (f: Vec<u8>)
        ensures
            f@ == framed(minimal_request(offset as int), old(self)@.seq),
            final(self)@ == (MinimalView {
                seq: (((old(self)@.seq + 1) % 256) as u8) & 0x0F,
                ..old(self)@
            }),
    {
        let mut payload: Vec<u8> = Vec::new();
        payload.push(0);
        let _ = encode_vlq(&mut payload, offset as i64);
        let _ = encode_vlq(&mut payload, IDENTIFY_CHUNK as i64);
        proof {
            assert(payload@ =~= minimal_request(offset as int));
        }
        let seq: u8 = self.next_seq();
        build_frame(payload.as_slice(), seq)
    }

    /// Takes in bytes while a response of the handshake is waited for: the
    /// place and the bytes of the first chunk among them. What stands behind
    /// it stays for the next call.
    pub fn wait_for_identify_response(&mut self, bytes: &[u8]) -> (r: Option<(u32, Vec<u8>)>)
        ensures
            ({
                let start = MinimalView { rx: old(self)@.rx + bytes@, ..old(self)@ };
                &&& final(self)@ == awaited(start).0
                &&& match r {
                    Some(c) => awaited(start).1 == Some((c.0, c.1@)),
                    None => awaited(start).1 is None,
                }
            }),
    {
        let ghost start = MinimalView { rx: self@.rx + bytes@, ..self@ };
        self.rx_buf.extend_from_slice(bytes);
        proof {
            assert(self@.rx =~= start.rx);
        }
        loop
            invariant_except_break
                start == (MinimalView { rx: old(self)@.rx + bytes@, ..old(self)@ }),
                awaited(self@) == awaited(start),
            ensures
                self@ == awaited(start).0,
                awaited(start).1 is None,
            decreases self@.rx.len(),
        {
            proof {
                lemma_packet(self@.rx);
            }
            match extract_packet_from(&mut self.rx_buf, MESSAGE_MIN) {
                None => {
                    break;
                },
                Some(packet) => {
                    self.seq = packet[1] & MESSAGE_SEQ_MASK;
                    match decode_identify_response(packet.as_slice()) {
                        Some(c) => {
                            return Some(c);
                        },
                        None => {},
                    }
                },
            }
        }
        None
    }

    /// Takes in bytes. Without a dictionary a frame only tells the sequence
    /// that the firmware expects.
    pub fn pump_rx(&mut self, bytes: &[u8])
        ensures
            final(self)@ == pumped(MinimalView { rx: old(self)@.rx + bytes@, ..old(self)@ }),
    {
        let ghost start = MinimalView { rx: self@.rx + bytes@, ..self@ };
        self.rx_buf.extend_from_slice(bytes);
        proof {
            assert(self@.rx =~= start.rx);
        }
        loop
            invariant_except_break
                pumped(self@) == pumped(start),
            ensures
                self@ == pumped(start),
            decreases self@.rx.len(),
        {
            proof {
                lemma_packet(self@.rx);
            }
            match extract_packet_from(&mut self.rx_buf, MESSAGE_MIN) {
                None => {
                    break;
                },
                Some(packet) => {
                    self.seq = packet[1] & MESSAGE_SEQ_MASK;
                },
            }
        }
    }

    /// Keeps a message until somebody asks for it.
    pub fn keep(&mut self, name: String, params: MessageParams)
        ensures
            final(self)@ == (MinimalView {
                pending: old(self)@.pending.push((name@, params@)),
                ..old(self)@
            }),
    {
        let ghost was = self@.pending;
        self.pending.push((name, params));
        proof {
            assert(self@.pending =~= was.push((name@, params@)));
        }
    }

    /// Writes a command. Without a dictionary none can be written.
    pub fn send(&self, cmd: &str) -> (e: TransportError)
        ensures
            e@ == TransportErrorView::Parse(not_loaded(cmd@)),
    {
        TransportError::Parse(
            enclose(
                "kalico-host-rt: dictionary not loaded; cannot encode `",
                copy_text(cmd),
                "`. Step-6 minimal shim relies on the Python identify dictionary being either pre-loaded or the user invoking via MockTransport. Step-7 MVP wires the full JSON parse.",
            ),
        )
    }

    /// The fields of the first kept message of that name; where there is none,
    /// whether and how long to read on.
    pub fn wait_for_response(&mut self, name: &str, now: u64, deadline: u64) -> (r: WaitStep)
        ensures
            match r {
                WaitStep::Got(p) => first_named(old(self)@.pending, name@) matches Some(i)
                    && old(self)@.pending[i].1 == p@ && final(self)@ == (MinimalView {
                    pending: old(self)@.pending.remove(i),
                    ..old(self)@
                }),
                WaitStep::TimedOut => first_named(old(self)@.pending, name@) is None && now
                    >= deadline && final(self)@ == old(self)@,
                WaitStep::Pump(t) => first_named(old(self)@.pending, name@) is None && now
                    < deadline && t == deadline - now && final(self)@ == old(self)@,
            },
    {
        let ghost was = self@.pending;
        let mut i: usize = 0;
        while i < self.pending.len()
            invariant
                i <= self.pending@.len(),
                self@ == old(self)@,
                was == self@.pending,
                forall|j: int| 0 <= j < i ==> (#[trigger] was[j]).0 != name@,
            decreases self.pending@.len() - i,
        {
            if same_text(self.pending[i].0.as_str(), name) {
                proof {
                    lemma_first_named(was, name@, i as int);
                }
                let (_, p) = self.pending.remove(i);
                proof {
                    assert(self@.pending =~= was.remove(i as int));
                }
                return WaitStep::Got(p);
            }
            i += 1;
        }
        proof {
            lemma_first_named(was, name@, i as int);
        }
        if now >= deadline {
            WaitStep::TimedOut
        } else {
            WaitStep::Pump(deadline - now)
        }
    }

    /// The fields of every kept message of that name, oldest first.
    pub fn poll_events(&mut self, name: &str) -> (r: Vec<MessageParams>)
        ensures
            Seq::new(r@.len(), |i: int| r@[i]@) == named_apart(old(self)@.pending, name@).0,
            final(self)@ == (MinimalView {
                pending: named_apart(old(self)@.pending, name@).1,
                ..old(self)@
            }),
    {
        let ghost was = self@.pending;
        let mut out: Vec<MessageParams> = Vec::new();
        let mut i: usize = 0;
        let ghost mut done: int = 0;
        proof {
            assert(was.take(0) =~= Seq::empty());
            assert(Seq::new(out@.len(), |i: int| out@[i]@) =~= Seq::empty());
            assert(self@.pending.take(0) =~= Seq::empty());
            assert(self@.pending.skip(0) =~= was);
        }
        while i < self.pending.len()
            invariant
                i <= self.pending@.len(),
                0 <= done <= was.len(),
                self@.seq == old(self)@.seq,
                self@.rx == old(self)@.rx,
                self@.pending.len() == self.pending@.len(),
                Seq::new(out@.len(), |i: int| out@[i]@) == named_apart(was.take(done), name@).0,
                self@.pending.take(i as int) == named_apart(was.take(done), name@).1,
                self@.pending.skip(i as int) == was.skip(done),
            decreases self.pending@.len() - i,
        {
            let ghost now = self@.pending;
            let ghost sofar = Seq::new(out@.len(), |i: int| out@[i]@);
            proof {
                assert(now.skip(i as int).len() == was.skip(done).len());
                assert(now.skip(i as int)[0] == was.skip(done)[0]);
                assert(was.take(done + 1).drop_last() =~= was.take(done));
                assert(was.take(done + 1).last() == was[done]);
                assert(was.skip(done + 1) =~= was.skip(done).skip(1));
            }
            if same_text(self.pending[i].0.as_str(), name) {
                let (_, p) = self.pending.remove(i);
                proof {
                    assert(p@ == was[done].1);
                }
                out.push(p);
                proof {
                    assert(self@.pending =~= now.remove(i as int));
                    assert(self@.pending.take(i as int) =~= now.take(i as int));
                    assert(self@.pending.skip(i as int) =~= now.skip(i as int).skip(1));
                    assert(Seq::new(out@.len(), |i: int| out@[i]@) =~= sofar.push(p@));
                }
            } else {
                proof {
                    assert(now.take(i + 1) =~= now.take(i as int).push(now[i as int]));
                    assert(now.skip(i + 1) =~= now.skip(i as int).skip(1));
                }
                i += 1;
            }
            proof {
                done = done + 1;
            }
        }
        proof {
            assert(self@.pending.skip(i as int).len() == 0);
            assert(was.take(done) =~= was);
            assert(self@.pending.take(i as int) =~= self@.pending);
        }
        out
    }
}

/// Where the handshake stands after one exchange.
#[derive(Debug)]
pub enum MinimalStep {
    /// Ask for the next part, or for the same once more.
    Ask,
    /// The dictionary is complete.
    Done,
    Failed(TransportError),
}

/// When the response to a request is given up.
pub fn attempt_deadline(now: u64, deadline: u64) -> (r: u64)
    ensures
        r == if deadline < later(now, MINIMAL_ATTEMPT_TIME) {
            deadline
        } else {
            later(now, MINIMAL_ATTEMPT_TIME)
        },
{
    let attempt: u64 = now.saturating_add(MINIMAL_ATTEMPT_TIME);
    if deadline < attempt {
        deadline
    } else {
        attempt
    }
}

/// Takes the outcome of one exchange of the handshake in: a chunk for the end
/// of the dictionary is added to it, one for another place is dropped, an
/// empty one ends the dictionary, and none at all fails.
pub fn take_identify_response(
    data: &mut Vec<u8>,
    response: Option<(u32, Vec<u8>)>,
    now: u64,
    deadline: u64,
) -> (r: MinimalStep)
    ensures
        match response {
            None => r matches MinimalStep::Failed(e) && e@ == TransportErrorView::Parse(
                "identify timed out (Step-6 minimal shim, no NAK resync)"@,
            ) && final(data)@ == old(data)@,
            Some(c) => if c.0 != old(data)@.len() {
                final(data)@ == old(data)@ && r is Ask
            } else if c.1@.len() == 0 {
                final(data)@ == old(data)@ && r is Done
            } else {
                final(data)@ == old(data)@ + c.1@ && (if now >= deadline {
                    r matches MinimalStep::Failed(e) && e@ == TransportErrorView::Parse(
                        "identify exceeded 15s timeout"@,
                    )
                } else {
                    r is Ask
                })
            },
        },
{
    match response {
        None => MinimalStep::Failed(
            TransportError::Parse(
                copy_text("identify timed out (Step-6 minimal shim, no NAK resync)"),
            ),
        ),
        Some(c) => {
            if c.0 as u64 != data.len() as u64 {
                return MinimalStep::Ask;
            }
            if c.1.len() == 0 {
                return MinimalStep::Done;
            }
            data.extend_from_slice(c.1.as_slice());
            proof {
                assert(data@ =~= old(data)@ + c.1@);
            }
            if now >= deadline {
                MinimalStep::Failed(
                    TransportError::Parse(copy_text("identify exceeded 15s timeout")),
                )
            } else {
                MinimalStep::Ask
            }
        },
    }
}

/// A message that is asked for by its name is the oldest of that name.
pub proof fn law_oldest_of_a_name(p: Seq<(Seq<char>, ParamsView)>, name: Seq<char>)
    ensures
        match first_named(p, name) {
            Some(i) => 0 <= i < p.len() && p[i].0 == name && forall|j: int|
                0 <= j < i ==> (#[trigger] p[j]).0 != name,
            None => forall|j: int| 0 <= j < p.len() ==> (#[trigger] p[j]).0 != name,
        },
    decreases p.len(),
{
    if p.len() > 0 && p[0].0 != name {
        let t = p.skip(1);
        law_oldest_of_a_name(t, name);
        assert forall|j: int| 0 < j < p.len() implies #[trigger] p[j] == t[j - 1] by {}
    }
}

/// A message that is kept comes out by its name, behind those that were kept
/// before, and stays where another name is asked for.
pub proof fn law_kept_until_asked(
    p: Seq<(Seq<char>, ParamsView)>,
    name: Seq<char>,
    params: ParamsView,
    asked: Seq<char>,
)
    ensures
        ({
            let (hit, left) = named_apart(p, asked);
            let (hit2, left2) = named_apart(p.push((name, params)), asked);
            &&& name == asked ==> hit2 == hit.push(params) && left2 == left
            &&& name != asked ==> hit2 == hit && left2 == left.push((name, params))
            &&& hit.len() + left.len() == p.len()
            &&& named_apart(left, asked) == (Seq::<ParamsView>::empty(), left)
        }),
    decreases p.len(),
{
    let e = (name, params);
    assert(p.push(e).drop_last() =~= p);
    assert(p.push(e).last() == e);
    if p.len() > 0 {
        let d = p.drop_last();
        law_kept_until_asked(d, name, params, asked);
        let left = named_apart(d, asked).1;
        if p.last().0 != asked {
            assert(left.push(p.last()).drop_last() =~= left);
        }
    }
}

/// A request of the handshake is the number 0, the place and the count of forty.
pub proof fn law_minimal_request(offset: u32)
    ensures
        ({
            let p = minimal_request(offset as int);
            let n = vlq_len(offset as int) as int;
            &&& vlq_decoded(p) == Some((0int, 1int))
            &&& vlq_decoded(p.skip(1)) == Some((offset as int, n))
            &&& vlq_decoded(p.skip(1 + n)) == Some((40int, 1int))
        }),
{
    let p = minimal_request(offset as int);
    let n = vlq_len(offset as int) as int;
    law_vlq_round_trip(0, vlq_bytes(offset as int) + vlq_bytes(40));
    assert(vlq_bytes(0) =~= seq![0u8]);
    assert(p =~= vlq_bytes(0) + (vlq_bytes(offset as int) + vlq_bytes(40)));
    law_vlq_round_trip(offset as int, vlq_bytes(40));
    assert(p.skip(1) =~= vlq_bytes(offset as int) + vlq_bytes(40));
    law_vlq_round_trip(40, Seq::empty());
    assert(p.skip(1 + n) =~= vlq_bytes(40) + Seq::<u8>::empty());
}

} // verus!
