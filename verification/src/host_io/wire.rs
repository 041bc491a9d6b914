//! Frames on the wire: length, sequence, payload, checksum, sync byte.

use vstd::prelude::*;

verus! {

/// The bytes of a frame without a payload.
pub const MESSAGE_MIN: usize = 5;

/// The bytes of a frame before its payload.
pub const MESSAGE_HEADER_SIZE: usize = 2;

/// The bytes of a frame behind its payload.
pub const MESSAGE_TRAILER_SIZE: usize = 3;

/// The bits of the sequence byte that hold the sequence.
pub const MESSAGE_SEQ_MASK: u8 = 0x0F;

/// The upper bits of the sequence byte.
pub const MESSAGE_DEST: u8 = 0x10;

/// The last byte of a frame.
pub const MESSAGE_SYNC: u8 = 0x7E;

/// The bytes of the longest frame.
pub const MESSAGE_MAX: usize = 64;

/// The bytes of the longest payload.
pub const MESSAGE_PAYLOAD_MAX: usize = 59;

/// A checksum with one byte more.
pub open spec fn crc_step(crc: u16, byte: u8) -> u16 {
    let mixed = (byte as u16) ^ (crc & 0x00FF);
    let data = (mixed ^ ((mixed << 4) & 0x00FF)) & 0xFF;
    (crc >> 8) ^ (data << 8) ^ (data << 3) ^ (data >> 4)
}

/// The checksum of some bytes.
pub open spec fn crc16(b: Seq<u8>) -> u16
    decreases b.len(),
{
    if b.len() == 0 {
        0xFFFF
    } else {
        crc_step(crc16(b.drop_last()), b.last())
    }
}

/// The checksum of some bytes.
pub fn crc16_ccitt(buf: &[u8]) -> (r: u16)
    ensures
        r == crc16(buf@),
{
    let mut crc: u16 = 0xFFFF;
    let mut i: usize = 0;
    while i < buf.len()
        invariant
            i <= buf@.len(),
            crc == crc16(buf@.take(i as int)),
        decreases buf@.len() - i,
    {
        let mixed: u16 = (buf[i] as u16) ^ (crc & 0x00FF);
        let data: u16 = (mixed ^ ((mixed << 4) & 0x00FF)) & 0xFF;
        crc = (crc >> 8) ^ (data << 8) ^ (data << 3) ^ (data >> 4);
        proof {
            assert(buf@.take(i + 1).drop_last() =~= buf@.take(i as int));
        }
        i += 1;
    }
    proof {
        assert(buf@.take(buf@.len() as int) =~= buf@);
    }
    crc
}

/// The length and the sequence byte of a frame, and its payload. The length
/// is cut to one byte.
pub open spec fn frame_head(payload: Seq<u8>, seq: u8) -> Seq<u8> {
    seq![((5 + payload.len()) % 256) as u8, (seq & 0x0F) | 0x10] + payload
}

/// The frame of a payload.
pub open spec fn framed(payload: Seq<u8>, seq: u8) -> Seq<u8> {
    let head = frame_head(payload, seq);
    head + seq![(crc16(head) >> 8) as u8, (crc16(head) & 0xFF) as u8, 0x7Eu8]
}

/// Builds the frame of a payload.
pub fn build_frame(payload: &[u8], seq: u8) -> (r: Vec<u8>)
    ensures
        r@ == framed(payload@, seq),
{
    let msglen: u8 = ((payload.len() % 256 + MESSAGE_MIN) % 256) as u8;
    let mut frame: Vec<u8> = Vec::new();
    frame.push(msglen);
    frame.push((seq & MESSAGE_SEQ_MASK) | MESSAGE_DEST);
    frame.extend_from_slice(payload);
    proof {
        assert(frame@ =~= frame_head(payload@, seq));
    }
    let crc: u16 = crc16_ccitt(frame.as_slice());
    frame.push(
        #[verifier::truncate]
        ((crc >> 8) as u8),
    );
    frame.push(
        #[verifier::truncate]
        ((crc & 0xFF) as u8),
    );
    frame.push(MESSAGE_SYNC);
    proof {
        assert(frame@ =~= framed(payload@, seq));
    }
    frame
}

/// What stands at the front of received bytes.
#[derive(Debug, Clone, Copy, PartialEq, Eq, Structural)]
pub enum Front {
    /// The start of a frame whose end has not come yet.
    Partial,
    /// A byte that starts no frame.
    Junk,
    /// A whole frame.
    Whole,
}

/// What stands at the front of received bytes.
pub open spec fn front(b: Seq<u8>) -> Front {
    let n = b[0] as int;
    if n < 5 || n > 64 {
        Front::Junk
    } else if b.len() < n {
        Front::Partial
    } else if b[1] & 0xF0 != 0x10 || b[n - 1] != 0x7E {
        Front::Junk
    } else if ((b[n - 3] as u16) << 8) | (b[n - 2] as u16) != crc16(b.take(n - 3)) {
        Front::Junk
    } else {
        Front::Whole
    }
}

/// The first frame among received bytes, and the bytes that are kept: junk
/// before a frame is dropped, a partial frame stays. Nothing is looked at
/// before `least` bytes are there.
pub open spec fn extracted(b: Seq<u8>, least: int) -> (Option<Seq<u8>>, Seq<u8>)
    decreases b.len(),
{
    if b.len() == 0 || b.len() < least {
        (None, b)
    } else {
        match front(b) {
            Front::Partial => (None, b),
            Front::Junk => extracted(b.skip(1), least),
            Front::Whole => (Some(b.take(b[0] as int)), b.skip(b[0] as int)),
        }
    }
}

/// Looks at the front of received bytes.
fn look(buf: &Vec<u8>) -> (r: Front)
    requires
        buf@.len() > 0,
    ensures
        r == front(buf@),
        r == Front::Whole ==> 5 <= buf@[0] <= buf@.len(),
{
    let n: usize = buf[0] as usize;
    if n < MESSAGE_MIN || n > MESSAGE_MAX {
        return Front::Junk;
    }
    if buf.len() < n {
        return Front::Partial;
    }
    if buf[1] & 0xF0 != MESSAGE_DEST || buf[n - 1] != MESSAGE_SYNC {
        return Front::Junk;
    }
    let at: usize = n - MESSAGE_TRAILER_SIZE;
    let want: u16 = ((buf[at] as u16) << 8) | (buf[at + 1] as u16);
    let head: &[u8] = vstd::slice::slice_subrange(buf.as_slice(), 0, at);
    proof {
        assert(head@ =~= buf@.take(n - 3));
    }
    if want != crc16_ccitt(head) {
        return Front::Junk;
    }
    Front::Whole
}

/// Takes the first frame out of received bytes, once `least` bytes are there.
pub fn extract_packet_from(buf: &mut Vec<u8>, least: usize) -> (r: Option<Vec<u8>>)
    ensures
        match r {
            Some(p) => extracted(old(buf)@, least as int) == (Some(p@), final(buf)@),
            None => extracted(old(buf)@, least as int) == (None::<Seq<u8>>, final(buf)@),
        },
{
    while buf.len() > 0 && buf.len() >= least
        invariant
            extracted(buf@, least as int) == extracted(old(buf)@, least as int),
        decreases buf@.len(),
    {
        match look(buf) {
            Front::Partial => return None,
            Front::Junk => {
                let ghost was = buf@;
                buf.remove(0);
                proof {
                    assert(buf@ =~= was.skip(1));
                }
            },
            Front::Whole => {
                let ghost was = buf@;
                let n: usize = buf[0] as usize;
                let whole: &[u8] = buf.as_slice();
                let packet: Vec<u8> = vstd::slice::slice_to_vec(
                    vstd::slice::slice_subrange(whole, 0, n),
                );
                let rest: Vec<u8> = vstd::slice::slice_to_vec(
                    vstd::slice::slice_subrange(whole, n, whole.len()),
                );
                *buf = rest;
                proof {
                    assert(packet@ =~= was.take(n as int));
                    assert(buf@ =~= was.skip(n as int));
                }
                return Some(packet);
            },
        }
    }
    None
}

/// Takes the first frame out of received bytes.
pub fn extract_packet(buf: &mut Vec<u8>) -> (r: Option<Vec<u8>>)
    ensures
        match r {
            Some(p) => extracted(old(buf)@, 1) == (Some(p@), final(buf)@),
            None => extracted(old(buf)@, 1) == (None::<Seq<u8>>, final(buf)@),
        },
{
    extract_packet_from(buf, 1)
}

/// Rows of bytes, one behind the other.
pub open spec fn joined(rows: Seq<Seq<u8>>) -> Seq<u8>
    decreases rows.len(),
{
    if rows.len() == 0 {
        Seq::empty()
    } else {
        joined(rows.drop_last()) + rows.last()
    }
}

/// Byte slices, as models.
pub open spec fn slice_rows<'a>(v: Seq<&'a [u8]>) -> Seq<Seq<u8>> {
    Seq::new(v.len(), |i: int| v[i]@)
}

/// The bytes of a retransmission: a sync byte, then every frame.
pub fn build_retransmit_buffer<'a>(frames: &[&'a [u8]]) -> (r: Vec<u8>)
    ensures
        r@ == seq![0x7Eu8] + joined(slice_rows(frames@)),
{
    let ghost rows = slice_rows(frames@);
    let mut buf: Vec<u8> = Vec::new();
    buf.push(MESSAGE_SYNC);
    proof {
        assert(buf@ =~= seq![0x7Eu8] + Seq::<u8>::empty());
    }
    let mut i: usize = 0;
    while i < frames.len()
        invariant
            i <= frames@.len(),
            rows == slice_rows(frames@),
            buf@ == seq![0x7Eu8] + joined(rows.take(i as int)),
        decreases frames@.len() - i,
    {
        let ghost was = joined(rows.take(i as int));
        buf.extend_from_slice(frames[i]);
        proof {
            assert(rows.take(i + 1).drop_last() =~= rows.take(i as int));
            assert(rows.take(i + 1).last() == frames@[i as int]@);
            assert(buf@ =~= seq![0x7Eu8] + (was + frames@[i as int]@));
        }
        i += 1;
    }
    proof {
        assert(rows.take(rows.len() as int) =~= rows);
    }
    buf
}

/// The first sequence from `receive_seq` on, modulo 2^64, whose low four bits
/// are those of `nibble`.
pub open spec fn absolute(receive_seq: u64, nibble: u8) -> int {
    (receive_seq + (nibble - receive_seq) % 16) % 0x1_0000_0000_0000_0000
}

/// The full sequence that four bits of one stand for.
pub fn decode_absolute(receive_seq: u64, nibble: u8) -> (r: u64)
    ensures
        r == absolute(receive_seq, nibble),
{
    let want: u64 = (nibble % 16) as u64;
    let have: u64 = receive_seq % 16;
    let ahead: u64 = (want + 16 - have) % 16;
    proof {
        assert(ahead as int == (nibble - receive_seq) % 16);
    }
    receive_seq.wrapping_add(ahead)
}

/// A decoded sequence carries the four bits that were decoded, and lies at
/// most fifteen past the sequence that was expected.
pub proof fn law_absolute(receive_seq: u64, nibble: u8)
    requires
        receive_seq <= u64::MAX - 15,
    ensures
        receive_seq <= absolute(receive_seq, nibble) <= receive_seq + 15,
        absolute(receive_seq, nibble) % 16 == nibble % 16,
{
}

/// A frame that was built is the frame that is taken out, and what follows it
/// is kept.
pub proof fn law_frame_round_trip(payload: Seq<u8>, seq: u8, rest: Seq<u8>, least: int)
    requires
        payload.len() <= 59,
        least <= 5,
    ensures
        extracted(framed(payload, seq) + rest, least) == (Some(framed(payload, seq)), rest),
{
    let f = framed(payload, seq);
    let b = f + rest;
    let head = frame_head(payload, seq);
    let c = crc16(head);
    let n = 5 + payload.len();
    assert(b[0] == n);
    assert(((seq & 0x0F) | 0x10) & 0xF0 == 0x10) by (bit_vector);
    assert((((c >> 8) as u8) as u16) << 8 | ((c & 0xFF) as u8) as u16 == c) by (bit_vector);
    assert(b.take(n - 3) =~= head);
    assert(b[1] == (seq & 0x0F) | 0x10);
    assert(front(b) == Front::Whole);
    assert(b.take(n as int) =~= f);
    assert(b.skip(n as int) =~= rest);
}

/// It makes no difference where received bytes are cut: what is kept for want
/// of a whole frame, with the bytes that come next, gives what all the bytes
/// at once give.
pub proof fn law_partial_frames(b: Seq<u8>, more: Seq<u8>, least: int)
    requires
        extracted(b, least).0 is None,
    ensures
        extracted(extracted(b, least).1 + more, least) == extracted(b + more, least),
    decreases b.len(),
{
    if b.len() > 0 && b.len() >= least && front(b) == Front::Junk {
        let n = b[0] as int;
        let c = b + more;
        assert(c[0] == b[0]);
        if 5 <= n <= 64 && n <= b.len() {
            assert(c.take(n - 3) =~= b.take(n - 3));
            assert(c[1] == b[1] && c[n - 1] == b[n - 1] && c[n - 2] == b[n - 2] && c[n - 3] == b[n
                - 3]);
        }
        assert(front(c) == Front::Junk);
        assert(c.skip(1) =~= b.skip(1) + more);
        law_partial_frames(b.skip(1), more, least);
    }
}

} // verus!
