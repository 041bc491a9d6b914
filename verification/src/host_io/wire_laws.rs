//! What frames and their checksum promise.

use crate::host_io::wire::{
    crc16, crc_step, extracted, frame_head, framed, front, joined, law_frame_round_trip, Front,
};
use vstd::prelude::*;

verus! {

/// One bit of a division by the polynomial x^16 + x^12 + x^5 + 1, the lowest
/// bit first.
pub open spec fn bit_divided(c: u16) -> u16 {
    if c & 1 == 1 {
        (c >> 1) ^ 0x8408
    } else {
        c >> 1
    }
}

/// The eight bits of a byte, divided one after the other.
pub open spec fn byte_divided(c: u16) -> u16 {
    bit_divided(
        bit_divided(
            bit_divided(bit_divided(bit_divided(bit_divided(bit_divided(bit_divided(c))))))),
    )
}

/// The remainder that some bytes leave, from all ones on.
pub open spec fn remainder(b: Seq<u8>) -> u16
    decreases b.len(),
{
    if b.len() == 0 {
        0xFFFF
    } else {
        byte_divided(remainder(b.drop_last()) ^ (b.last() as u16))
    }
}

/// The checksum is the remainder of a division by the CCITT polynomial, bit for
/// bit.
pub proof fn law_checksum_is_remainder(b: Seq<u8>)
    ensures
        crc16(b) == remainder(b),
    decreases b.len(),
{
    if b.len() > 0 {
        law_checksum_is_remainder(b.drop_last());
        let c = crc16(b.drop_last());
        let x = b.last();
        assert(crc_step(c, x) == byte_divided(c ^ (x as u16))) by (bit_vector);
    }
}

/// Bytes of which exactly one differs have different checksums: whatever
/// happens to a single byte is noticed.
pub proof fn law_checksum_notices_a_byte(a: Seq<u8>, b: Seq<u8>, i: int)
    requires
        a.len() == b.len(),
        0 <= i < a.len(),
        a[i] != b[i],
        forall|j: int| 0 <= j < a.len() && j != i ==> a[j] == b[j],
    ensures
        crc16(a) != crc16(b),
    decreases a.len(),
{
    let c = crc16(a.drop_last());
    let d = crc16(b.drop_last());
    let x = a.last();
    let y = b.last();
    if i == a.len() - 1 {
        assert(a.drop_last() =~= b.drop_last());
        assert(crc_step(c, x) != crc_step(c, y)) by (bit_vector)
            requires
                x != y,
        ;
    } else {
        law_checksum_notices_a_byte(a.drop_last(), b.drop_last(), i);
        assert(crc_step(c, x) != crc_step(d, x)) by (bit_vector)
            requires
                c != d,
        ;
    }
}

/// What stands where in a frame: its own length, the sequence below a one, the
/// payload, the checksum with its high byte first, and the sync byte.
pub proof fn law_frame_layout(payload: Seq<u8>, seq: u8)
    requires
        payload.len() <= 59,
    ensures
        ({
            let f = framed(payload, seq);
            let n = f.len() as int;
            &&& n == payload.len() + 5
            &&& f[0] == n
            &&& f[1] == 16 + seq % 16
            &&& f.subrange(2, n - 3) == payload
            &&& f[n - 3] * 256 + f[n - 2] == remainder(f.take(n - 3))
            &&& f[n - 1] == 0x7E
        }),
{
    let f = framed(payload, seq);
    let n = f.len() as int;
    let head = frame_head(payload, seq);
    let c = crc16(head);
    assert(f.take(n - 3) =~= head);
    law_checksum_is_remainder(head);
    assert((seq & 0x0F) | 0x10 == 16 + seq % 16) by (bit_vector);
    assert((c >> 8) as u8 == c / 256 && (c & 0xFF) as u8 == c % 256) by (bit_vector);
    assert(f.subrange(2, n - 3) =~= payload);
}

/// Whether a whole frame stands at a place of some bytes.
pub open spec fn frame_at(b: Seq<u8>, k: int) -> bool {
    let n = b[k] as int;
    &&& 0 <= k < b.len()
    &&& 5 <= n <= 64
    &&& k + n <= b.len()
    &&& b[k + 1] / 16 == 1
    &&& b[k + n - 1] == 0x7E
    &&& b[k + n - 3] * 256 + b[k + n - 2] == remainder(b.subrange(k, k + n - 3))
}

proof fn lemma_front(b: Seq<u8>)
    requires
        b.len() > 0,
    ensures
        (front(b) == Front::Whole) == frame_at(b, 0),
        front(b) == Front::Partial ==> 5 <= b[0] <= 64 && b.len() < b[0],
        5 <= b[0] <= 64 && b.len() < b[0] ==> front(b) == Front::Partial,
{
    let n = b[0] as int;
    if 5 <= n <= 64 && n <= b.len() {
        let x = b[1];
        let h = b[n - 3];
        let l = b[n - 2];
        assert((x & 0xF0 == 0x10) == (x / 16 == 1)) by (bit_vector);
        assert(((h as u16) << 8) | (l as u16) == h * 256 + l) by (bit_vector);
        assert(b.take(n - 3) =~= b.subrange(0, n - 3));
        law_checksum_is_remainder(b.take(n - 3));
    }
}

proof fn lemma_frame_at_skip(b: Seq<u8>, m: int, k: int)
    requires
        0 <= m <= b.len(),
        0 <= k,
    ensures
        frame_at(b.skip(m), k) == frame_at(b, m + k),
{
    let c = b.skip(m);
    if k < c.len() {
        let n = c[k] as int;
        if 5 <= n <= 64 && k + n <= c.len() {
            assert(c.subrange(k, k + n - 3) =~= b.subrange(m + k, m + k + n - 3));
        }
    }
}

/// What is taken out of received bytes is the first whole frame in them, and
/// what is kept is what follows it. Where there is none, nothing but a start
/// of one is kept, and no frame is thrown away.
pub proof fn law_first_frame_is_taken(b: Seq<u8>, least: int)
    requires
        least <= 5,
    ensures
        ({
            let (r, kept) = extracted(b, least);
            match r {
                Some(p) => {
                    let k = b.len() - kept.len() - p.len();
                    &&& frame_at(b, k)
                    &&& p == b.subrange(k, k + b[k])
                    &&& kept == b.skip(k + b[k])
                    &&& forall|j: int| 0 <= j < k ==> !#[trigger] frame_at(b, j)
                },
                None => {
                    let k = b.len() - kept.len();
                    &&& 0 <= k
                    &&& kept == b.skip(k)
                    &&& forall|j: int| 0 <= j <= k ==> !#[trigger] frame_at(b, j)
                    &&& kept.len() == 0 || kept.len() < least || (5 <= kept[0] <= 64 && kept.len()
                        < kept[0])
                },
            }
        }),
    decreases b.len(),
{
    if b.len() == 0 || b.len() < least {
        assert(b.skip(0) =~= b);
    } else {
        lemma_front(b);
        if front(b) == Front::Junk {
            let c = b.skip(1);
            law_first_frame_is_taken(c, least);
            let (r, kept) = extracted(c, least);
            match r {
                Some(p) => {
                    let k = b.len() - kept.len() - p.len();
                    lemma_frame_at_skip(b, 1, k - 1);
                    assert(p =~= b.subrange(k, k + b[k]));
                    assert(kept =~= b.skip(k + b[k]));
                    assert forall|j: int| 0 <= j < k implies !#[trigger] frame_at(b, j) by {
                        if j > 0 {
                            lemma_frame_at_skip(b, 1, j - 1);
                        }
                    }
                },
                None => {
                    let k = b.len() - kept.len();
                    assert(kept =~= b.skip(k));
                    assert forall|j: int| 0 <= j <= k implies !#[trigger] frame_at(b, j) by {
                        if j > 0 {
                            lemma_frame_at_skip(b, 1, j - 1);
                        }
                    }
                },
            }
        } else if front(b) == Front::Partial {
            assert(b.skip(0) =~= b);
        } else {
            assert(b.take(b[0] as int) =~= b.subrange(0, b[0] as int));
        }
    }
}

/// A frame of which one byte behind the length was changed is not taken for a
/// frame.
pub proof fn law_damaged_frame_is_junk(payload: Seq<u8>, seq: u8, i: int, x: u8, rest: Seq<u8>)
    requires
        payload.len() <= 59,
        1 <= i < payload.len() + 5,
        x != framed(payload, seq)[i],
    ensures
        !frame_at(framed(payload, seq).update(i, x) + rest, 0),
{
    law_frame_layout(payload, seq);
    let f = framed(payload, seq);
    let n = f.len() as int;
    let g = f.update(i, x);
    let b = g + rest;
    assert(b.subrange(0, n - 3) =~= g.take(n - 3));
    if i < n - 3 {
        law_checksum_notices_a_byte(f.take(n - 3), g.take(n - 3), i);
        law_checksum_is_remainder(f.take(n - 3));
        law_checksum_is_remainder(g.take(n - 3));
    } else {
        assert(g.take(n - 3) =~= f.take(n - 3));
    }
}

/// The bytes that are left once some frames were taken out.
pub open spec fn after_frames(b: Seq<u8>, n: nat) -> Seq<u8>
    decreases n,
{
    if n == 0 {
        b
    } else {
        extracted(after_frames(b, (n - 1) as nat), 1).1
    }
}

/// The frame that is taken out once `n` were taken out before.
pub open spec fn nth_frame(b: Seq<u8>, n: nat) -> Option<Seq<u8>> {
    extracted(after_frames(b, n), 1).0
}

proof fn lemma_joined_front(rows: Seq<Seq<u8>>)
    requires
        rows.len() > 0,
    ensures
        joined(rows) == rows[0] + joined(rows.skip(1)),
    decreases rows.len(),
{
    if rows.len() == 1 {
        assert(rows.drop_last() =~= Seq::empty());
        assert(rows.skip(1) =~= Seq::empty());
        assert(joined(rows) =~= rows[0] + joined(rows.skip(1)));
    } else {
        lemma_joined_front(rows.drop_last());
        assert(rows.drop_last().skip(1) =~= rows.skip(1).drop_last());
        assert(joined(rows) =~= rows[0] + joined(rows.skip(1)));
    }
}

proof fn lemma_after_frames(b: Seq<u8>, c: Seq<u8>, n: nat)
    requires
        extracted(b, 1).1 == c,
    ensures
        after_frames(b, n + 1) == after_frames(c, n),
    decreases n,
{
    if n == 0 {
        assert(after_frames(b, 0) == b);
    } else {
        lemma_after_frames(b, c, (n - 1) as nat);
    }
}

/// Frames that are sent one behind the other come out one by one, in the order
/// in which they were sent, whatever follows.
pub proof fn law_frames_come_out_in_order(
    payloads: Seq<Seq<u8>>,
    seqs: Seq<u8>,
    rest: Seq<u8>,
    i: nat,
)
    requires
        payloads.len() == seqs.len(),
        forall|k: int| 0 <= k < payloads.len() ==> (#[trigger] payloads[k]).len() <= 59,
        i < payloads.len(),
    ensures
        ({
            let rows = Seq::new(payloads.len(), |k: int| framed(payloads[k], seqs[k]));
            nth_frame(joined(rows) + rest, i) == Some(framed(payloads[i as int], seqs[i as int]))
        }),
    decreases payloads.len(),
{
    let rows = Seq::new(payloads.len(), |k: int| framed(payloads[k], seqs[k]));
    let more = Seq::new(
        payloads.skip(1).len(),
        |k: int| framed(payloads.skip(1)[k], seqs.skip(1)[k]),
    );
    assert(rows.skip(1) =~= more);
    lemma_joined_front(rows);
    let b = joined(rows) + rest;
    let c = joined(more) + rest;
    assert(b =~= rows[0] + c);
    assert(payloads[0].len() <= 59);
    law_frame_round_trip(payloads[0], seqs[0], c, 1);
    if i > 0 {
        assert forall|k: int| 0 <= k < payloads.skip(1).len() implies (#[trigger] payloads.skip(
            1,
        )[k]).len() <= 59 by {
            assert(payloads.skip(1)[k] == payloads[k + 1]);
        }
        law_frames_come_out_in_order(payloads.skip(1), seqs.skip(1), rest, (i - 1) as nat);
        lemma_after_frames(b, c, (i - 1) as nat);
    }
}

/// A byte that starts no frame makes no difference to the frames behind it.
pub proof fn law_junk_is_passed_over(x: u8, b: Seq<u8>, n: nat)
    requires
        x < 5 || x > 64,
    ensures
        nth_frame(seq![x] + b, n) == nth_frame(b, n),
    decreases n,
{
    let c = seq![x] + b;
    assert(c.skip(1) =~= b);
    assert(front(c) == Front::Junk);
    assert(extracted(c, 1) == extracted(b, 1));
    if n > 0 {
        let d = extracted(b, 1).1;
        lemma_after_frames(c, d, (n - 1) as nat);
        lemma_after_frames(b, d, (n - 1) as nat);
    }
}

} // verus!
