//! Signed variable-length integers: groups of seven bits, the highest group
//! first, with a continuation bit on every byte but the last.

use crate::host_io::parse_error::{ErrorView, ParseError};
use vstd::prelude::*;

verus! {

/// Whether a value can be written.
pub open spec fn vlq_fits(v: int) -> bool {
    i32::MIN <= v <= u32::MAX
}

/// How many bytes a value takes.
pub open spec fn vlq_len(v: int) -> nat {
    if v >= 0x0C00_0000 || v < -0x0400_0000 {
        5
    } else if v >= 0x0018_0000 || v < -0x0008_0000 {
        4
    } else if v >= 0x3000 || v < -0x1000 {
        3
    } else if v >= 0x60 || v < -0x20 {
        2
    } else {
        1
    }
}

/// The weight of the group that has `k` groups behind it.
pub open spec fn group_weight(k: int) -> int {
    if k == 0 {
        1
    } else if k == 1 {
        0x80
    } else if k == 2 {
        0x4000
    } else if k == 3 {
        0x20_0000
    } else {
        0x1000_0000
    }
}

/// The seven-bit group of a value that has `k` groups behind it.
pub open spec fn group(v: int, k: int) -> int {
    (v / group_weight(k)) % 128
}

/// The byte of a group: every group but the last carries the continuation bit.
pub open spec fn group_byte(v: int, k: int) -> u8 {
    if k == 0 {
        group(v, k) as u8
    } else {
        (group(v, k) + 128) as u8
    }
}

/// The bytes of a value.
pub open spec fn vlq_bytes(v: int) -> Seq<u8> {
    Seq::new(vlq_len(v), |i: int| group_byte(v, vlq_len(v) - 1 - i))
}

/// The number that a run of bytes holds: the first byte gives the sign, each
/// further byte seven more bits.
pub open spec fn vlq_value(s: Seq<u8>) -> int
    decreases s.len(),
{
    if s.len() == 0 {
        0
    } else if s.len() == 1 {
        if s[0] % 128 >= 0x60 {
            s[0] % 128 - 128
        } else {
            (s[0] % 128) as int
        }
    } else {
        vlq_value(s.drop_last()) * 128 + s.last() % 128
    }
}

/// How many of the bytes from place `i` on belong to one number, counted from
/// the start: up to the first without a continuation bit, at most five.
pub open spec fn vlq_end(s: Seq<u8>, i: int) -> Option<int>
    decreases 5 - i,
{
    if i >= 5 || i >= s.len() {
        None
    } else if s[i] < 128 {
        Some(i + 1)
    } else {
        vlq_end(s, i + 1)
    }
}

/// The number at the start of some bytes and the count of bytes it takes.
pub open spec fn vlq_decoded(s: Seq<u8>) -> Option<(int, int)> {
    match vlq_end(s, 0) {
        Some(n) => Some((vlq_value(s.take(n)), n)),
        None => None,
    }
}

/// A run of at most five bytes holds a number of less than 36 bits.
proof fn lemma_vlq_value_bounds(s: Seq<u8>)
    requires
        s.len() <= 5,
    ensures
        -0x8_0000_0000 <= vlq_value(s) < 0x8_0000_0000,
        s.len() <= 1 ==> -32 <= vlq_value(s) < 128,
        s.len() <= 2 ==> -0x1000 <= vlq_value(s) < 0x4000,
        s.len() <= 3 ==> -0x8_0000 <= vlq_value(s) < 0x20_0000,
        s.len() <= 4 ==> -0x400_0000 <= vlq_value(s) < 0x1000_0000,
    decreases s.len(),
{
    if s.len() >= 2 {
        lemma_vlq_value_bounds(s.drop_last());
    }
}

/// The decoded number fits well within an `i64`, and its bytes are there.
pub proof fn lemma_vlq_decoded_bounds(s: Seq<u8>)
    ensures
        match vlq_decoded(s) {
            Some(p) => -0x8_0000_0000 <= p.0 < 0x8_0000_0000 && 1 <= p.1 <= 5 && p.1 <= s.len(),
            None => true,
        },
{
    reveal_with_fuel(vlq_end, 6);
    match vlq_end(s, 0) {
        Some(n) => lemma_vlq_value_bounds(s.take(n)),
        None => {},
    }
}

/// Reads the number at the start of `buf`; gives it with the count of bytes it
/// takes.
pub fn decode_vlq(buf: &[u8]) -> (r: Result<(i64, usize), ParseError>)
    ensures
        match r {
            Ok(p) => vlq_decoded(buf@) == Some((p.0 as int, p.1 as int)) && p.1 <= buf@.len(),
            Err(e) => vlq_decoded(buf@) is None && e@ == ErrorView::BadVlq,
        },
{
    let mut value: i64 = 0;
    let mut i: usize = 0;
    while i < 5 && i < buf.len()
        invariant
            i <= 5,
            i <= buf.len(),
            vlq_end(buf@, 0) == vlq_end(buf@, i as int),
            value == vlq_value(buf@.take(i as int)),
        decreases 5 - i,
    {
        let b: u8 = buf[i];
        proof {
            lemma_vlq_value_bounds(buf@.take(i as int));
            assert(buf@.take(i + 1).drop_last() =~= buf@.take(i as int));
            assert(buf@.take(i + 1).last() == b);
        }
        let low: i64 = (b % 128) as i64;
        if i == 0 {
            value = if low >= 0x60 {
                low - 128
            } else {
                low
            };
        } else {
            value = value * 128 + low;
        }
        i += 1;
        if b < 128 {
            return Ok((value, i));
        }
    }
    Err(ParseError::BadVlq)
}

/// The group of a value that has `k` groups behind it.
fn group_of(value: i64, k: u8) -> (r: u8)
    requires
        vlq_fits(value as int),
        k <= 4,
    ensures
        r == group(value as int, k as int),
        r < 128,
{
    let shifted: u64 = (value + 0x8_0000_0000) as u64;
    let weight: u64 = if k == 0 {
        1
    } else if k == 1 {
        0x80
    } else if k == 2 {
        0x4000
    } else if k == 3 {
        0x20_0000
    } else {
        0x1000_0000
    };
    ((shifted / weight) % 128) as u8
}

/// Appends the bytes of `value`.
pub fn encode_vlq(out: &mut Vec<u8>, value: i64) -> (r: Result<(), ParseError>)
    ensures
        match r {
            Ok(_) => vlq_fits(value as int) && final(out)@ == old(out)@ + vlq_bytes(value as int),
            Err(e) => !vlq_fits(value as int) && final(out)@ == old(out)@ && e@
                == vlq_range_error(value),
        },
{
    if value < -0x8000_0000 || value > 0xFFFF_FFFF {
        return Err(ParseError::OutOfRange { value, range: "[i32::MIN, u32::MAX]" });
    }
    let ghost v = value as int;
    if value >= 0x0C00_0000 || value < -0x0400_0000 {
        let g: u8 = group_of(value, 4);
        out.push(g + 128);
    }
    if value >= 0x0018_0000 || value < -0x0008_0000 {
        let g: u8 = group_of(value, 3);
        out.push(g + 128);
    }
    if value >= 0x3000 || value < -0x1000 {
        let g: u8 = group_of(value, 2);
        out.push(g + 128);
    }
    if value >= 0x60 || value < -0x20 {
        let g: u8 = group_of(value, 1);
        out.push(g + 128);
    }
    let g: u8 = group_of(value, 0);
    out.push(g);
    proof {
        assert(out@ =~= old(out)@ + vlq_bytes(v));
    }
    Ok(())
}

/// The error for a value that cannot be written.
pub open spec fn vlq_range_error(value: i64) -> ErrorView {
    ErrorView::OutOfRange { value, range: "[i32::MIN, u32::MAX]"@ }
}

/// The first `m` bytes of a written value hold the value without the groups
/// behind them.
proof fn lemma_vlq_prefix(v: int, m: int)
    requires
        vlq_fits(v),
        1 <= m <= vlq_len(v),
    ensures
        vlq_value(vlq_bytes(v).take(m)) == v / group_weight(vlq_len(v) - m),
    decreases m,
{
    let n = vlq_len(v) as int;
    let b = vlq_bytes(v);
    let k = n - m;
    assert(b.take(m).last() == group_byte(v, k));
    if m == 1 {
        assert(-32 <= v / group_weight(k) < 96);
    } else {
        lemma_vlq_prefix(v, m - 1);
        assert(b.take(m).drop_last() =~= b.take(m - 1));
        assert(v / group_weight(k) == (v / group_weight(k + 1)) * 128 + group(v, k));
    }
}

/// The bytes of a value end where its last group stands.
proof fn lemma_vlq_end(v: int, rest: Seq<u8>, i: int)
    requires
        vlq_fits(v),
        0 <= i < vlq_len(v),
    ensures
        vlq_end(vlq_bytes(v) + rest, i) == Some(vlq_len(v) as int),
    decreases vlq_len(v) - i,
{
    let n = vlq_len(v) as int;
    let s = vlq_bytes(v) + rest;
    assert(s[i] == vlq_bytes(v)[i]);
    assert(s[i] == group_byte(v, n - 1 - i));
    if i < n - 1 {
        lemma_vlq_end(v, rest, i + 1);
    }
}

/// Reading gives back what writing wrote, whatever follows: the number and the
/// count of its bytes.
pub proof fn law_vlq_round_trip(v: int, rest: Seq<u8>)
    requires
        vlq_fits(v),
    ensures
        vlq_decoded(vlq_bytes(v) + rest) == Some((v, vlq_len(v) as int)),
{
    let n = vlq_len(v) as int;
    assert((vlq_bytes(v) + rest).take(n) =~= vlq_bytes(v).take(n));
    lemma_vlq_end(v, rest, 0);
    lemma_vlq_prefix(v, n);
}

} // verus!
