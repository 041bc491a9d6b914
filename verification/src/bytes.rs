//! Little-endian numbers in bytes.

use vstd::prelude::*;

verus! {

/// The low `n` bytes of a number, lowest first.
pub open spec fn le_bytes(v: int, n: nat) -> Seq<u8>
    decreases n,
{
    if n == 0 {
        Seq::empty()
    } else {
        seq![(v % 256) as u8] + le_bytes(v / 256, (n - 1) as nat)
    }
}

/// The number that bytes hold, lowest first.
pub open spec fn le_value(b: Seq<u8>) -> int
    decreases b.len(),
{
    if b.len() == 0 {
        0
    } else {
        b[0] + 256 * le_value(b.skip(1))
    }
}

/// How many numbers `n` bytes can hold.
pub open spec fn le_limit(n: nat) -> int
    decreases n,
{
    if n == 0 {
        1
    } else {
        256 * le_limit((n - 1) as nat)
    }
}

/// Appends the low `n` bytes of a number, lowest first.
pub fn push_le(out: &mut Vec<u8>, v: u64, n: usize)
    ensures
        final(out)@ == old(out)@ + le_bytes(v as int, n as nat),
{
    let mut left: u64 = v;
    let mut k: usize = n;
    while k > 0
        invariant
            out@ + le_bytes(left as int, k as nat) == old(out)@ + le_bytes(v as int, n as nat),
        decreases k,
    {
        let ghost was = out@;
        let ghost tail = le_bytes((left / 256) as int, (k - 1) as nat);
        let low: u8 = (left % 256) as u8;
        out.push(low);
        proof {
            assert(out@ + tail =~= was + (seq![low] + tail));
        }
        left = left / 256;
        k -= 1;
    }
    proof {
        assert(out@ + Seq::<u8>::empty() =~= out@);
    }
}

/// Reads `n` bytes as a number, lowest first.
pub fn read_le(b: &[u8], at: usize, n: usize) -> (r: u64)
    requires
        n <= 8,
        at + n <= b@.len(),
    ensures
        r == le_value(b@.subrange(at as int, at + n)),
        r < le_limit(n as nat),
{
    let ghost all = b@.subrange(at as int, at + n);
    proof {
        lemma_le_value_bound(all.skip(n as int));
        assert(le_limit(0) == 1);
    }
    let len: usize = b.len();
    let mut v: u64 = 0;
    let mut k: usize = n;
    while k > 0
        invariant
            k <= n <= 8,
            len == b@.len(),
            at + n <= len,
            all == b@.subrange(at as int, at + n),
            v == le_value(all.skip(k as int)),
            v < le_limit((n - k) as nat),
        decreases k,
    {
        k -= 1;
        proof {
            assert(all.skip(k as int).skip(1) =~= all.skip(k + 1));
            assert(all.skip(k as int)[0] == b@[at + k]);
            lemma_limits();
            assert(le_limit((n - k) as nat) == 256 * le_limit((n - k - 1) as nat));
        }
        v = v * 256 + b[at + k] as u64;
    }
    proof {
        assert(all.skip(0) =~= all);
    }
    v
}

/// The limits of up to eight bytes.
pub(crate) proof fn lemma_limits()
    ensures
        le_limit(0) == 1,
        le_limit(1) == 0x100,
        le_limit(2) == 0x1_0000,
        le_limit(3) == 0x100_0000,
        le_limit(4) == 0x1_0000_0000,
        le_limit(5) == 0x100_0000_0000,
        le_limit(6) == 0x1_0000_0000_0000,
        le_limit(7) == 0x100_0000_0000_0000,
        le_limit(8) == 0x1_0000_0000_0000_0000,
{
    reveal_with_fuel(le_limit, 9);
}

proof fn lemma_le_value_bound(b: Seq<u8>)
    ensures
        0 <= le_value(b) < le_limit(b.len()),
    decreases b.len(),
{
    if b.len() > 0 {
        lemma_le_value_bound(b.skip(1));
    }
}

/// A number reads back as it was written, in as many bytes as it needs.
pub proof fn law_le_round_trip(v: int, n: nat)
    requires
        0 <= v < le_limit(n),
    ensures
        le_bytes(v, n).len() == n,
        le_value(le_bytes(v, n)) == v,
    decreases n,
{
    if n > 0 {
        let tail = le_bytes(v / 256, (n - 1) as nat);
        law_le_round_trip(v / 256, (n - 1) as nat);
        assert(le_bytes(v, n).skip(1) =~= tail);
    }
}

/// The lowest byte of a number comes first, and each further one counts 256
/// times as much, whatever the number's sign.
pub proof fn law_lowest_byte_first(v: int)
    ensures
        le_bytes(v, 2) == seq![(v % 0x100) as u8, (v / 0x100 % 0x100) as u8],
        le_bytes(v, 4) == seq![
            (v % 0x100) as u8,
            (v / 0x100 % 0x100) as u8,
            (v / 0x1_0000 % 0x100) as u8,
            (v / 0x100_0000 % 0x100) as u8,
        ],
        le_bytes(v, 8) == le_bytes(v, 4) + le_bytes(v / 0x1_0000_0000, 4),
{
    reveal_with_fuel(le_bytes, 9);
    assert(v / 0x100 / 0x100 == v / 0x1_0000);
    assert(v / 0x1_0000 / 0x100 == v / 0x100_0000);
    assert(v / 0x100_0000 / 0x100 == v / 0x1_0000_0000);
    assert(le_bytes(v, 2) =~= seq![(v % 0x100) as u8, (v / 0x100 % 0x100) as u8]);
    assert(le_bytes(v, 4) =~= seq![
        (v % 0x100) as u8,
        (v / 0x100 % 0x100) as u8,
        (v / 0x1_0000 % 0x100) as u8,
        (v / 0x100_0000 % 0x100) as u8,
    ]);
    assert(le_bytes(v, 8) =~= le_bytes(v, 4) + le_bytes(v / 0x1_0000_0000, 4));
}

/// Bytes are read back with the lowest first.
pub proof fn law_read_lowest_first(b: Seq<u8>)
    ensures
        b.len() == 4 ==> le_value(b) == b[0] + 0x100 * b[1] + 0x1_0000 * b[2] + 0x100_0000 * b[3],
        b.len() == 8 ==> le_value(b) == b[0] + 0x100 * b[1] + 0x1_0000 * b[2] + 0x100_0000 * b[3]
            + 0x1_0000_0000 * b[4] + 0x100_0000_0000 * b[5] + 0x1_0000_0000_0000 * b[6]
            + 0x100_0000_0000_0000 * b[7],
{
    reveal_with_fuel(le_value, 9);
}

} // verus!
