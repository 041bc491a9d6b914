//! The ring of motion pieces of one axis, and the walk along it.
//!
//! The numbers of a piece are kept as the bits that came over the wire. Where
//! a piece ends follows from its duration, a floating-point number; the owner
//! computes it when the walk reaches the piece.

use crate::bytes::{le_value, lemma_limits, read_le};
use crate::rounding::{
    last_place, law_rounding_is_near, lemma_rounded, round_quotient, rounded, SINGLE,
};
use vstd::prelude::*;

verus! {

/// How many pieces a ring can hold.
pub const AXIS_RING_CAPACITY: usize = 256;

/// How many axes the endpoint serves.
pub const NUM_AXES: usize = 1;

/// How many bytes a piece takes on the wire.
pub const PIECE_ENTRY_SIZE: usize = 32;

/// The cycle of the endpoint in nanoseconds.
pub const EC_DC_PERIOD_NS: u32 = 1_000_000;

/// How late a piece may be taken up at most, in nanoseconds: the drift that is
/// allowed for, and one cycle.
pub const FAULT_TOLERANCE_NS: u64 = 1_200_000;

/// The axis of the endpoint.
pub const EC_AXIS_IDX: usize = 0;

/// The fault register when there is no fault.
pub const FAULT_REG_NONE: u32 = 0;

/// The low half of the fault register for a piece that was taken up too late:
/// the code -308 in 16 bits.
pub const CODE_PIECE_START_IN_PAST: u32 = 0xFECC;

/// The state of the engine in a heartbeat while there is a fault.
pub const ENGINE_STATE_FAULT: u8 = 3;

/// A piece of a motion. `coeffs` and `duration` are the bits of floating-point
/// numbers.
#[derive(Debug, Clone, Copy, PartialEq, Eq)]
pub struct PieceEntry {
    pub start_time: u64,
    pub coeffs: (u32, u32, u32, u32),
    pub duration: u32,
}

/// A number in four bytes.
pub open spec fn four_at(b: Seq<u8>, at: int) -> u32 {
    le_value(b.subrange(at, at + 4)) as u32
}

/// The piece that 32 bytes hold. The last four are reserved.
pub open spec fn piece_of(b: Seq<u8>) -> PieceEntry {
    PieceEntry {
        start_time: le_value(b.subrange(0, 8)) as u64,
        coeffs: (four_at(b, 8), four_at(b, 12), four_at(b, 16), four_at(b, 20)),
        duration: four_at(b, 24),
    }
}

/// Reads the piece that 32 bytes hold.
fn parse_piece_entry(chunk: &[u8]) -> (r: PieceEntry)
    requires
        chunk@.len() == 32,
    ensures
        r == piece_of(chunk@),
{
    proof {
        lemma_limits();
    }
    let start_time: u64 = read_le(chunk, 0, 8);
    let c0: u64 = read_le(chunk, 8, 4);
    let c1: u64 = read_le(chunk, 12, 4);
    let c2: u64 = read_le(chunk, 16, 4);
    let c3: u64 = read_le(chunk, 20, 4);
    let duration: u64 = read_le(chunk, 24, 4);
    PieceEntry {
        start_time,
        coeffs: (c0 as u32, c1 as u32, c2 as u32, c3 as u32),
        duration: duration as u32,
    }
}

/// How many units the number one has where microseconds are computed: 2^33. A
/// thousandth with 24 significant digits is a whole number of them.
pub const MICRO_UNITS: u128 = 0x2_0000_0000;

/// A thousandth with 24 significant digits.
pub open spec fn thousandth() -> int {
    rounded(MICRO_UNITS as int, 1000, SINGLE as int)
}

/// A lateness in whole microseconds. It is multiplied by a thousandth in numbers
/// with 24 significant digits, so that it may be one more than a thousandth.
pub open spec fn late_micros(late_ns: int) -> int {
    rounded(rounded(late_ns, 1, SINGLE as int) * thousandth(), 1, SINGLE as int)
        / MICRO_UNITS as int
}

/// A lateness in microseconds is not below nothing.
pub(crate) proof fn lemma_late_micros(late_ns: int)
    requires
        0 <= late_ns,
    ensures
        thousandth() == 8_589_935,
        0 <= late_micros(late_ns),
{
    lemma_rounded(late_ns, 1, SINGLE as int);
    lemma_rounded(rounded(late_ns, 1, SINGLE as int) * 8_589_935, 1, SINGLE as int);
}

/// A lateness in whole microseconds, as far as 32 bits go.
fn micros_late(late_ns: u64) -> (r: u32)
    ensures
        r == if late_micros(late_ns as int) < 0xFFFF_FFFF {
            late_micros(late_ns as int)
        } else {
            0xFFFF_FFFF
        },
{
    proof {
        lemma_late_micros(late_ns as int);
        lemma_rounded(late_ns as int, 1, SINGLE as int);
    }
    let single: u128 = round_quotient(late_ns as u128, 1, SINGLE);
    let product: u128 = round_quotient(single * 8_589_935, 1, SINGLE);
    let us: u128 = product / MICRO_UNITS;
    if us < 0xFFFF_FFFF {
        us as u32
    } else {
        0xFFFF_FFFF
    }
}

/// The fault register for a piece that was taken up too late: the lateness in
/// microseconds, as far as 16 bits go, above the code.
pub open spec fn late_fault(deficit_us: int) -> u32 {
    let high = if deficit_us < 0xFFFF {
        deficit_us
    } else {
        0xFFFF
    };
    (high * 0x1_0000 + CODE_PIECE_START_IN_PAST) as u32
}

/// The fault register of an axis.
#[derive(Debug)]
pub struct EtherCatFaultSink {
    pub reg: u32,
}

impl EtherCatFaultSink {
    /// A piece was taken up too late.
    pub fn piece_start_in_past(&mut self, deficit_us: u32)
        ensures
            final(self).reg == late_fault(deficit_us as int),
    {
        let high: u32 = if deficit_us < 0xFFFF {
            deficit_us
        } else {
            0xFFFF
        };
        self.reg = high * 0x1_0000 + CODE_PIECE_START_IN_PAST;
    }
}

/// The ring of pieces of one axis.
#[derive(Debug)]
pub struct AxisRing {
    pieces: Vec<PieceEntry>,
    armed: Option<u64>,
    retired: u32,
    fault: EtherCatFaultSink,
}

/// Model of [`AxisRing`].
#[verifier::ext_equal]
pub struct RingView {
    /// The pieces, first to run first.
    pub pieces: Seq<PieceEntry>,
    /// Where the first piece ends, once it was taken up.
    pub armed: Option<u64>,
    /// How many pieces are over, modulo 2^32.
    pub retired: u32,
    /// The fault register.
    pub fault: u32,
}

impl View for AxisRing {
    type V = RingView;

    closed spec fn view(&self) -> RingView {
        RingView {
            pieces: self.pieces@,
            armed: self.armed,
            retired: self.retired,
            fault: self.fault.reg,
        }
    }
}

/// What sampling an axis comes to.
#[derive(Debug, PartialEq, Eq)]
pub enum WalkStep {
    /// There is no piece.
    Idle,
    /// The first piece is too late. The fault register says so.
    Faulted,
    /// The first piece is running.
    Running(PieceEntry),
    /// The first piece is to be taken up: report where it ends, and sample
    /// again.
    TakeUp(PieceEntry),
}

/// What every ring satisfies.
pub open spec fn ring_ok(v: RingView) -> bool {
    &&& v.pieces.len() <= AXIS_RING_CAPACITY
    &&& v.armed is Some ==> v.pieces.len() > 0
}

/// A ring without pieces.
pub open spec fn empty_ring() -> RingView {
    RingView { pieces: Seq::empty(), armed: None, retired: 0, fault: FAULT_REG_NONE }
}

/// A ring whose first piece, where it was taken up and is over, is retired.
pub open spec fn after_retiring(v: RingView, now: u64) -> RingView {
    match v.armed {
        Some(end) => if now >= end {
            RingView {
                pieces: v.pieces.skip(1),
                armed: None,
                retired: ((v.retired + 1) % 0x1_0000_0000) as u32,
                ..v
            }
        } else {
            v
        },
        None => v,
    }
}

/// What sampling comes to, and the ring after it.
pub open spec fn walked(v: RingView, now: u64) -> (WalkStep, RingView) {
    let w = after_retiring(v, now);
    if w.pieces.len() == 0 {
        (WalkStep::Idle, w)
    } else if w.armed is Some {
        (WalkStep::Running(w.pieces[0]), w)
    } else if now - w.pieces[0].start_time > FAULT_TOLERANCE_NS {
        let late = now - w.pieces[0].start_time;
        (WalkStep::Faulted, RingView { fault: late_fault(late_micros(late)), ..w })
    } else {
        (WalkStep::TakeUp(w.pieces[0]), w)
    }
}

/// The pieces that bytes hold, one after the other.
pub open spec fn pieces_of(n: int, b: Seq<u8>) -> Seq<PieceEntry> {
    Seq::new(n as nat, |i: int| piece_of(b.subrange(32 * i, 32 * i + 32)))
}

/// How many of `n` pieces a ring takes.
pub open spec fn accepted(v: RingView, n: int, b: Seq<u8>) -> int {
    if b.len() < 32 * n {
        0
    } else if n < AXIS_RING_CAPACITY - v.pieces.len() {
        n
    } else {
        AXIS_RING_CAPACITY - v.pieces.len()
    }
}

impl AxisRing {
    /// What every ring satisfies.
    pub open spec fn wf(&self) -> bool {
        ring_ok(self@)
    }

    /// A ring without pieces.
    pub fn new() -> (r: Self)
        ensures
            r@ == empty_ring(),
            r.wf(),
    {
        let r = AxisRing {
            pieces: Vec::new(),
            armed: None,
            retired: 0,
            fault: EtherCatFaultSink { reg: FAULT_REG_NONE },
        };
        proof {
            assert(r@.pieces =~= Seq::empty());
        }
        r
    }

    /// Adds a piece, unless the ring is full.
    pub fn push_entry(&mut self, entry: PieceEntry) -> (r: Result<(), ()>)
        requires
            old(self).wf(),
        ensures
            final(self).wf(),
            match r {
                Ok(_) => old(self)@.pieces.len() < AXIS_RING_CAPACITY && final(self)@
                    == (RingView { pieces: old(self)@.pieces.push(entry), ..old(self)@ }),
                Err(_) => old(self)@.pieces.len() == AXIS_RING_CAPACITY && final(self)@
                    == old(self)@,
            },
    {
        if self.pieces.len() >= AXIS_RING_CAPACITY {
            return Err(());
        }
        self.pieces.push(entry);
        Ok(())
    }

    /// Adds pieces that came over the wire, as many as there is room for, and
    /// says how many. Where there are fewer bytes than pieces none is added.
    pub fn push_from_bytes(&mut self, piece_count: u8, bytes: &[u8]) -> (pushed: u8)
        requires
            old(self).wf(),
        ensures
            final(self).wf(),
            pushed == accepted(old(self)@, piece_count as int, bytes@),
            final(self)@ == (RingView {
                pieces: old(self)@.pieces + pieces_of(pushed as int, bytes@),
                ..old(self)@
            }),
    {
        let n: usize = piece_count as usize;
        let ghost was = self@;
        if bytes.len() < n * 32 {
            proof {
                assert(was.pieces + pieces_of(0, bytes@) =~= was.pieces);
            }
            return 0;
        }
        let mut pushed: u8 = 0;
        proof {
            assert(was.pieces + pieces_of(0, bytes@) =~= was.pieces);
        }
        while pushed < piece_count && self.pieces.len() < AXIS_RING_CAPACITY
            invariant
                was == old(self)@,
                ring_ok(was),
                ring_ok(self@),
                pushed <= piece_count,
                n == piece_count,
                bytes@.len() >= 32 * n,
                self.pieces@.len() == was.pieces.len() + pushed,
                self@ == (RingView {
                    pieces: was.pieces + pieces_of(pushed as int, bytes@),
                    ..was
                }),
            decreases piece_count - pushed,
        {
            let at: usize = pushed as usize * 32;
            let chunk: &[u8] = vstd::slice::slice_subrange(bytes, at, at + 32);
            let entry: PieceEntry = parse_piece_entry(chunk);
            let ghost before = self@.pieces;
            self.pieces.push(entry);
            proof {
                assert(chunk@ == bytes@.subrange(32 * pushed, 32 * pushed + 32));
                assert(pieces_of(pushed + 1, bytes@) =~= pieces_of(pushed as int, bytes@).push(
                    entry,
                ));
                assert(was.pieces + pieces_of(pushed + 1, bytes@) =~= before.push(entry));
            }
            pushed += 1;
        }
        pushed
    }

    /// Samples the axis: a piece that is over is retired; the next is taken up,
    /// unless it is too late.
    pub fn sample(&mut self, now: u64) -> (r: WalkStep)
        requires
            old(self).wf(),
        ensures
            final(self).wf(),
            (r, final(self)@) == walked(old(self)@, now),
    {
        match self.armed {
            Some(end) => {
                if now >= end {
                    let ghost was = self.pieces@;
                    let _ = self.pieces.remove(0);
                    proof {
                        assert(self.pieces@ =~= was.skip(1));
                    }
                    self.armed = None;
                    self.retired = self.retired.wrapping_add(1);
                }
            },
            None => {},
        }
        proof {
            assert(self@ =~= after_retiring(old(self)@, now));
        }
        if self.pieces.len() == 0 {
            return WalkStep::Idle;
        }
        let first: PieceEntry = self.pieces[0];
        if self.armed.is_some() {
            return WalkStep::Running(first);
        }
        if now > first.start_time && now - first.start_time > FAULT_TOLERANCE_NS {
            let deficit_us: u32 = micros_late(now - first.start_time);
            self.fault.piece_start_in_past(deficit_us);
            return WalkStep::Faulted;
        }
        WalkStep::TakeUp(first)
    }

    /// The first piece is taken up; it ends at `end`.
    pub fn take_up(&mut self, end: u64)
        requires
            old(self).wf(),
            old(self)@.pieces.len() > 0,
            old(self)@.armed is None,
        ensures
            final(self).wf(),
            final(self)@ == (RingView { armed: Some(end), ..old(self)@ }),
    {
        self.armed = Some(end);
    }

    /// Hands the fault out, and clears it.
    pub fn take_fault(&mut self) -> (r: Option<u32>)
        requires
            old(self).wf(),
        ensures
            final(self).wf(),
            r == if old(self)@.fault != FAULT_REG_NONE {
                Some(old(self)@.fault)
            } else {
                None
            },
            final(self)@ == (RingView { fault: FAULT_REG_NONE, ..old(self)@ }),
    {
        let prev: u32 = self.fault.reg;
        self.fault.reg = FAULT_REG_NONE;
        if prev != FAULT_REG_NONE {
            Some(prev)
        } else {
            None
        }
    }

    /// How many pieces are over, modulo 2^32.
    pub fn retired_count(&self) -> (n: u32)
        ensures
            n == self@.retired,
    {
        self.retired
    }

    /// How many pieces the ring holds.
    pub fn len(&self) -> (n: usize)
        ensures
            n == self@.pieces.len(),
    {
        self.pieces.len()
    }

    /// Whether the ring holds no piece.
    pub fn is_empty(&self) -> (r: bool)
        ensures
            r == (self@.pieces.len() == 0),
    {
        self.pieces.len() == 0
    }

    /// Whether the first piece was taken up.
    pub fn is_armed(&self) -> (r: bool)
        ensures
            r == (self@.armed is Some),
    {
        self.armed.is_some()
    }

    /// Drops every piece, and the fault. The count of the pieces that are over
    /// stays.
    pub fn reset(&mut self)
        ensures
            final(self).wf(),
            final(self)@ == (RingView { retired: old(self)@.retired, ..empty_ring() }),
    {
        self.pieces = Vec::new();
        self.armed = None;
        self.fault.reg = FAULT_REG_NONE;
        proof {
            assert(self@.pieces =~= Seq::empty());
        }
    }
}

impl Default for AxisRing {
    fn default() -> (r: Self)
        ensures
            r@ == empty_ring(),
            r.wf(),
    {
        AxisRing::new()
    }
}

/// Pieces leave the ring only by being retired: what a sample takes off the
/// ring it adds to the count.
pub proof fn law_pieces_retire_one_by_one(v: RingView, now: u64)
    requires
        ring_ok(v),
    ensures
        ({
            let w = walked(v, now).1;
            let over = v.pieces.len() - w.pieces.len();
            &&& over == 0 || over == 1
            &&& w.pieces == v.pieces.skip(over)
            &&& w.retired == (v.retired + over) % 0x1_0000_0000
        }),
{
    assert(v.pieces.skip(0) =~= v.pieces);
}

/// A piece that is too late is neither taken up nor retired, and stays first.
pub proof fn law_late_piece_stays(v: RingView, now: u64)
    requires
        ring_ok(v),
        v.armed is None,
        walked(v, now).0 == WalkStep::Faulted,
    ensures
        walked(v, now).1.pieces == v.pieces,
        walked(v, now).1.retired == v.retired,
        walked(v, now).1.armed is None,
        walked(v, now).1.fault % 0x1_0000 == CODE_PIECE_START_IN_PAST,
{
    lemma_late_micros(now - v.pieces[0].start_time);
}

/// A piece that was taken up in time does not become late: sampling it again
/// never faults before it is over.
pub proof fn law_running_piece_never_late(v: RingView, end: u64, now: u64)
    requires
        ring_ok(v),
        v.pieces.len() > 0,
        v.armed == Some(end),
        now < end,
    ensures
        walked(v, now) == (WalkStep::Running(v.pieces[0]), v),
{
}

/// The lateness in whole microseconds is a thousandth of that in nanoseconds, to
/// a few hundredths of a microsecond, as far as the fault register can tell it.
pub proof fn law_lateness_in_micros(late_ns: int)
    requires
        0 <= late_ns <= 0x800_0000,
    ensures
        1000 * late_micros(late_ns) <= late_ns + 40,
        late_ns < 1000 * late_micros(late_ns) + 1040,
{
    lemma_late_micros(late_ns);
    law_rounding_is_near(late_ns, 1, SINGLE as int);
    let n = rounded(late_ns, 1, SINGLE as int);
    assert(late_ns / 1 == late_ns);
    let p = last_place(late_ns, SINGLE as int);
    assert(p <= 16);
    assert(-8 <= n - late_ns <= 8);
    let product = n * 8_589_935;
    lemma_rounded(late_ns, 1, SINGLE as int);
    law_rounding_is_near(product, 1, SINGLE as int);
    assert(product / 1 == product);
    let q = last_place(product, SINGLE as int);
    assert(q <= 0x840_0000);
    let r = rounded(product, 1, SINGLE as int);
    assert(-0x440_0000 <= r - product <= 0x440_0000);
}

/// The fault register tells of the lateness in its upper half, up to 65535, and
/// holds the code -308 in its lower.
pub proof fn law_late_fault_halves(deficit_us: int)
    requires
        0 <= deficit_us,
    ensures
        late_fault(deficit_us) % 0x1_0000 == 0x1_0000 - 308,
        deficit_us <= 0xFFFF ==> late_fault(deficit_us) / 0x1_0000 == deficit_us,
        deficit_us > 0xFFFF ==> late_fault(deficit_us) / 0x1_0000 == 0xFFFF,
{
}

} // verus!
