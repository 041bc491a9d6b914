//! From positions in millimetres to encoder counts, relative to an origin.

use vstd::prelude::*;

verus! {

/// A fixed gain and the origin that was captured when the drive was armed. The
/// gain and the origin's position are the bits of a double.
#[derive(Debug, Clone, Copy, PartialEq, Eq, Structural)]
pub struct CountMap {
    pub counts_per_mm: u64,
    pub origin_counts: i32,
    pub origin_mm: u64,
}

impl CountMap {
    /// Captures the origin: the rotor stands at `actual_counts` while the
    /// trajectory is at `pos_mm`.
    pub fn new(counts_per_mm: u64, actual_counts: i32, pos_mm: u64) -> (m: Self)
        ensures
            m == (CountMap { counts_per_mm, origin_counts: actual_counts, origin_mm: pos_mm }),
    {
        CountMap { counts_per_mm, origin_counts: actual_counts, origin_mm: pos_mm }
    }

    /// Whether a target lies within the range of the encoder.
    pub fn in_range(&self, delta: i32) -> (r: bool)
        ensures
            r == (i32::MIN <= self.origin_counts + delta <= i32::MAX),
    {
        let t: i64 = self.origin_counts as i64 + delta as i64;
        i32::MIN as i64 <= t && t <= i32::MAX as i64
    }

    /// The target count `delta` counts away from the origin.
    pub fn target_counts(&self, delta: i32) -> (r: i32)
        requires
            i32::MIN <= self.origin_counts + delta <= i32::MAX,
        ensures
            r == self.origin_counts + delta,
    {
        self.origin_counts + delta
    }
}

} // verus!
