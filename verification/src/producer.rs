//! What is sent of a curve and of a segment.
//!
//! Floating-point numbers are kept as their bits.

use vstd::prelude::*;

verus! {

/// A piece of a curve: its control points and its duration.
#[derive(Debug)]
pub struct BezierPiece {
    pub bernstein: Vec<u32>,
    pub duration: u32,
}

/// The pieces of a curve as they are sent: four control points and a duration
/// each.
#[derive(Debug)]
pub struct CurveLoadParams {
    pub bp_per_piece: Vec<(u32, u32, u32, u32)>,
    pub duration_per_piece: Vec<u32>,
}

/// A segment as it is sent.
#[derive(Debug, Clone, Copy, PartialEq, Eq, Structural)]
pub struct SegmentPushParams {
    pub id: u32,
    pub x_handle_packed: u32,
    pub y_handle_packed: u32,
    pub z_handle_packed: u32,
    pub e_handle_packed: u32,
    pub t_start: u64,
    pub t_end: u64,
    pub kinematics: u8,
    pub e_mode: u8,
    pub extrusion_ratio: u32,
}

/// A control point of a piece that is sent: the last one is held where there
/// are fewer than four, and without any it is zero.
pub open spec fn control_point(b: Seq<u32>, k: int) -> u32 {
    if k < b.len() {
        b[k]
    } else if b.len() > 0 {
        b.last()
    } else {
        0
    }
}

/// The four control points of a piece that are sent.
pub open spec fn control_points(b: Seq<u32>) -> (u32, u32, u32, u32) {
    (control_point(b, 0), control_point(b, 1), control_point(b, 2), control_point(b, 3))
}

/// A control point of a piece that is sent.
fn point(b: &Vec<u32>, k: usize) -> (r: u32)
    ensures
        r == control_point(b@, k as int),
{
    if k < b.len() {
        b[k]
    } else if b.len() > 0 {
        b[b.len() - 1]
    } else {
        0
    }
}

impl CurveLoadParams {
    /// What is sent of the pieces of a curve.
    pub fn from_scalar_nurbs_normalized(pieces: &Vec<BezierPiece>) -> (r: Self)
        ensures
            r.bp_per_piece@ == Seq::new(
                pieces@.len(),
                |i: int| control_points(pieces@[i].bernstein@),
            ),
            r.duration_per_piece@ == Seq::new(pieces@.len(), |i: int| pieces@[i].duration),
    {
        let mut bp_per_piece: Vec<(u32, u32, u32, u32)> = Vec::new();
        let mut duration_per_piece: Vec<u32> = Vec::new();
        let mut i: usize = 0;
        while i < pieces.len()
            invariant
                i <= pieces@.len(),
                bp_per_piece@.len() == i,
                duration_per_piece@.len() == i,
                forall|j: int|
                    0 <= j < i ==> #[trigger] bp_per_piece@[j] == control_points(
                        pieces@[j].bernstein@,
                    ),
                forall|j: int|
                    0 <= j < i ==> #[trigger] duration_per_piece@[j] == pieces@[j].duration,
            decreases pieces@.len() - i,
        {
            let b: &Vec<u32> = &pieces[i].bernstein;
            bp_per_piece.push((point(b, 0), point(b, 1), point(b, 2), point(b, 3)));
            duration_per_piece.push(pieces[i].duration);
            i += 1;
        }
        CurveLoadParams { bp_per_piece, duration_per_piece }
    }

    /// How many pieces there are.
    pub fn piece_count(&self) -> (n: usize)
        ensures
            n == self.bp_per_piece@.len(),
    {
        self.bp_per_piece.len()
    }
}

/// Four control points are sent as they are; of fewer the last stands for those
/// that are missing, so that a constant is sent as four equal points.
pub proof fn law_control_points_are_held(b: Seq<u32>, a: u32)
    ensures
        b.len() >= 4 ==> control_points(b) == (b[0], b[1], b[2], b[3]),
        b.len() == 3 ==> control_points(b) == control_points(b.push(b[2])),
        b.len() == 2 ==> control_points(b) == control_points(b.push(b[1])),
        b.len() == 1 ==> control_points(b) == control_points(b.push(b[0])),
        control_points(seq![a]) == (a, a, a, a),
        control_points(Seq::empty()) == (0u32, 0u32, 0u32, 0u32),
{
}

} // verus!
