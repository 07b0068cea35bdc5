//! Integer plane geometry: points, extents and squared distances.

use vstd::prelude::*;

use crate::{DESPAWN_DISTANCE, MAX_COORD, MAX_EXTENT, POS_LIMIT};

verus! {

/// A point or an extent on the integer simulation grid.
#[derive(Clone, Copy, PartialEq, Eq, Structural, Debug)]
pub struct Vec2 {
    pub x: i64,
    pub y: i64,
}

/// The point lies inside the range accepted at the spawn boundary.
pub open spec fn in_world(p: Vec2) -> bool {
    &&& -MAX_COORD <= p.x <= MAX_COORD
    &&& -MAX_COORD <= p.y <= MAX_COORD
}

/// The point lies inside the slightly wider range that fragments of a brick
/// near the spawn boundary may reach.
pub open spec fn in_play(p: Vec2) -> bool {
    &&& -POS_LIMIT <= p.x <= POS_LIMIT
    &&& -POS_LIMIT <= p.y <= POS_LIMIT
}

/// Both extents are positive and small enough for the fracture arithmetic.
pub open spec fn valid_extent(s: Vec2) -> bool {
    &&& 0 < s.x <= MAX_EXTENT
    &&& 0 < s.y <= MAX_EXTENT
}

/// Squared Euclidean distance between two points.
pub open spec fn dist_sq(a: Vec2, b: Vec2) -> int {
    (a.x - b.x) * (a.x - b.x) + (a.y - b.y) * (a.y - b.y)
}

/// `b` lies strictly farther than the despawn threshold from `a`.
pub open spec fn beyond_despawn(a: Vec2, b: Vec2) -> bool {
    dist_sq(a, b) > DESPAWN_DISTANCE * DESPAWN_DISTANCE
}

/// A square is monotone in the magnitude of its argument.
proof fn lemma_square_bound(v: int, k: int)
    by (nonlinear_arith)
    requires
        -k <= v <= k,
    ensures
        0 <= v * v <= k * k,
{
}

/// Squared distance between two in-play points; exact, and free of overflow
/// because both coordinates are bounded by `POS_LIMIT`.
pub fn distance_squared(a: Vec2, b: Vec2) -> (r: i64)
    requires
        in_play(a),
        in_play(b),
    ensures
        r == dist_sq(a, b),
{
    let dx: i64 = a.x - b.x;
    let dy: i64 = a.y - b.y;
    proof {
        lemma_square_bound(dx as int, 2 * POS_LIMIT as int);
        lemma_square_bound(dy as int, 2 * POS_LIMIT as int);
    }
    dx * dx + dy * dy
}

/// The despawn test itself: true when `b` is strictly farther than the
/// threshold from `a`.
pub fn is_beyond_despawn(a: Vec2, b: Vec2) -> (r: bool)
    requires
        in_play(a),
        in_play(b),
    ensures
        r == beyond_despawn(a, b),
{
    distance_squared(a, b) > DESPAWN_DISTANCE * DESPAWN_DISTANCE
}

} // verus!
