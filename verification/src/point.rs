//! Points of the integer grid, and the length of the segment between two of them.

use crate::sqrt::{
    floor_sqrt, isqrt, lemma_floor_sqrt_bounds, lemma_floor_sqrt_of_square, lemma_square_monotone,
};
use vstd::prelude::*;

verus! {

/// A point of the plane with integer coordinates of any size: what a
/// [`Point`] stands for in contracts.
pub struct Position {
    pub x: int,
    pub y: int,
}

/// A point of the plane on the 32-bit integer grid.
#[derive(Clone, Copy, Debug, PartialEq, Eq, Structural)]
pub struct Point {
    pub x: i32,
    pub y: i32,
}

impl View for Point {
    type V = Position;

    open spec fn view(&self) -> Position {
        Position { x: self.x as int, y: self.y as int }
    }
}

/// No segment between two points of the grid is as long as this.
pub const SEGMENT_LIMIT: u64 = 0x2_0000_0000;

/// The square of the Euclidean distance between two positions.
pub open spec fn squared_distance(a: Position, b: Position) -> int {
    (b.x - a.x) * (b.x - a.x) + (b.y - a.y) * (b.y - a.y)
}

/// The Euclidean distance between two positions, rounded down to a whole
/// number.
pub open spec fn distance(a: Position, b: Position) -> nat {
    floor_sqrt(squared_distance(a, b) as nat)
}

/// A squared distance is never negative, and it is zero between a position
/// and itself only.
pub proof fn lemma_squared_distance_sign(a: Position, b: Position)
    ensures
        squared_distance(a, b) >= 0,
        squared_distance(a, b) == 0 <==> a == b,
{
    let dx = b.x - a.x;
    let dy = b.y - a.y;
    assert(dx * dx >= 0 && (dx != 0 ==> dx * dx >= 1)) by (nonlinear_arith);
    assert(dy * dy >= 0 && (dy != 0 ==> dy * dy >= 1)) by (nonlinear_arith);
    assert(0int * 0int == 0) by (nonlinear_arith);
}

/// The distance is the Euclidean distance rounded down: its square does not
/// exceed the squared distance, and the square of the next whole number does.
pub proof fn lemma_distance_rounds_down(a: Position, b: Position)
    ensures
        distance(a, b) * distance(a, b) <= squared_distance(a, b),
        squared_distance(a, b) < (distance(a, b) + 1) * (distance(a, b) + 1),
{
    lemma_squared_distance_sign(a, b);
    lemma_floor_sqrt_bounds(squared_distance(a, b) as nat);
}

/// Between two positions that differ in one coordinate only, the distance is
/// the size of that difference, with nothing rounded away.
pub proof fn lemma_distance_along_axis(a: Position, b: Position)
    ensures
        a.y == b.y ==> distance(a, b) == vstd::math::abs(b.x - a.x),
        a.x == b.x ==> distance(a, b) == vstd::math::abs(b.y - a.y),
{
    let dx = b.x - a.x;
    let dy = b.y - a.y;
    assert(0int * 0int == 0) by (nonlinear_arith);
    if a.y == b.y {
        let m = vstd::math::abs(dx);
        assert(dx * dx == m * m) by (nonlinear_arith)
            requires
                m == dx || m == -dx,
        ;
        lemma_floor_sqrt_of_square(m);
    }
    if a.x == b.x {
        let m = vstd::math::abs(dy);
        assert(dy * dy == m * m) by (nonlinear_arith)
            requires
                m == dy || m == -dy,
        ;
        lemma_floor_sqrt_of_square(m);
    }
}

/// The distance between two positions is zero exactly when they are the same
/// position.
pub proof fn lemma_distance_zero(a: Position, b: Position)
    ensures
        distance(a, b) == 0 <==> a == b,
{
    lemma_squared_distance_sign(a, b);
    let s = squared_distance(a, b) as nat;
    lemma_floor_sqrt_bounds(s);
    let r = floor_sqrt(s);
    if r == 0 {
        assert((r + 1) * (r + 1) == 1) by (nonlinear_arith)
            requires
                r == 0,
        ;
    } else {
        assert(r * r >= 1) by (nonlinear_arith)
            requires
                r >= 1,
        ;
    }
}

/// The distance from `a` to `b` is the distance from `b` to `a`.
pub proof fn lemma_distance_symmetric(a: Position, b: Position)
    ensures
        distance(a, b) == distance(b, a),
{
    let dx = b.x - a.x;
    let dy = b.y - a.y;
    assert(dx * dx == (-dx) * (-dx)) by (nonlinear_arith);
    assert(dy * dy == (-dy) * (-dy)) by (nonlinear_arith);
    assert(squared_distance(a, b) == squared_distance(b, a));
}

/// Two points of the grid are less than [`SEGMENT_LIMIT`] apart.
pub proof fn lemma_distance_bounded(a: Point, b: Point)
    ensures
        distance(a@, b@) < SEGMENT_LIMIT,
{
    let dx = b.x - a.x;
    let dy = b.y - a.y;
    assert(dx * dx <= 0xffff_ffff * 0xffff_ffff) by (nonlinear_arith)
        requires
            -0xffff_ffff <= dx <= 0xffff_ffff,
    ;
    assert(dy * dy <= 0xffff_ffff * 0xffff_ffff) by (nonlinear_arith)
        requires
            -0xffff_ffff <= dy <= 0xffff_ffff,
    ;
    lemma_squared_distance_sign(a@, b@);
    let s = squared_distance(a@, b@) as nat;
    lemma_floor_sqrt_bounds(s);
    let r = floor_sqrt(s);
    if r >= 0x2_0000_0000 {
        lemma_square_monotone(0x2_0000_0000, r);
    }
}

impl Point {
    /// The point with the given coordinates.
    pub fn new(x: i32, y: i32) -> (p: Point)
        ensures
            p.x == x,
            p.y == y,
    {
        Point { x, y }
    }

    /// The length of the segment from this point to `other`: their Euclidean
    /// distance, rounded down to a whole number.
    pub fn distance_to(self, other: Point) -> (d: u64)
        ensures
            d == distance(self@, other@),
            d < SEGMENT_LIMIT,
    {
        let dx: i128 = other.x as i128 - self.x as i128;
        let dy: i128 = other.y as i128 - self.y as i128;
        assert(0 <= dx * dx <= 0xffff_ffff * 0xffff_ffff) by (nonlinear_arith)
            requires
                -0xffff_ffff <= dx <= 0xffff_ffff,
        ;
        assert(0 <= dy * dy <= 0xffff_ffff * 0xffff_ffff) by (nonlinear_arith)
            requires
                -0xffff_ffff <= dy <= 0xffff_ffff,
        ;
        let squared: i128 = dx * dx + dy * dy;
        proof {
            lemma_distance_bounded(self, other);
        }
        isqrt(squared as u128)
    }
}

} // verus!
