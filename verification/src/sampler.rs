//! Sampling a path at a given arc length, and the heading of travel there.

use crate::arc::{arc_length, lemma_arc_length_bounded, lemma_arc_length_monotone, total_length};
use crate::lerp::{interpolate, position_between};
use crate::point::{distance, Point, Position};
use vstd::prelude::*;

verus! {

/// Segment `i` of the path, which runs from point `i` to point `i + 1`, holds
/// the distance `d`: `d` lies between the arc lengths of the segment's two
/// ends, both of them included.
pub open spec fn on_segment(path: Seq<Point>, i: int, d: int) -> bool {
    &&& 0 <= i < path.len() - 1
    &&& arc_length(path, i) <= d <= arc_length(path, i + 1)
}

/// Segment `i` is the first segment of the path that holds the distance `d`.
pub open spec fn first_segment(path: Seq<Point>, i: int, d: int) -> bool {
    &&& on_segment(path, i, d)
    &&& forall|j: int| 0 <= j < i ==> !on_segment(path, j, d)
}

/// The index of the first segment that holds the distance `d`, where there
/// is one.
pub open spec fn segment_index(path: Seq<Point>, d: int) -> int {
    choose|i: int| first_segment(path, i, d)
}

/// The position at distance `d` on segment `i`: as far from the segment's
/// start as `d` is from the arc length of that start, and the start itself on
/// a segment without length.
pub open spec fn position_on_segment(path: Seq<Point>, i: int, d: int) -> Position {
    position_between(
        path[i]@,
        path[i + 1]@,
        (d - arc_length(path, i)) as nat,
        distance(path[i]@, path[i + 1]@),
    )
}

/// The position at arc length `d` along the path: the position at `d` on the
/// first segment that holds `d`, and none where no segment holds it.
pub open spec fn sample(path: Seq<Point>, d: int) -> Option<Position> {
    if exists|i: int| on_segment(path, i, d) {
        Some(position_on_segment(path, segment_index(path, d), d))
    } else {
        None
    }
}

/// The displacement from the position at arc length `d` to the position at
/// arc length `d + step`, as a pair of differences in `x` and in `y`; none
/// where either position is missing.
pub open spec fn displacement(path: Seq<Point>, d: int, step: int) -> Option<(int, int)> {
    match (sample(path, d), sample(path, d + step)) {
        (Some(here), Some(ahead)) => Some((ahead.x - here.x, ahead.y - here.y)),
        _ => None,
    }
}

/// A direction of travel, given as a displacement: its angle is that of the
/// vector `(dx, dy)`.
#[derive(Clone, Copy, Debug, PartialEq, Eq, Structural)]
pub struct Direction {
    pub dx: i64,
    pub dy: i64,
}

impl View for Direction {
    type V = (int, int);

    open spec fn view(&self) -> (int, int) {
        (self.dx as int, self.dy as int)
    }
}

/// Only one segment can be the first to hold a distance.
pub proof fn lemma_first_segment_unique(path: Seq<Point>, i: int, j: int, d: int)
    requires
        first_segment(path, i, d),
        first_segment(path, j, d),
    ensures
        i == j,
{
}

/// Among the first `n` segments, one that holds `d` is preceded by a first
/// one that does.
proof fn lemma_first_segment_before(path: Seq<Point>, n: int, d: int)
    requires
        on_segment(path, n, d),
    ensures
        exists|i: int| 0 <= i <= n && first_segment(path, i, d),
    decreases n,
{
    if exists|j: int| 0 <= j < n && on_segment(path, j, d) {
        let j = choose|j: int| 0 <= j < n && on_segment(path, j, d);
        lemma_first_segment_before(path, j, d);
    } else {
        assert(first_segment(path, n, d));
    }
}

/// Where some segment holds `d`, the segment index is that of the first one
/// that does.
pub proof fn lemma_segment_index_is_first(path: Seq<Point>, d: int)
    requires
        exists|i: int| on_segment(path, i, d),
    ensures
        first_segment(path, segment_index(path, d), d),
{
    let n = choose|i: int| on_segment(path, i, d);
    lemma_first_segment_before(path, n, d);
}

/// A distance from zero to the arc length of vertex `n` is held by one of the
/// first `n` segments.
proof fn lemma_covered(path: Seq<Point>, n: int, d: int)
    requires
        1 <= n < path.len(),
        0 <= d <= arc_length(path, n),
    ensures
        exists|i: int| 0 <= i < n && on_segment(path, i, d),
    decreases n,
{
    if d >= arc_length(path, n - 1) {
        assert(on_segment(path, n - 1, d));
    } else {
        lemma_covered(path, n - 1, d);
    }
}

/// Some segment holds `d` exactly when the path has a segment and `d` lies
/// between zero and the length of the path.
pub proof fn lemma_reachable(path: Seq<Point>, d: int)
    ensures
        (exists|i: int| on_segment(path, i, d)) <==> path.len() >= 2 && 0 <= d <= total_length(path),
{
    if exists|i: int| on_segment(path, i, d) {
        let i = choose|i: int| on_segment(path, i, d);
        lemma_arc_length_monotone(path, i + 1, path.len() - 1);
    }
    if path.len() >= 2 && 0 <= d <= total_length(path) {
        lemma_covered(path, path.len() - 1, d);
    }
}

/// The point at arc length `distance` along the path.
///
/// The segments are walked in order, and the first one whose stretch of arc
/// length holds `distance` gives the point, by interpolation between its two
/// ends with each coordinate rounded toward the segment's start. On a segment
/// without length the point is the segment's start. There is no point on a
/// path of fewer than two points, at a negative distance, or beyond the
/// length of the path.
pub fn line_pos(path: &[Point], distance: i128) -> (r: Option<Point>)
    ensures
        match r {
            Some(p) => sample(path@, distance as int) == Some(p@),
            None => sample(path@, distance as int) is None,
        },
        r is Some <==> path@.len() >= 2 && 0 <= distance <= total_length(path@),
        path@.len() < 2 ==> r is None,
{
    if path.len() < 2 {
        return None;
    }
    let mut i: usize = 0;
    let mut before: i128 = 0;
    while i + 1 < path.len()
        invariant
            i < path@.len(),
            before == arc_length(path@, i as int),
            forall|j: int| 0 <= j < i ==> !on_segment(path@, j, distance as int),
        decreases path.len() - i,
    {
        let a: Point = path[i];
        let b: Point = path[i + 1];
        let length: u64 = a.distance_to(b);
        proof {
            lemma_arc_length_bounded(path@, i as int);
        }
        let after: i128 = before + length as i128;
        if distance >= before && after >= distance {
            proof {
                lemma_reachable(path@, distance as int);
                assert(first_segment(path@, i as int, distance as int));
                lemma_first_segment_unique(
                    path@,
                    i as int,
                    segment_index(path@, distance as int),
                    distance as int,
                );
            }
            return Some(interpolate(a, b, (distance - before) as u64, length));
        }
        before = after;
        i = i + 1;
    }
    proof {
        lemma_reachable(path@, distance as int);
    }
    None
}

/// The direction of travel at arc length `distance`, estimated by a forward
/// difference: the displacement from the point at `distance` to the point at
/// `distance + step`. There is none where either point is missing.
pub fn heading(path: &[Point], distance: i128, step: i128) -> (r: Option<Direction>)
    ensures
        match r {
            Some(v) => displacement(path@, distance as int, step as int) == Some(v@),
            None => displacement(path@, distance as int, step as int) is None,
        },
        r is Some <==> path@.len() >= 2 && 0 <= distance <= total_length(path@) && 0 <= distance
            + step <= total_length(path@),
{
    let here: Point = match line_pos(path, distance) {
        Some(p) => p,
        None => {
            return None;
        },
    };
    let target: i128 = match distance.checked_add(step) {
        Some(t) => t,
        None => {
            proof {
                lemma_reachable(path@, distance + step);
                if path@.len() >= 2 {
                    assert(path@.len() == path.len());
                    lemma_arc_length_bounded(path@, path@.len() - 1);
                }
            }
            return None;
        },
    };
    let ahead: Point = match line_pos(path, target) {
        Some(p) => p,
        None => {
            return None;
        },
    };
    Some(Direction { dx: ahead.x as i64 - here.x as i64, dy: ahead.y as i64 - here.y as i64 })
}

} // verus!
