//! Arc length along a path: the sum of the lengths of its segments.

use crate::point::{distance, lemma_distance_bounded, Point, SEGMENT_LIMIT};
use vstd::prelude::*;

verus! {

/// The arc length of vertex `k` of the path: the sum of the lengths of the
/// first `k` segments, where segment `i` runs from point `i` to point `i + 1`.
/// It is zero at the first vertex.
pub open spec fn arc_length(path: Seq<Point>, k: int) -> nat
    recommends
        k < path.len(),
    decreases k,
{
    if k <= 0 {
        0
    } else {
        arc_length(path, k - 1) + distance(path[k - 1]@, path[k]@)
    }
}

/// The length of the whole path: the arc length of its last vertex, and zero
/// for a path without a segment.
pub open spec fn total_length(path: Seq<Point>) -> nat {
    arc_length(path, path.len() - 1)
}

/// Arc length does not decrease along the path.
pub proof fn lemma_arc_length_monotone(path: Seq<Point>, i: int, j: int)
    requires
        i <= j,
    ensures
        arc_length(path, i) <= arc_length(path, j),
    decreases j - i,
{
    if i < j {
        lemma_arc_length_monotone(path, i, j - 1);
    }
}

/// The first `k` segments of a path are together shorter than `k` segments of
/// the greatest length that the grid allows.
pub proof fn lemma_arc_length_bounded(path: Seq<Point>, k: int)
    requires
        0 <= k < path.len(),
    ensures
        arc_length(path, k) <= k * SEGMENT_LIMIT,
    decreases k,
{
    if k > 0 {
        lemma_arc_length_bounded(path, k - 1);
        lemma_distance_bounded(path[k - 1], path[k]);
    }
}

/// The length of the whole path.
pub fn path_length(path: &[Point]) -> (total: i128)
    ensures
        total == total_length(path@),
{
    let mut total: i128 = 0;
    let mut k: usize = 0;
    while k + 1 < path.len()
        invariant
            k == 0 || k < path.len(),
            total == arc_length(path@, k as int),
            total <= k * SEGMENT_LIMIT,
        decreases path.len() - k,
    {
        let step: u64 = path[k].distance_to(path[k + 1]);
        total = total + step as i128;
        k = k + 1;
    }
    total
}

} // verus!
