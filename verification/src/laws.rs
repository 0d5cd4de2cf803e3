//! What holds of sampling on every path and at every distance.

use crate::arc::{arc_length, lemma_arc_length_monotone, total_length};
use crate::lerp::{between, lemma_position_between_ends, lemma_position_between_in_box, lemma_scale_monotone};
use crate::point::{distance, lemma_distance_zero, Point};
use crate::sampler::{
    lemma_reachable, lemma_segment_index_is_first, on_segment, sample, segment_index,
};
use vstd::prelude::*;

verus! {

/// A path of fewer than two points has no position at any distance.
pub proof fn lemma_short_path_has_no_position(path: Seq<Point>, d: int)
    requires
        path.len() < 2,
    ensures
        sample(path, d) is None,
{
}

/// There is a position at `d` exactly when the path has a segment and `d`
/// lies between zero and the length of the path, both included.
pub proof fn lemma_sample_domain(path: Seq<Point>, d: int)
    ensures
        sample(path, d) is Some <==> path.len() >= 2 && 0 <= d <= total_length(path),
{
    lemma_reachable(path, d);
}

/// Sampling reads the points of the path and the distance, and nothing else:
/// two paths with the same points in the same order have the same position at
/// the same distance.
pub proof fn lemma_sample_depends_on_contents(path1: Seq<Point>, path2: Seq<Point>, d: int)
    requires
        path1.len() == path2.len(),
        forall|i: int| 0 <= i < path1.len() ==> path1[i] == path2[i],
    ensures
        sample(path1, d) == sample(path2, d),
{
    assert(path1 =~= path2);
}

/// Sampling moves along the path in order. Of two distances on the path, the
/// greater one is not served by an earlier segment than the smaller one; and
/// where one segment serves both, the position at the smaller distance lies
/// between the segment's start and the position at the greater distance.
pub proof fn lemma_sample_in_path_order(path: Seq<Point>, d1: int, d2: int)
    requires
        d1 <= d2,
        sample(path, d1) is Some,
        sample(path, d2) is Some,
    ensures
        segment_index(path, d1) <= segment_index(path, d2),
        segment_index(path, d1) == segment_index(path, d2) ==> {
            let start = path[segment_index(path, d1)]@;
            let p1 = sample(path, d1)->0;
            let p2 = sample(path, d2)->0;
            between(start.x, p1.x, p2.x) && between(start.y, p1.y, p2.y)
        },
{
    lemma_segment_index_is_first(path, d1);
    lemma_segment_index_is_first(path, d2);
    let i1 = segment_index(path, d1);
    let i2 = segment_index(path, d2);
    if i2 < i1 {
        lemma_arc_length_monotone(path, i2 + 1, i1);
        assert(on_segment(path, i2, d1));
    }
    if i1 == i2 {
        let a = path[i1]@;
        let b = path[i1 + 1]@;
        let den = distance(a, b);
        let num1 = (d1 - arc_length(path, i1)) as nat;
        let num2 = (d2 - arc_length(path, i1)) as nat;
        if den > 0 {
            lemma_scale_monotone(b.x - a.x, num1, num2, den);
            lemma_scale_monotone(b.y - a.y, num1, num2, den);
        }
    }
}

/// A sampled position lies in the box spanned by the two ends of the segment
/// that serves the distance.
pub proof fn lemma_sample_in_segment_box(path: Seq<Point>, d: int)
    requires
        sample(path, d) is Some,
    ensures
        ({
            let i = segment_index(path, d);
            let p = sample(path, d)->0;
            &&& 0 <= i < path.len() - 1
            &&& between(path[i]@.x, p.x, path[i + 1]@.x)
            &&& between(path[i]@.y, p.y, path[i + 1]@.y)
        }),
{
    lemma_segment_index_is_first(path, d);
    let i = segment_index(path, d);
    lemma_position_between_in_box(
        path[i]@,
        path[i + 1]@,
        (d - arc_length(path, i)) as nat,
        distance(path[i]@, path[i + 1]@),
    );
}

/// Where the segment that serves a distance has no length, the position is
/// the point at which that segment stands.
pub proof fn lemma_sample_on_flat_segment(path: Seq<Point>, d: int)
    requires
        sample(path, d) is Some,
        distance(path[segment_index(path, d)]@, path[segment_index(path, d) + 1]@) == 0,
    ensures
        sample(path, d) == Some(path[segment_index(path, d)]@),
{
}

/// Vertices between which the arc length does not grow are one and the same
/// position.
proof fn lemma_flat_stretch(path: Seq<Point>, i: int, j: int)
    requires
        0 <= i <= j < path.len(),
        arc_length(path, i) == arc_length(path, j),
    ensures
        path[i]@ == path[j]@,
    decreases j - i,
{
    if i < j {
        lemma_arc_length_monotone(path, i, j - 1);
        lemma_distance_zero(path[j - 1]@, path[j]@);
        lemma_flat_stretch(path, i, j - 1);
    }
}

/// At the arc length of a vertex the position is that vertex.
pub proof fn lemma_sample_at_vertex(path: Seq<Point>, k: int)
    requires
        path.len() >= 2,
        0 <= k < path.len(),
    ensures
        sample(path, arc_length(path, k) as int) == Some(path[k]@),
{
    let d = arc_length(path, k) as int;
    if k < path.len() - 1 {
        assert(on_segment(path, k, d));
    } else {
        assert(on_segment(path, k - 1, d));
    }
    lemma_segment_index_is_first(path, d);
    let i = segment_index(path, d);
    let a = path[i]@;
    let b = path[i + 1]@;
    let den = distance(a, b);
    lemma_position_between_ends(a, b, den);
    lemma_distance_zero(a, b);
    if i < k {
        lemma_arc_length_monotone(path, i + 1, k);
        lemma_flat_stretch(path, i + 1, k);
    }
}

} // verus!
