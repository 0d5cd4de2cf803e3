//! Arc-length sampling of polylines on the integer grid.
//!
//! A path is a sequence of points joined by straight segments. The length of a
//! segment is the integer square root of its squared Euclidean length, and the
//! arc length of a vertex is the sum of the lengths of the segments before it.
//! [`sampler::line_pos`] finds the point that lies at a given arc length along
//! the path, and [`sampler::heading`] the displacement between two such points,
//! from which a caller takes the direction of travel.
//!
//! All arithmetic is in whole numbers. A caller that measures in fractions
//! chooses how many grid units make one unit of its own, and converts at the
//! edge. Lengths are rounded down and interpolated coordinates are rounded
//! toward the start of their segment, each by less than one grid unit. So a
//! segment has no length only where its two ends are one point, a sampled
//! point never lies past the exact one, and every vertex is found again at its
//! own arc length.

pub mod arc;
pub mod laws;
pub mod lerp;
pub mod point;
pub mod sampler;
pub mod sqrt;
