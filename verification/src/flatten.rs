//! Curve flattening: subdivides a cubic curve into line segments until the
//! chord stays within a fixed device-space tolerance, with a bounded
//! recursion depth so that termination is guaranteed for any control points.
use vstd::prelude::*;

use crate::coord_in_range;
use crate::FixedPoint;

verus! {

/// Flatness tolerance in 28.4 units: a curve whose second differences are at
/// most this large is replaced by its chord (a quarter pixel).
pub const FLATTEN_TOLERANCE: i32 = 4;

/// Bound on the subdivision depth; at depth 0 the chord is emitted even if
/// the tolerance is not met, which guarantees termination.
pub const MAX_FLATTEN_DEPTH: u32 = 16;

/// The midpoint of two 28.4 coordinates, rounded toward negative infinity.
pub open spec fn mid_coord(a: i32, b: i32) -> i32 {
    ((a + b) / 2) as i32
}

/// The midpoint of two points, coordinatewise.
pub open spec fn mid_point(p: FixedPoint, q: FixedPoint) -> FixedPoint {
    FixedPoint { x: mid_coord(p.x, q.x), y: mid_coord(p.y, q.y) }
}

/// Whether the curve deviates from its chord by at most the tolerance: both
/// second differences of the control polygon are small in each coordinate.
pub open spec fn flat_enough(p0: FixedPoint, p1: FixedPoint, p2: FixedPoint, p3: FixedPoint) -> bool {
    let ax = p0.x - 2 * p1.x + p2.x;
    let ay = p0.y - 2 * p1.y + p2.y;
    let bx = p1.x - 2 * p2.x + p3.x;
    let by = p1.y - 2 * p2.y + p3.y;
    -FLATTEN_TOLERANCE <= ax <= FLATTEN_TOLERANCE && -FLATTEN_TOLERANCE <= ay <= FLATTEN_TOLERANCE
        && -FLATTEN_TOLERANCE <= bx <= FLATTEN_TOLERANCE && -FLATTEN_TOLERANCE <= by
        <= FLATTEN_TOLERANCE
}

/// The ordered segment end points that flattening the cubic
/// `(p0, p1, p2, p3)` produces (the start point `p0` is not repeated).
/// Subdivision halves the curve at its midpoint until it is flat enough or
/// the depth is exhausted.
pub open spec fn flatten_rec(
    p0: FixedPoint,
    p1: FixedPoint,
    p2: FixedPoint,
    p3: FixedPoint,
    depth: nat,
) -> Seq<FixedPoint>
    decreases depth,
{
    if depth == 0 || flat_enough(p0, p1, p2, p3) {
        seq![p3]
    } else {
        let l1 = mid_point(p0, p1);
        let m = mid_point(p1, p2);
        let r2 = mid_point(p2, p3);
        let l2 = mid_point(l1, m);
        let r1 = mid_point(m, r2);
        let l3 = mid_point(l2, r1);
        flatten_rec(p0, l1, l2, l3, (depth - 1) as nat) + flatten_rec(
            l3,
            r1,
            r2,
            p3,
            (depth - 1) as nat,
        )
    }
}

/// Whether both coordinates of a point are in the representable range.
pub open spec fn point_in_range(p: FixedPoint) -> bool {
    coord_in_range(p.x) && coord_in_range(p.y)
}

/// Flattening always produces at least one segment and ends exactly at the
/// curve's end point, so the polyline reaches where the curve reaches and
/// subpath closing connects the right points.
pub proof fn lemma_flatten_ends_at_curve_end(
    p0: FixedPoint,
    p1: FixedPoint,
    p2: FixedPoint,
    p3: FixedPoint,
    depth: nat,
)
    ensures
        flatten_rec(p0, p1, p2, p3, depth).len() > 0,
        flatten_rec(p0, p1, p2, p3, depth).last() == p3,
    decreases depth,
{
    if !(depth == 0 || flat_enough(p0, p1, p2, p3)) {
        let l1 = mid_point(p0, p1);
        let m = mid_point(p1, p2);
        let r2 = mid_point(p2, p3);
        let l2 = mid_point(l1, m);
        let r1 = mid_point(m, r2);
        let l3 = mid_point(l2, r1);
        lemma_flatten_ends_at_curve_end(p0, l1, l2, l3, (depth - 1) as nat);
        lemma_flatten_ends_at_curve_end(l3, r1, r2, p3, (depth - 1) as nat);
    }
}

/// Rounded-down average of two in-range 28.4 coordinates.
fn avg_coord(a: i32, b: i32) -> (r: i32)
    requires
        coord_in_range(a),
        coord_in_range(b),
    ensures
        r == mid_coord(a, b),
        coord_in_range(r),
{
    let s: i64 = a as i64 + b as i64;
    let q: i64 = match s.checked_div_euclid(2) {
        Some(q) => q,
        None => 0,
    };
    q as i32
}

/// Midpoint of two in-range points.
fn avg_point(p: FixedPoint, q: FixedPoint) -> (r: FixedPoint)
    requires
        point_in_range(p),
        point_in_range(q),
    ensures
        r == mid_point(p, q),
        point_in_range(r),
{
    FixedPoint { x: avg_coord(p.x, q.x), y: avg_coord(p.y, q.y) }
}

/// Appends to `out` the segment end points that approximate the cubic
/// `(p0, p1, p2, p3)` within the flattening tolerance.
pub fn flatten_curve(
    p0: FixedPoint,
    p1: FixedPoint,
    p2: FixedPoint,
    p3: FixedPoint,
    depth: u32,
    out: &mut Vec<FixedPoint>,
)
    requires
        point_in_range(p0),
        point_in_range(p1),
        point_in_range(p2),
        point_in_range(p3),
    ensures
        final(out)@ == old(out)@ + flatten_rec(p0, p1, p2, p3, depth as nat),
        forall|m: int|
            old(out)@.len() <= m < final(out)@.len() ==> point_in_range(#[trigger] final(out)@[m]),
    decreases depth,
{
    let ax: i64 = p0.x as i64 - 2 * p1.x as i64 + p2.x as i64;
    let ay: i64 = p0.y as i64 - 2 * p1.y as i64 + p2.y as i64;
    let bx: i64 = p1.x as i64 - 2 * p2.x as i64 + p3.x as i64;
    let by: i64 = p1.y as i64 - 2 * p2.y as i64 + p3.y as i64;
    let tol: i64 = FLATTEN_TOLERANCE as i64;
    let flat = -tol <= ax && ax <= tol && -tol <= ay && ay <= tol && -tol <= bx && bx <= tol
        && -tol <= by && by <= tol;
    if depth == 0 || flat {
        out.push(p3);
        proof {
            assert(out@ =~= old(out)@ + flatten_rec(p0, p1, p2, p3, depth as nat));
        }
    } else {
        let l1 = avg_point(p0, p1);
        let m = avg_point(p1, p2);
        let r2 = avg_point(p2, p3);
        let l2 = avg_point(l1, m);
        let r1 = avg_point(m, r2);
        let l3 = avg_point(l2, r1);
        flatten_curve(p0, l1, l2, l3, depth - 1, out);
        flatten_curve(l3, r1, r2, p3, depth - 1, out);
        proof {
            assert(out@ =~= old(out)@ + flatten_rec(p0, p1, p2, p3, depth as nat));
        }
    }
}

} // verus!
