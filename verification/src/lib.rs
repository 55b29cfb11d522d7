//! Antialiased scan conversion of vector paths into triangle-strip meshes.
//!
//! A path (line segments and cubic curves, possibly several subpaths, filled
//! with the even-odd or nonzero-winding rule) is converted into a flat list of
//! triangle-strip vertices whose per-vertex coverage encodes antialiased
//! coverage of the fill region, clipped to a pixel rectangle.  All coordinates
//! are 28.4 signed fixed point: one unit is 1/16 of a pixel.  Coverage is
//! reported as a numerator over [`COVERAGE_ONE`]: the fraction of the 16 x 16
//! subpixel sample grid of a pixel that the fill covers.
//!
//! The exact vertex output is a function of the inputs and of the fixed
//! configuration constants ([`SUBPIXEL_COUNT`], the flattening tolerance and
//! depth bound): for one configuration it is reproducible bit for bit, which
//! the contracts state by giving every stage a mathematical model.
use vstd::prelude::*;

pub mod path;
pub mod flatten;
pub mod edges;
pub mod cover;
pub mod strip;
pub mod raster;
pub mod laws;

pub use raster::rasterize_to_tri_strip;

pub use path::BuilderModel;
pub use path::OutputPath;
pub use path::PathBuilder;
pub use path::PendingPoint;
pub use path::SurfaceRect;

verus! {

/// Tag for a point that starts a new subpath.
pub const PATH_POINT_TYPE_START: u8 = 0;
/// Tag for a point that continues the current subpath with a line segment.
pub const PATH_POINT_TYPE_LINE: u8 = 1;
/// Tag for a cubic curve; it consumes three points (two control points and
/// the end point).
pub const PATH_POINT_TYPE_BEZIER: u8 = 3;
/// Mask for the base tag of a type byte.
pub const PATH_POINT_TYPE_MASK: u8 = 0x07;
/// Flag set on the type byte that ends a subpath explicitly.
pub const PATH_POINT_TYPE_CLOSE: u8 = 0x80;

/// Largest representable 28.4 coordinate fed to the engine.
pub const FIXED_COORD_MAX: i32 = 134217727;
/// Smallest representable 28.4 coordinate fed to the engine.
pub const FIXED_COORD_MIN: i32 = -134217728;

/// Number of subpixel sample rows (and sample columns) per pixel.
pub const SUBPIXEL_COUNT: i32 = 16;

/// Coverage denominator: a fully covered pixel has this coverage numerator.
pub const COVERAGE_ONE: u16 = 256;

/// A point in 28.4 fixed-point device space.
#[derive(Clone, Copy, Debug, PartialEq, Eq, Structural)]
pub struct FixedPoint {
    pub x: i32,
    pub y: i32,
}

/// The fill rule used to classify points as inside the path.
#[derive(Clone, Copy, Debug, PartialEq, Eq, Structural)]
pub enum FillMode {
    /// A point is inside if a ray from it crosses the boundary an odd number
    /// of times.
    EvenOdd,
    /// A point is inside if the signed count of oriented boundary crossings
    /// is nonzero.
    Winding,
}

impl Default for FillMode {
    fn default() -> (r: Self)
        ensures
            r == FillMode::EvenOdd,
    {
        FillMode::EvenOdd
    }
}

/// One vertex of the output triangle strip: a device-pixel position and the
/// coverage numerator (over [`COVERAGE_ONE`]) used as antialiasing alpha.
#[derive(Clone, Copy, Debug, Hash, PartialEq, Eq, Structural)]
pub struct OutputVertex {
    pub x: i32,
    pub y: i32,
    pub coverage: u16,
}

/// Whether one 28.4 coordinate lies in the representable range.
pub open spec fn coord_in_range(v: i32) -> bool {
    FIXED_COORD_MIN <= v && v <= FIXED_COORD_MAX
}

/// Whether every coordinate of every point lies in the representable range.
pub open spec fn points_in_range(points: Seq<FixedPoint>) -> bool {
    forall|i: int| 0 <= i < points.len() ==> coord_in_range(#[trigger] points[i].x) && coord_in_range(points[i].y)
}

/// Checks that every point of the path lies in the representable 28.4 range.
pub fn all_points_in_range(points: &[FixedPoint]) -> (r: bool)
    ensures
        r == points_in_range(points@),
{
    let mut i: usize = 0;
    while i < points.len()
        invariant
            0 <= i <= points@.len(),
            forall|j: int| 0 <= j < i ==> coord_in_range(#[trigger] points@[j].x) && coord_in_range(points@[j].y),
        decreases points@.len() - i,
    {
        let p = points[i];
        if !(FIXED_COORD_MIN <= p.x && p.x <= FIXED_COORD_MAX && FIXED_COORD_MIN <= p.y && p.y <= FIXED_COORD_MAX) {
            return false;
        }
        i = i + 1;
    }
    true
}

} // verus!
