//! Path construction: accumulates move/line/curve calls into the point and
//! type arrays consumed by the rasterizer, applying the pixel-center 28.4
//! convention and tracking whether every drawn coordinate was representable.
use vstd::prelude::*;

use crate::raster::rasterize_model;
use crate::FillMode;
use crate::FixedPoint;
use crate::OutputVertex;
use crate::PATH_POINT_TYPE_BEZIER;
use crate::PATH_POINT_TYPE_CLOSE;
use crate::PATH_POINT_TYPE_LINE;
use crate::PATH_POINT_TYPE_START;

verus! {

/// An integer pixel rectangle, given by its edges.
#[derive(Clone, Copy, Debug, PartialEq, Eq, Structural)]
pub struct SurfaceRect {
    pub left: i32,
    pub top: i32,
    pub right: i32,
    pub bottom: i32,
}

/// A buffered start point: a subpath start that has not been drawn yet.
/// `in_range` records whether the coordinate, before conversion to 28.4
/// fixed point, was inside the representable range.
#[derive(Clone, Copy, Debug, PartialEq, Eq, Structural)]
pub struct PendingPoint {
    pub x: i32,
    pub y: i32,
    pub in_range: bool,
}

/// A finished path: the fill mode and the point and type arrays, handed to
/// the caller by [`PathBuilder::get_path`].
#[derive(Clone)]
pub struct OutputPath {
    pub fill_mode: FillMode,
    pub points: Vec<FixedPoint>,
    pub types: Vec<u8>,
}

impl Default for OutputPath {
    /// An empty path with the default even-odd fill.
    fn default() -> (r: Self)
        ensures
            r.fill_mode == FillMode::EvenOdd,
            r.points@ == Seq::<FixedPoint>::empty(),
            r.types@ == Seq::<u8>::empty(),
    {
        OutputPath { fill_mode: FillMode::EvenOdd, points: Vec::new(), types: Vec::new() }
    }
}

/// Builds the point and type arrays for one path and rasterizes them.
///
/// Coordinates are taken in 28.4 fixed point (one unit is 1/16 pixel), after
/// the caller has shifted them by -0.5 pixel and scaled by 16; each call also
/// carries whether the unconverted coordinate was in the representable range.
/// A single out-of-range coordinate on a drawn point invalidates the whole
/// path: rasterization then returns an empty vertex list.
pub struct PathBuilder {
    pub points: Vec<FixedPoint>,
    pub types: Vec<u8>,
    pub initial_point: Option<PendingPoint>,
    pub in_shape: bool,
    pub fill_mode: FillMode,
    pub outside_bounds: Option<SurfaceRect>,
    pub need_inside: bool,
    pub valid_range: bool,
}

/// The mathematical state of a [`PathBuilder`].
pub struct BuilderModel {
    pub points: Seq<FixedPoint>,
    pub types: Seq<u8>,
    pub initial_point: Option<PendingPoint>,
    pub in_shape: bool,
    pub fill_mode: FillMode,
    pub outside_bounds: Option<SurfaceRect>,
    pub need_inside: bool,
    pub valid_range: bool,
}

impl View for PathBuilder {
    type V = BuilderModel;

    open spec fn view(&self) -> BuilderModel {
        BuilderModel {
            points: self.points@,
            types: self.types@,
            initial_point: self.initial_point,
            in_shape: self.in_shape,
            fill_mode: self.fill_mode,
            outside_bounds: self.outside_bounds,
            need_inside: self.need_inside,
            valid_range: self.valid_range,
        }
    }
}

/// The state of a freshly created builder.
pub open spec fn initial_builder() -> BuilderModel {
    BuilderModel {
        points: Seq::<FixedPoint>::empty(),
        types: Seq::<u8>::empty(),
        initial_point: Option::<PendingPoint>::None,
        in_shape: false,
        fill_mode: FillMode::EvenOdd,
        outside_bounds: Option::<SurfaceRect>::None,
        need_inside: true,
        valid_range: true,
    }
}

/// Flushes the buffered start point: if the builder is not inside a subpath,
/// a Start entry for the pending point is appended and drawing begins.
pub open spec fn flush_start_model(s: BuilderModel, ip: PendingPoint) -> BuilderModel {
    if !s.in_shape {
        BuilderModel {
            types: s.types.push(PATH_POINT_TYPE_START),
            points: s.points.push(FixedPoint { x: ip.x, y: ip.y }),
            valid_range: s.valid_range && ip.in_range,
            in_shape: true,
            ..s
        }
    } else {
        s
    }
}

/// What `line_to_fixed` does to the builder state: with no start point yet
/// the coordinate is buffered as the implicit start; otherwise the pending
/// start is flushed and a Line entry is appended.
pub open spec fn line_to_model(s: BuilderModel, x: i32, y: i32, in_range: bool) -> BuilderModel {
    match s.initial_point {
        Option::None => BuilderModel {
            initial_point: Some(PendingPoint { x, y, in_range }),
            ..s
        },
        Option::Some(ip) => {
            let s1 = flush_start_model(s, ip);
            BuilderModel {
                types: s1.types.push(PATH_POINT_TYPE_LINE),
                points: s1.points.push(FixedPoint { x, y }),
                valid_range: s1.valid_range && in_range,
                ..s1
            }
        },
    }
}

/// What `move_to_fixed` does: ends the current subpath and buffers the new
/// start point.
pub open spec fn move_to_model(s: BuilderModel, x: i32, y: i32, in_range: bool) -> BuilderModel {
    BuilderModel {
        in_shape: false,
        initial_point: Some(PendingPoint { x, y, in_range }),
        ..s
    }
}

/// What `curve_to_fixed` does: with no start point yet the first control
/// point doubles as the start; the start is flushed and a Bezier entry with
/// its three points is appended.
pub open spec fn curve_to_model(
    s: BuilderModel,
    c1x: i32,
    c1y: i32,
    in_range1: bool,
    c2x: i32,
    c2y: i32,
    in_range2: bool,
    x: i32,
    y: i32,
    in_range3: bool,
) -> BuilderModel {
    let ip = match s.initial_point {
        Option::Some(ip) => ip,
        Option::None => PendingPoint { x: c1x, y: c1y, in_range: in_range1 },
    };
    let s1 = if !s.in_shape {
        BuilderModel {
            types: s.types.push(PATH_POINT_TYPE_START),
            points: s.points.push(FixedPoint { x: ip.x, y: ip.y }),
            valid_range: s.valid_range && ip.in_range,
            initial_point: Some(ip),
            in_shape: true,
            ..s
        }
    } else {
        s
    };
    BuilderModel {
        types: s1.types.push(PATH_POINT_TYPE_BEZIER),
        points: s1.points.push(FixedPoint { x: c1x, y: c1y }).push(
            FixedPoint { x: c2x, y: c2y },
        ).push(FixedPoint { x, y }),
        valid_range: s1.valid_range && in_range1 && in_range2 && in_range3,
        ..s1
    }
}

/// What `close` does: marks the last type entry as closing its subpath and
/// ends the current subpath.
pub open spec fn close_model(s: BuilderModel) -> BuilderModel {
    let types = if s.types.len() > 0 {
        s.types.update(s.types.len() - 1, (s.types.last() | PATH_POINT_TYPE_CLOSE) as u8)
    } else {
        s.types
    };
    BuilderModel { types, in_shape: false, initial_point: Option::<PendingPoint>::None, ..s }
}

/// The clip rectangle that rasterization effectively uses: with outside
/// bounds set, their intersection with the clip rectangle; without, the
/// clip rectangle itself.  Given as (x, y, width, height, need_outside).
pub open spec fn effective_clip(
    s: BuilderModel,
    clip_x: int,
    clip_y: int,
    clip_width: int,
    clip_height: int,
) -> (int, int, int, int, bool) {
    match s.outside_bounds {
        Option::Some(rect) => {
            let x0 = vstd::math::max(clip_x, rect.left as int);
            let y0 = vstd::math::max(clip_y, rect.top as int);
            let x1 = vstd::math::min(clip_x + clip_width, rect.right as int);
            let y1 = vstd::math::min(clip_y + clip_height, rect.bottom as int);
            (x0, y0, x1 - x0, y1 - y0, true)
        },
        Option::None => (clip_x, clip_y, clip_width, clip_height, false),
    }
}

/// What the builder's rasterize call returns: the empty sequence when a
/// drawn coordinate was reported out of range, otherwise the strip of the
/// accumulated path over the effective clip rectangle.
pub open spec fn builder_rasterize_model(
    s: BuilderModel,
    clip_x: int,
    clip_y: int,
    clip_width: int,
    clip_height: int,
) -> Seq<OutputVertex> {
    if !s.valid_range {
        Seq::<OutputVertex>::empty()
    } else {
        let c = effective_clip(s, clip_x, clip_y, clip_width, clip_height);
        rasterize_model(s.fill_mode, s.types, s.points, c.0, c.1, c.2, c.3, s.need_inside, c.4)
    }
}

/// Whether the effective clip rectangle's width and height fit the machine
/// integer that carries them.
pub open spec fn effective_clip_fits(
    s: BuilderModel,
    clip_x: int,
    clip_y: int,
    clip_width: int,
    clip_height: int,
) -> bool {
    let c = effective_clip(s, clip_x, clip_y, clip_width, clip_height);
    c.2 <= 2147483647 && c.3 <= 2147483647
}

impl PathBuilder {
    /// A new, empty path: even-odd fill, no outside bounds, every coordinate
    /// so far (vacuously) in range.
    pub fn new() -> (r: Self)
        ensures
            r@ == initial_builder(),
    {
        let r = Self {
            points: Vec::new(),
            types: Vec::new(),
            initial_point: None,
            in_shape: false,
            fill_mode: FillMode::EvenOdd,
            outside_bounds: None,
            need_inside: true,
            valid_range: true,
        };
        proof {
            assert(r@ =~= initial_builder());
        }
        r
    }

    /// Appends a line segment to the given 28.4 coordinate.  Issued before
    /// any start point, the coordinate is buffered as the implicit start and
    /// nothing is drawn.
    pub fn line_to_fixed(&mut self, x: i32, y: i32, in_range: bool)
        ensures
            final(self)@ == line_to_model(old(self)@, x, y, in_range),
    {
        match self.initial_point {
            Some(ip) => {
                if !self.in_shape {
                    self.types.push(PATH_POINT_TYPE_START);
                    self.points.push(FixedPoint { x: ip.x, y: ip.y });
                    self.valid_range = self.valid_range && ip.in_range;
                    self.in_shape = true;
                }
                self.types.push(PATH_POINT_TYPE_LINE);
                self.points.push(FixedPoint { x, y });
                self.valid_range = self.valid_range && in_range;
            },
            None => {
                self.initial_point = Some(PendingPoint { x, y, in_range });
            },
        }
        proof {
            assert(self@ =~= line_to_model(old(self)@, x, y, in_range));
        }
    }

    /// Starts a new subpath at the given 28.4 coordinate.
    pub fn move_to_fixed(&mut self, x: i32, y: i32, in_range: bool)
        ensures
            final(self)@ == move_to_model(old(self)@, x, y, in_range),
    {
        self.in_shape = false;
        self.initial_point = Some(PendingPoint { x, y, in_range });
        proof {
            assert(self@ =~= move_to_model(old(self)@, x, y, in_range));
        }
    }

    /// Appends a cubic curve through the two control points to the end
    /// point, all in 28.4 coordinates.  Issued before any start point, the
    /// first control point doubles as the subpath start.
    pub fn curve_to_fixed(
        &mut self,
        c1x: i32,
        c1y: i32,
        in_range1: bool,
        c2x: i32,
        c2y: i32,
        in_range2: bool,
        x: i32,
        y: i32,
        in_range3: bool,
    )
        ensures
            final(self)@ == curve_to_model(
                old(self)@,
                c1x,
                c1y,
                in_range1,
                c2x,
                c2y,
                in_range2,
                x,
                y,
                in_range3,
            ),
    {
        let ip = match self.initial_point {
            Some(ip) => ip,
            None => PendingPoint { x: c1x, y: c1y, in_range: in_range1 },
        };
        if !self.in_shape {
            self.types.push(PATH_POINT_TYPE_START);
            self.points.push(FixedPoint { x: ip.x, y: ip.y });
            self.valid_range = self.valid_range && ip.in_range;
            self.initial_point = Some(ip);
            self.in_shape = true;
        }
        self.types.push(PATH_POINT_TYPE_BEZIER);
        self.points.push(FixedPoint { x: c1x, y: c1y });
        self.points.push(FixedPoint { x: c2x, y: c2y });
        self.points.push(FixedPoint { x, y });
        self.valid_range = self.valid_range && in_range1 && in_range2 && in_range3;
        proof {
            assert(self@ =~= curve_to_model(
                old(self)@,
                c1x,
                c1y,
                in_range1,
                c2x,
                c2y,
                in_range2,
                x,
                y,
                in_range3,
            ));
        }
    }

    /// Closes the current subpath: the segment that ends it is marked as
    /// closing, and the next drawing call starts a fresh subpath.
    pub fn close(&mut self)
        ensures
            final(self)@ == close_model(old(self)@),
    {
        let n = self.types.len();
        if n > 0 {
            let t = self.types[n - 1];
            self.types.set(n - 1, t | PATH_POINT_TYPE_CLOSE);
        }
        self.in_shape = false;
        self.initial_point = None;
        proof {
            assert(self@ =~= close_model(old(self)@));
        }
    }

    /// Selects the fill rule used by rasterization.
    pub fn set_fill_mode(&mut self, fill_mode: FillMode)
        ensures
            final(self)@ == (BuilderModel { fill_mode, ..old(self)@ }),
    {
        self.fill_mode = fill_mode;
        proof {
            assert(self@ =~= (BuilderModel { fill_mode, ..old(self)@ }));
        }
    }

    /// Enables producing geometry for the area outside the shape but within
    /// the given bounds `(left, top, right, bottom)`.  That area is emitted
    /// with zero coverage; the interior geometry is kept only when
    /// `need_inside` is true.  The bounds are intersected with the clip
    /// rectangle at rasterization time.
    pub fn set_outside_bounds(&mut self, outside_bounds: Option<(i32, i32, i32, i32)>, need_inside: bool)
        ensures
            final(self)@ == (BuilderModel {
                outside_bounds: match outside_bounds {
                    Option::Some(r) => Some(
                        SurfaceRect { left: r.0, top: r.1, right: r.2, bottom: r.3 },
                    ),
                    Option::None => None,
                },
                need_inside,
                ..old(self)@
            }),
    {
        self.outside_bounds = match outside_bounds {
            Some(r) => Some(SurfaceRect { left: r.0, top: r.1, right: r.2, bottom: r.3 }),
            None => None,
        };
        self.need_inside = need_inside;
        proof {
            assert(self@ =~= (BuilderModel {
                outside_bounds: match outside_bounds {
                    Option::Some(r) => Some(
                        SurfaceRect { left: r.0, top: r.1, right: r.2, bottom: r.3 },
                    ),
                    Option::None => None,
                },
                need_inside,
                ..old(self)@
            }));
        }
    }

    /// Rasterizes the accumulated path to an antialiased triangle strip
    /// over the clip rectangle `(clip_x, clip_y, clip_width, clip_height)`,
    /// intersected with the outside bounds when those are set.  A path with
    /// an out-of-range drawn coordinate yields an empty list.
    pub fn rasterize_to_tri_strip(
        &self,
        clip_x: i32,
        clip_y: i32,
        clip_width: i32,
        clip_height: i32,
    ) -> (r: Vec<OutputVertex>)
        requires
            clip_x + clip_width <= 2147483647,
            clip_y + clip_height <= 2147483647,
            effective_clip_fits(
                self@,
                clip_x as int,
                clip_y as int,
                clip_width as int,
                clip_height as int,
            ),
        ensures
            r@ == builder_rasterize_model(
                self@,
                clip_x as int,
                clip_y as int,
                clip_width as int,
                clip_height as int,
            ),
    {
        if !self.valid_range {
            return Vec::new();
        }
        match self.outside_bounds {
            Some(rect) => {
                let x0: i32 = if clip_x >= rect.left {
                    clip_x
                } else {
                    rect.left
                };
                let y0: i32 = if clip_y >= rect.top {
                    clip_y
                } else {
                    rect.top
                };
                let xsum: i64 = clip_x as i64 + clip_width as i64;
                let ysum: i64 = clip_y as i64 + clip_height as i64;
                let x1: i64 = if xsum <= rect.right as i64 {
                    xsum
                } else {
                    rect.right as i64
                };
                let y1: i64 = if ysum <= rect.bottom as i64 {
                    ysum
                } else {
                    rect.bottom as i64
                };
                let wi: i64 = x1 - x0 as i64;
                let hi: i64 = y1 - y0 as i64;
                if wi <= 0 || hi <= 0 {
                    return Vec::new();
                }
                crate::raster::rasterize_to_tri_strip(
                    self.fill_mode,
                    self.types.as_slice(),
                    self.points.as_slice(),
                    x0,
                    y0,
                    wi as i32,
                    hi as i32,
                    self.need_inside,
                    true,
                )
            },
            None => crate::raster::rasterize_to_tri_strip(
                self.fill_mode,
                self.types.as_slice(),
                self.points.as_slice(),
                clip_x,
                clip_y,
                clip_width,
                clip_height,
                self.need_inside,
                false,
            ),
        }
    }

    /// Hands the accumulated path out, leaving the builder's arrays empty.
    /// Returns `None` when a drawn coordinate was out of range or nothing
    /// was drawn.
    pub fn get_path(&mut self) -> (r: Option<OutputPath>)
        ensures
            (old(self)@.valid_range && old(self)@.points.len() > 0 && old(self)@.types.len() > 0)
                ==> (r is Some && (r matches Some(p) ==> p.fill_mode == old(self)@.fill_mode
                && p.points@ == old(self)@.points && p.types@ == old(self)@.types) && final(self)@
                == (BuilderModel {
                points: Seq::<FixedPoint>::empty(),
                types: Seq::<u8>::empty(),
                ..old(self)@
            })),
            !(old(self)@.valid_range && old(self)@.points.len() > 0 && old(self)@.types.len() > 0)
                ==> r is None && final(self)@ == old(self)@,
    {
        if self.valid_range && self.points.len() > 0 && self.types.len() > 0 {
            let mut points: Vec<FixedPoint> = Vec::new();
            let mut types: Vec<u8> = Vec::new();
            core::mem::swap(&mut points, &mut self.points);
            core::mem::swap(&mut types, &mut self.types);
            let r = Some(OutputPath { fill_mode: self.fill_mode, points, types });
            proof {
                assert(self@ =~= (BuilderModel {
                    points: Seq::<FixedPoint>::empty(),
                    types: Seq::<u8>::empty(),
                    ..old(self)@
                }));
            }
            r
        } else {
            None
        }
    }
}

} // verus!
