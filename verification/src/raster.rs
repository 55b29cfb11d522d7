//! Pipeline orchestration: range validation, edge extraction, the scanline
//! sweep over every pixel row of the clip rectangle, and strip building,
//! wired into one rasterize call.
use vstd::prelude::*;

use crate::cover::coverage_row;
use crate::cover::coverage_row_at;
use crate::cover::sub_rows;
use crate::edges::extract_edges;
use crate::edges::path_edges;
use crate::edges::path_ok;
use crate::edges::Edge;
use crate::points_in_range;
use crate::strip::bands_of_rows;
use crate::strip::build_bands;
use crate::strip::emit_strip;
use crate::strip::row_runs;
use crate::strip::run_rows_view;
use crate::strip::runs_of_row;
use crate::strip::strip_vertices;
use crate::strip::CoverRun;
use crate::strip::SpanMode;
use crate::FillMode;
use crate::FixedPoint;
use crate::OutputVertex;
use crate::SUBPIXEL_COUNT;

verus! {

/// The span mode that the two outside-geometry flags select.
pub open spec fn span_mode(need_inside: bool, need_outside: bool) -> SpanMode {
    if !need_outside {
        SpanMode::InsideOnly
    } else if need_inside {
        SpanMode::WithComplement
    } else {
        SpanMode::ComplementOnly
    }
}

/// The kept coverage runs of one pixel row of the sweep: the coverage of
/// the `w` pixels starting at column `clip_x`, on the pixel row whose
/// topmost subpixel row is `16 * y`, merged into runs.
pub open spec fn sweep_row(
    fill: FillMode,
    edges: Seq<Edge>,
    clip_x: int,
    w: int,
    y: int,
    mode: SpanMode,
) -> Seq<CoverRun> {
    runs_of_row(
        coverage_row(fill, sub_rows(edges, SUBPIXEL_COUNT * y, SUBPIXEL_COUNT as int), clip_x, w),
        mode,
        clip_x,
    )
}

/// The run rows of the first `n` pixel rows of the clip rectangle.
pub open spec fn sweep_rows(
    fill: FillMode,
    edges: Seq<Edge>,
    clip_x: int,
    clip_y: int,
    w: int,
    mode: SpanMode,
    n: int,
) -> Seq<Seq<CoverRun>>
    decreases n,
{
    if n <= 0 {
        Seq::<Seq<CoverRun>>::empty()
    } else {
        sweep_rows(fill, edges, clip_x, clip_y, w, mode, n - 1).push(
            sweep_row(fill, edges, clip_x, w, clip_y + (n - 1), mode),
        )
    }
}

/// The triangle strip of an edge set over the clip rectangle: every pixel
/// row is swept, rows are merged into bands, and the bands are emitted as
/// strip-joined quads.
pub open spec fn raster_core(
    fill: FillMode,
    edges: Seq<Edge>,
    clip_x: int,
    clip_y: int,
    w: int,
    h: int,
    mode: SpanMode,
) -> Seq<OutputVertex> {
    strip_vertices(bands_of_rows(sweep_rows(fill, edges, clip_x, clip_y, w, mode, h), clip_y))
}

/// What rasterization returns: the empty sequence when a coordinate is out
/// of the representable range, the type/point sequence is malformed, or the
/// clip rectangle is degenerate; otherwise the strip of the path's edges.
pub open spec fn rasterize_model(
    fill: FillMode,
    types: Seq<u8>,
    points: Seq<FixedPoint>,
    clip_x: int,
    clip_y: int,
    clip_width: int,
    clip_height: int,
    need_inside: bool,
    need_outside: bool,
) -> Seq<OutputVertex> {
    if !points_in_range(points) {
        Seq::<OutputVertex>::empty()
    } else if !path_ok(types, points) {
        Seq::<OutputVertex>::empty()
    } else if clip_width <= 0 || clip_height <= 0 {
        Seq::<OutputVertex>::empty()
    } else {
        raster_core(
            fill,
            path_edges(types, points),
            clip_x,
            clip_y,
            clip_width,
            clip_height,
            span_mode(need_inside, need_outside),
        )
    }
}

/// Converts a path, given as type bytes and 28.4 fixed-point points, into
/// an antialiased triangle-strip vertex list clipped to the clip rectangle.
///
/// By default only the inside of the path is filled; with `need_outside`
/// the area of the clip rectangle outside the path is emitted as
/// zero-coverage geometry, and `need_inside` selects whether the inside is
/// kept as well.  Any out-of-range coordinate, malformed sequence or
/// degenerate clip rectangle yields an empty list: no partial output is
/// ever returned.
pub fn rasterize_to_tri_strip(
    fill_mode: FillMode,
    types: &[u8],
    points: &[FixedPoint],
    clip_x: i32,
    clip_y: i32,
    clip_width: i32,
    clip_height: i32,
    need_inside: bool,
    need_outside: bool,
) -> (r: Vec<OutputVertex>)
    requires
        clip_x + clip_width <= 2147483647,
        clip_y + clip_height <= 2147483647,
    ensures
        r@ == rasterize_model(
            fill_mode,
            types@,
            points@,
            clip_x as int,
            clip_y as int,
            clip_width as int,
            clip_height as int,
            need_inside,
            need_outside,
        ),
        r@.len() % 6 == 0,
        forall|m: int| 0 <= m < r@.len() ==> (#[trigger] r@[m]).coverage <= crate::COVERAGE_ONE,
        forall|m: int|
            0 <= m < r@.len() ==> clip_x <= (#[trigger] r@[m]).x <= clip_x + clip_width && clip_y
                <= r@[m].y <= clip_y + clip_height,
{
    proof {
        crate::laws::lemma_output_is_whole_quads(
            fill_mode,
            types@,
            points@,
            clip_x as int,
            clip_y as int,
            clip_width as int,
            clip_height as int,
            need_inside,
            need_outside,
        );
        crate::laws::lemma_coverage_in_range(
            fill_mode,
            types@,
            points@,
            clip_x as int,
            clip_y as int,
            clip_width as int,
            clip_height as int,
            need_inside,
            need_outside,
        );
        crate::laws::lemma_output_inside_clip(
            fill_mode,
            types@,
            points@,
            clip_x as int,
            clip_y as int,
            clip_width as int,
            clip_height as int,
            need_inside,
            need_outside,
        );
    }
    if !crate::all_points_in_range(points) {
        return Vec::new();
    }
    let edges = match extract_edges(types, points) {
        Some(edges) => edges,
        None => {
            return Vec::new();
        },
    };
    if clip_width <= 0 || clip_height <= 0 {
        return Vec::new();
    }
    let mode = if !need_outside {
        SpanMode::InsideOnly
    } else if need_inside {
        SpanMode::WithComplement
    } else {
        SpanMode::ComplementOnly
    };
    let w = clip_width as usize;
    let h = clip_height as usize;
    let mut rows: Vec<Vec<CoverRun>> = Vec::new();
    let mut yi: usize = 0;
    while yi < h
        invariant
            0 <= yi <= h,
            w == clip_width as int,
            h == clip_height as int,
            0 < clip_width,
            0 < clip_height,
            clip_x + clip_width <= 2147483647,
            clip_y + clip_height <= 2147483647,
            forall|m: int|
                0 <= m < edges@.len() ==> crate::edges::edge_wf(#[trigger] edges@[m]),
            rows@.len() == yi,
            run_rows_view(rows@) == sweep_rows(
                fill_mode,
                edges@,
                clip_x as int,
                clip_y as int,
                w as int,
                mode,
                yi as int,
            ),
        decreases h - yi,
    {
        let jbase: i64 = (SUBPIXEL_COUNT as i64) * (clip_y as i64 + yi as i64);
        let cov = coverage_row_at(&edges, fill_mode, jbase, clip_x, w);
        let runs = row_runs(&cov, mode, clip_x);
        rows.push(runs);
        proof {
            assert(run_rows_view(rows@) =~= sweep_rows(
                fill_mode,
                edges@,
                clip_x as int,
                clip_y as int,
                w as int,
                mode,
                yi + 1,
            ));
        }
        yi = yi + 1;
    }
    let bands = build_bands(&rows, clip_y);
    emit_strip(&bands)
}

} // verus!
