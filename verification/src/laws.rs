//! Properties of the rasterizer that hold for every input: determinism,
//! whole-path rejection of out-of-range coordinates, and the emptiness of a
//! path whose drawing never started.
use vstd::prelude::*;

use crate::coord_in_range;
use crate::cover::count_at;
use crate::cover::coverage_row;
use crate::cover::crossings_of;
use crate::cover::pixel_coverage;
use crate::cover::row_samples;
use crate::cover::sub_rows;
use crate::cover::winding_at;
use crate::cover::Crossing;
use crate::edges::path_edges;
use crate::edges::path_ok;
use crate::edges::Edge;
use crate::path::builder_rasterize_model;
use crate::path::close_model;
use crate::path::curve_to_model;
use crate::path::initial_builder;
use crate::path::line_to_model;
use crate::points_in_range;
use crate::raster::raster_core;
use crate::raster::rasterize_model;
use crate::raster::sweep_rows;
use crate::strip::band_scan;
use crate::strip::band_vertices;
use crate::strip::bands_of_rows;
use crate::strip::run_scan;
use crate::strip::runs_of_row;
use crate::strip::strip_vertices;
use crate::strip::CoverRun;
use crate::strip::SpanMode;
use crate::FillMode;
use crate::FixedPoint;
use crate::OutputVertex;

verus! {

proof fn lemma_empty_row_samples(fill: FillMode, base: int, c: int)
    ensures
        row_samples(fill, Seq::<Crossing>::empty(), base, c) == 0,
    decreases c,
{
    if c > 0 {
        lemma_empty_row_samples(fill, base, c - 1);
        assert(count_at(Seq::<Crossing>::empty(), base + (c - 1)) == 0);
        assert(winding_at(Seq::<Crossing>::empty(), base + (c - 1)) == 0);
    }
}

proof fn lemma_no_edges_pixel_coverage(fill: FillMode, jbase: int, n: int, xpix: int)
    ensures
        pixel_coverage(fill, sub_rows(Seq::<Edge>::empty(), jbase, n), xpix) == 0,
    decreases n,
{
    if n > 0 {
        lemma_no_edges_pixel_coverage(fill, jbase, n - 1, xpix);
        let rows = sub_rows(Seq::<Edge>::empty(), jbase, n);
        assert(rows.drop_last() =~= sub_rows(Seq::<Edge>::empty(), jbase, n - 1));
        assert(rows.last() == crossings_of(Seq::<Edge>::empty(), jbase + (n - 1)));
        lemma_empty_row_samples(fill, 16 * xpix, 16);
    } else {
        assert(sub_rows(Seq::<Edge>::empty(), jbase, n).len() == 0);
    }
}

proof fn lemma_no_edges_coverage_row_zero(fill: FillMode, jbase: int, clip_x: int, w: int)
    ensures
        coverage_row(fill, sub_rows(Seq::<Edge>::empty(), jbase, 16), clip_x, w).len() == if w
            <= 0 {
            0int
        } else {
            w
        },
        forall|m: int|
            0 <= m < coverage_row(fill, sub_rows(Seq::<Edge>::empty(), jbase, 16), clip_x, w).len()
                ==> coverage_row(fill, sub_rows(Seq::<Edge>::empty(), jbase, 16), clip_x, w)[m]
                == 0,
    decreases w,
{
    if w > 0 {
        lemma_no_edges_coverage_row_zero(fill, jbase, clip_x, w - 1);
        lemma_no_edges_pixel_coverage(fill, jbase, 16, clip_x + (w - 1));
    }
}

proof fn lemma_zero_row_runs_inside_empty(cov: Seq<u16>, clip_x: int, n: int)
    requires
        forall|m: int| 0 <= m < cov.len() ==> cov[m] == 0,
        n <= cov.len(),
    ensures
        run_scan(cov, SpanMode::InsideOnly, clip_x, n).out == Seq::<CoverRun>::empty(),
        n > 0 ==> run_scan(cov, SpanMode::InsideOnly, clip_x, n).open && run_scan(
            cov,
            SpanMode::InsideOnly,
            clip_x,
            n,
        ).val == 0,
    decreases n,
{
    if n > 0 {
        lemma_zero_row_runs_inside_empty(cov, clip_x, n - 1);
    }
}

proof fn lemma_no_edges_sweep_rows_empty(
    fill: FillMode,
    clip_x: int,
    clip_y: int,
    w: int,
    n: int,
)
    ensures
        forall|m: int|
            0 <= m < sweep_rows(
                fill,
                Seq::<Edge>::empty(),
                clip_x,
                clip_y,
                w,
                SpanMode::InsideOnly,
                n,
            ).len() ==> sweep_rows(
                fill,
                Seq::<Edge>::empty(),
                clip_x,
                clip_y,
                w,
                SpanMode::InsideOnly,
                n,
            )[m] == Seq::<CoverRun>::empty(),
    decreases n,
{
    if n > 0 {
        lemma_no_edges_sweep_rows_empty(fill, clip_x, clip_y, w, n - 1);
        let jbase = 16 * (clip_y + (n - 1));
        let cov = coverage_row(fill, sub_rows(Seq::<Edge>::empty(), jbase, 16), clip_x, w);
        lemma_no_edges_coverage_row_zero(fill, jbase, clip_x, w);
        lemma_zero_row_runs_inside_empty(cov, clip_x, cov.len() as int);
        assert(runs_of_row(cov, SpanMode::InsideOnly, clip_x) =~= Seq::<CoverRun>::empty());
        assert(sweep_rows(
            fill,
            Seq::<Edge>::empty(),
            clip_x,
            clip_y,
            w,
            SpanMode::InsideOnly,
            n,
        ).drop_last() =~= sweep_rows(
            fill,
            Seq::<Edge>::empty(),
            clip_x,
            clip_y,
            w,
            SpanMode::InsideOnly,
            n - 1,
        ));
    }
}

proof fn lemma_empty_rows_no_bands(rows: Seq<Seq<CoverRun>>, clip_y: int, n: int)
    requires
        forall|m: int| 0 <= m < rows.len() ==> rows[m] == Seq::<CoverRun>::empty(),
        n <= rows.len(),
    ensures
        band_scan(rows, clip_y, n).out == Seq::<crate::strip::BandModel>::empty(),
        !band_scan(rows, clip_y, n).open,
    decreases n,
{
    if n > 0 {
        lemma_empty_rows_no_bands(rows, clip_y, n - 1);
    }
}

/// A path with no edges produces no geometry when only the inside of the
/// shape is asked for, whatever the clip rectangle.
pub proof fn lemma_no_edges_inside_empty(
    fill: FillMode,
    clip_x: int,
    clip_y: int,
    w: int,
    h: int,
)
    ensures
        raster_core(
            fill,
            Seq::<Edge>::empty(),
            clip_x,
            clip_y,
            w,
            h,
            SpanMode::InsideOnly,
        ) == Seq::<OutputVertex>::empty(),
{
    let rows = sweep_rows(fill, Seq::<Edge>::empty(), clip_x, clip_y, w, SpanMode::InsideOnly, h);
    lemma_no_edges_sweep_rows_empty(fill, clip_x, clip_y, w, h);
    lemma_empty_rows_no_bands(rows, clip_y, rows.len() as int);
    assert(bands_of_rows(rows, clip_y) == Seq::<crate::strip::BandModel>::empty());
}

proof fn lemma_band_vertices_quads(b: crate::strip::BandModel)
    ensures
        band_vertices(b).len() % 6 == 0,
    decreases b.runs.len(),
{
    if b.runs.len() > 0 {
        lemma_band_vertices_quads(crate::strip::BandModel { runs: b.runs.drop_last(), ..b });
    }
}

proof fn lemma_strip_vertices_quads(bands: Seq<crate::strip::BandModel>)
    ensures
        strip_vertices(bands).len() % 6 == 0,
    decreases bands.len(),
{
    if bands.len() > 0 {
        lemma_strip_vertices_quads(bands.drop_last());
        lemma_band_vertices_quads(bands.last());
    }
}

/// The output is always a whole number of strip-joined quads: its length
/// is a multiple of six, so every group of six consecutive vertices is one
/// axis-aligned quad with its seam vertices doubled.
pub proof fn lemma_output_is_whole_quads(
    fill: FillMode,
    types: Seq<u8>,
    points: Seq<FixedPoint>,
    clip_x: int,
    clip_y: int,
    clip_width: int,
    clip_height: int,
    need_inside: bool,
    need_outside: bool,
)
    ensures
        rasterize_model(
            fill,
            types,
            points,
            clip_x,
            clip_y,
            clip_width,
            clip_height,
            need_inside,
            need_outside,
        ).len() % 6 == 0,
{
    let r = rasterize_model(
        fill,
        types,
        points,
        clip_x,
        clip_y,
        clip_width,
        clip_height,
        need_inside,
        need_outside,
    );
    if points_in_range(points) && path_ok(types, points) && clip_width > 0 && clip_height > 0 {
        let mode = crate::raster::span_mode(need_inside, need_outside);
        let rows = sweep_rows(
            fill,
            path_edges(types, points),
            clip_x,
            clip_y,
            clip_width,
            mode,
            clip_height,
        );
        lemma_strip_vertices_quads(bands_of_rows(rows, clip_y));
    }
}

proof fn lemma_row_samples_bound(fill: FillMode, cs: Seq<Crossing>, base: int, c: int)
    ensures
        0 <= row_samples(fill, cs, base, c),
        c >= 0 ==> row_samples(fill, cs, base, c) <= c,
    decreases c,
{
    if c > 0 {
        lemma_row_samples_bound(fill, cs, base, c - 1);
    }
}

proof fn lemma_sub_rows_len(edges: Seq<Edge>, jbase: int, n: int)
    ensures
        n >= 0 ==> sub_rows(edges, jbase, n).len() == n,
    decreases n,
{
    if n > 0 {
        lemma_sub_rows_len(edges, jbase, n - 1);
    }
}

proof fn lemma_pixel_coverage_bound(fill: FillMode, rows: Seq<Seq<Crossing>>, xpix: int)
    ensures
        0 <= pixel_coverage(fill, rows, xpix) <= 16 * rows.len(),
    decreases rows.len(),
{
    if rows.len() > 0 {
        lemma_pixel_coverage_bound(fill, rows.drop_last(), xpix);
        lemma_row_samples_bound(fill, rows.last(), 16 * xpix, 16);
    }
}

proof fn lemma_coverage_row_bound(fill: FillMode, edges: Seq<Edge>, jbase: int, clip_x: int, w: int)
    ensures
        forall|m: int|
            0 <= m < coverage_row(fill, sub_rows(edges, jbase, 16), clip_x, w).len()
                ==> #[trigger] coverage_row(fill, sub_rows(edges, jbase, 16), clip_x, w)[m] <= 256,
    decreases w,
{
    if w > 0 {
        lemma_coverage_row_bound(fill, edges, jbase, clip_x, w - 1);
        lemma_sub_rows_len(edges, jbase, 16);
        lemma_pixel_coverage_bound(fill, sub_rows(edges, jbase, 16), clip_x + (w - 1));
        let cur = coverage_row(fill, sub_rows(edges, jbase, 16), clip_x, w);
        let prev = coverage_row(fill, sub_rows(edges, jbase, 16), clip_x, w - 1);
        assert forall|m: int| 0 <= m < cur.len() implies #[trigger] cur[m] <= 256 by {
            if m < prev.len() {
                assert(cur[m] == prev[m]);
            } else {
                assert(cur[m] == pixel_coverage(
                    fill,
                    sub_rows(edges, jbase, 16),
                    clip_x + (w - 1),
                ) as u16);
            }
        }
    }
}

proof fn lemma_run_scan_cover_bound(cov: Seq<u16>, mode: SpanMode, clip_x: int, n: int)
    requires
        forall|m: int| 0 <= m < cov.len() ==> #[trigger] cov[m] <= 256,
        n <= cov.len(),
    ensures
        forall|m: int|
            0 <= m < run_scan(cov, mode, clip_x, n).out.len() ==> (#[trigger] run_scan(
                cov,
                mode,
                clip_x,
                n,
            ).out[m]).cover <= 256,
        run_scan(cov, mode, clip_x, n).open ==> run_scan(cov, mode, clip_x, n).val <= 256,
    decreases n,
{
    if n > 0 {
        lemma_run_scan_cover_bound(cov, mode, clip_x, n - 1);
    }
}

/// All run covers of one swept row are at most the full-coverage numerator.
proof fn lemma_sweep_row_cover_bound(
    fill: FillMode,
    edges: Seq<Edge>,
    clip_x: int,
    w: int,
    y: int,
    mode: SpanMode,
)
    ensures
        forall|m: int|
            0 <= m < crate::raster::sweep_row(fill, edges, clip_x, w, y, mode).len() ==> (
            #[trigger] crate::raster::sweep_row(fill, edges, clip_x, w, y, mode)[m]).cover <= 256,
{
    let cov = coverage_row(fill, sub_rows(edges, 16 * y, 16), clip_x, w);
    lemma_coverage_row_bound(fill, edges, 16 * y, clip_x, w);
    lemma_run_scan_cover_bound(cov, mode, clip_x, cov.len() as int);
}

/// Whether every run of every row has a cover of at most 256.
spec fn rows_cover_bounded(rows: Seq<Seq<CoverRun>>) -> bool {
    forall|i: int, m: int|
        0 <= i < rows.len() && 0 <= m < rows[i].len() ==> (#[trigger] rows[i][m]).cover <= 256
}

proof fn lemma_sweep_rows_cover_bound(
    fill: FillMode,
    edges: Seq<Edge>,
    clip_x: int,
    clip_y: int,
    w: int,
    mode: SpanMode,
    n: int,
)
    ensures
        rows_cover_bounded(sweep_rows(fill, edges, clip_x, clip_y, w, mode, n)),
        sweep_rows(fill, edges, clip_x, clip_y, w, mode, n).len() == if n <= 0 {
            0int
        } else {
            n
        },
    decreases n,
{
    if n > 0 {
        lemma_sweep_rows_cover_bound(fill, edges, clip_x, clip_y, w, mode, n - 1);
        lemma_sweep_row_cover_bound(fill, edges, clip_x, w, clip_y + (n - 1), mode);
        let rows = sweep_rows(fill, edges, clip_x, clip_y, w, mode, n);
        assert forall|i: int, m: int|
            0 <= i < rows.len() && 0 <= m < rows[i].len() implies (#[trigger] rows[i][m]).cover
            <= 256 by {
            if i < n - 1 {
                assert(rows[i] == sweep_rows(fill, edges, clip_x, clip_y, w, mode, n - 1)[i]);
            } else {
                assert(rows[i] == crate::raster::sweep_row(
                    fill,
                    edges,
                    clip_x,
                    w,
                    clip_y + (n - 1),
                    mode,
                ));
            }
        }
    }
}

/// Whether every run of every band has a cover of at most 256.
spec fn bands_cover_bounded(bands: Seq<crate::strip::BandModel>) -> bool {
    forall|i: int, m: int|
        0 <= i < bands.len() && 0 <= m < bands[i].runs.len() ==> (#[trigger] bands[i].runs[m]).cover
            <= 256
}

proof fn lemma_band_scan_cover_bound(rows: Seq<Seq<CoverRun>>, clip_y: int, n: int)
    requires
        rows_cover_bounded(rows),
        n <= rows.len(),
    ensures
        bands_cover_bounded(band_scan(rows, clip_y, n).out),
        band_scan(rows, clip_y, n).open ==> forall|m: int|
            0 <= m < band_scan(rows, clip_y, n).cur.len() ==> (#[trigger] band_scan(
                rows,
                clip_y,
                n,
            ).cur[m]).cover <= 256,
    decreases n,
{
    if n > 0 {
        lemma_band_scan_cover_bound(rows, clip_y, n - 1);
    }
}

proof fn lemma_band_vertices_cover_bound(b: crate::strip::BandModel)
    requires
        forall|m: int| 0 <= m < b.runs.len() ==> (#[trigger] b.runs[m]).cover <= 256,
    ensures
        forall|m: int|
            0 <= m < band_vertices(b).len() ==> (#[trigger] band_vertices(b)[m]).coverage <= 256,
    decreases b.runs.len(),
{
    if b.runs.len() > 0 {
        let shorter = crate::strip::BandModel { runs: b.runs.drop_last(), ..b };
        lemma_band_vertices_cover_bound(shorter);
        let whole = band_vertices(b);
        let left = band_vertices(shorter);
        let right = crate::strip::run_vertices(b.runs.last(), b.y0, b.y1);
        assert forall|m: int| 0 <= m < whole.len() implies (#[trigger] whole[m]).coverage
            <= 256 by {
            if m < left.len() {
                assert(whole[m] == left[m]);
            } else {
                assert(whole[m] == right[m - left.len()]);
                assert((b.runs.last()).cover <= 256);
            }
        }
    }
}

proof fn lemma_strip_vertices_cover_bound(bands: Seq<crate::strip::BandModel>)
    requires
        bands_cover_bounded(bands),
    ensures
        forall|m: int|
            0 <= m < strip_vertices(bands).len() ==> (#[trigger] strip_vertices(bands)[m]).coverage
                <= 256,
    decreases bands.len(),
{
    if bands.len() > 0 {
        lemma_strip_vertices_cover_bound(bands.drop_last());
        assert forall|m: int| 0 <= m < bands.last().runs.len() implies (
        #[trigger] bands.last().runs[m]).cover <= 256 by {
            assert(bands[bands.len() - 1].runs[m].cover <= 256);
        }
        lemma_band_vertices_cover_bound(bands.last());
        let whole = strip_vertices(bands);
        let left = strip_vertices(bands.drop_last());
        let right = band_vertices(bands.last());
        assert forall|m: int| 0 <= m < whole.len() implies (#[trigger] whole[m]).coverage
            <= 256 by {
            if m < left.len() {
                assert(whole[m] == left[m]);
            } else {
                assert(whole[m] == right[m - left.len()]);
            }
        }
    }
}

/// Every vertex's coverage is in range: at most the full-coverage
/// numerator [`crate::COVERAGE_ONE`], so the alpha it encodes is in [0, 1].
pub proof fn lemma_coverage_in_range(
    fill: FillMode,
    types: Seq<u8>,
    points: Seq<FixedPoint>,
    clip_x: int,
    clip_y: int,
    clip_width: int,
    clip_height: int,
    need_inside: bool,
    need_outside: bool,
)
    ensures
        forall|m: int|
            0 <= m < rasterize_model(
                fill,
                types,
                points,
                clip_x,
                clip_y,
                clip_width,
                clip_height,
                need_inside,
                need_outside,
            ).len() ==> (#[trigger] rasterize_model(
                fill,
                types,
                points,
                clip_x,
                clip_y,
                clip_width,
                clip_height,
                need_inside,
                need_outside,
            )[m]).coverage <= crate::COVERAGE_ONE,
{
    if points_in_range(points) && path_ok(types, points) && clip_width > 0 && clip_height > 0 {
        let mode = crate::raster::span_mode(need_inside, need_outside);
        let edges = path_edges(types, points);
        let rows = sweep_rows(fill, edges, clip_x, clip_y, clip_width, mode, clip_height);
        lemma_sweep_rows_cover_bound(fill, edges, clip_x, clip_y, clip_width, mode, clip_height);
        lemma_band_scan_cover_bound(rows, clip_y, rows.len() as int);
        let acc = band_scan(rows, clip_y, rows.len() as int);
        let bands = bands_of_rows(rows, clip_y);
        assert(bands_cover_bounded(bands)) by {
            if acc.open {
                assert forall|i: int, m: int|
                    0 <= i < bands.len() && 0 <= m < bands[i].runs.len() implies (
                #[trigger] bands[i].runs[m]).cover <= 256 by {
                    if i < bands.len() - 1 {
                        assert(bands[i] == acc.out[i]);
                    } else {
                        assert(bands[i].runs == acc.cur);
                    }
                }
            }
        }
        lemma_strip_vertices_cover_bound(bands);
    }
}

proof fn lemma_coverage_row_len(fill: FillMode, rows: Seq<Seq<Crossing>>, clip_x: int, w: int)
    ensures
        coverage_row(fill, rows, clip_x, w).len() == if w <= 0 {
            0int
        } else {
            w
        },
    decreases w,
{
    if w > 0 {
        lemma_coverage_row_len(fill, rows, clip_x, w - 1);
    }
}

/// Whether every run lies between the columns `lo` and `hi` and is
/// nonempty.
spec fn runs_x_bounded(runs: Seq<CoverRun>, lo: int, hi: int) -> bool {
    forall|m: int|
        0 <= m < runs.len() ==> lo <= (#[trigger] runs[m]).x0 < runs[m].x1 <= hi
}

proof fn lemma_run_scan_x_bound(cov: Seq<u16>, mode: SpanMode, clip_x: int, n: int)
    requires
        n <= cov.len(),
        -2147483648 <= clip_x,
        clip_x + cov.len() <= 2147483647,
    ensures
        runs_x_bounded(run_scan(cov, mode, clip_x, n).out, clip_x, clip_x + n),
        run_scan(cov, mode, clip_x, n).open ==> 0 <= run_scan(cov, mode, clip_x, n).start <= n - 1,
    decreases n,
{
    if n > 0 {
        lemma_run_scan_x_bound(cov, mode, clip_x, n - 1);
        let prev = run_scan(cov, mode, clip_x, n - 1);
        let cur = run_scan(cov, mode, clip_x, n);
        assert forall|m: int| 0 <= m < cur.out.len() implies clip_x <= (
        #[trigger] cur.out[m]).x0 < cur.out[m].x1 <= clip_x + n by {
            if m < prev.out.len() {
                assert(cur.out[m] == prev.out[m]);
                assert(clip_x <= prev.out[m].x0 < prev.out[m].x1 <= clip_x + (n - 1));
            }
        }
    }
}

/// The runs of one swept row lie between the clip rectangle's columns.
proof fn lemma_sweep_row_x_bound(
    fill: FillMode,
    edges: Seq<Edge>,
    clip_x: int,
    w: int,
    y: int,
    mode: SpanMode,
)
    requires
        -2147483648 <= clip_x,
        0 < w,
        clip_x + w <= 2147483647,
    ensures
        runs_x_bounded(
            crate::raster::sweep_row(fill, edges, clip_x, w, y, mode),
            clip_x,
            clip_x + w,
        ),
{
    let cov = coverage_row(fill, sub_rows(edges, 16 * y, 16), clip_x, w);
    lemma_coverage_row_len(fill, sub_rows(edges, 16 * y, 16), clip_x, w);
    lemma_run_scan_x_bound(cov, mode, clip_x, cov.len() as int);
}

/// Whether every run of every row lies between the columns `lo` and `hi`.
spec fn rows_x_bounded(rows: Seq<Seq<CoverRun>>, lo: int, hi: int) -> bool {
    forall|i: int| 0 <= i < rows.len() ==> runs_x_bounded(#[trigger] rows[i], lo, hi)
}

proof fn lemma_sweep_rows_x_bound(
    fill: FillMode,
    edges: Seq<Edge>,
    clip_x: int,
    clip_y: int,
    w: int,
    mode: SpanMode,
    n: int,
)
    requires
        -2147483648 <= clip_x,
        0 < w,
        clip_x + w <= 2147483647,
    ensures
        rows_x_bounded(
            sweep_rows(fill, edges, clip_x, clip_y, w, mode, n),
            clip_x,
            clip_x + w,
        ),
    decreases n,
{
    if n > 0 {
        lemma_sweep_rows_x_bound(fill, edges, clip_x, clip_y, w, mode, n - 1);
        lemma_sweep_row_x_bound(fill, edges, clip_x, w, clip_y + (n - 1), mode);
        let rows = sweep_rows(fill, edges, clip_x, clip_y, w, mode, n);
        let prev = sweep_rows(fill, edges, clip_x, clip_y, w, mode, n - 1);
        assert forall|i: int| 0 <= i < rows.len() implies runs_x_bounded(
            #[trigger] rows[i],
            clip_x,
            clip_x + w,
        ) by {
            if i < prev.len() {
                assert(rows[i] == prev[i]);
            } else {
                assert(rows[i] == crate::raster::sweep_row(
                    fill,
                    edges,
                    clip_x,
                    w,
                    clip_y + (n - 1),
                    mode,
                ));
            }
        }
    }
}

/// Whether every band lies between rows `ylo` and `yhi` and its runs
/// between columns `lo` and `hi`.
spec fn bands_bounded(
    bands: Seq<crate::strip::BandModel>,
    lo: int,
    hi: int,
    ylo: int,
    yhi: int,
) -> bool {
    forall|i: int|
        0 <= i < bands.len() ==> runs_x_bounded((#[trigger] bands[i]).runs, lo, hi) && ylo
            <= bands[i].y0 < bands[i].y1 <= yhi
}

proof fn lemma_band_scan_bounded(
    rows: Seq<Seq<CoverRun>>,
    clip_y: int,
    n: int,
    lo: int,
    hi: int,
)
    requires
        rows_x_bounded(rows, lo, hi),
        n <= rows.len(),
    ensures
        bands_bounded(band_scan(rows, clip_y, n).out, lo, hi, clip_y, clip_y + n),
        band_scan(rows, clip_y, n).open ==> 0 <= band_scan(rows, clip_y, n).start <= n - 1
            && runs_x_bounded(band_scan(rows, clip_y, n).cur, lo, hi),
    decreases n,
{
    if n > 0 {
        lemma_band_scan_bounded(rows, clip_y, n - 1, lo, hi);
        let prev = band_scan(rows, clip_y, n - 1);
        let cur = band_scan(rows, clip_y, n);
        assert forall|i: int| 0 <= i < cur.out.len() implies runs_x_bounded(
            (#[trigger] cur.out[i]).runs,
            lo,
            hi,
        ) && clip_y <= cur.out[i].y0 < cur.out[i].y1 <= clip_y + n by {
            if i < prev.out.len() {
                assert(cur.out[i] == prev.out[i]);
                assert(runs_x_bounded(prev.out[i].runs, lo, hi));
                assert(clip_y <= prev.out[i].y0 < prev.out[i].y1 <= clip_y + (n - 1));
            }
        }
    }
}

proof fn lemma_band_vertices_bounded(b: crate::strip::BandModel, lo: int, hi: int)
    requires
        runs_x_bounded(b.runs, lo, hi),
        -2147483648 <= lo,
        hi <= 2147483647,
        -2147483648 <= b.y0 < b.y1 <= 2147483647,
    ensures
        forall|m: int|
            0 <= m < band_vertices(b).len() ==> lo <= (#[trigger] band_vertices(b)[m]).x <= hi
                && b.y0 <= band_vertices(b)[m].y <= b.y1,
    decreases b.runs.len(),
{
    if b.runs.len() > 0 {
        let shorter = crate::strip::BandModel { runs: b.runs.drop_last(), ..b };
        lemma_band_vertices_bounded(shorter, lo, hi);
        let whole = band_vertices(b);
        let left = band_vertices(shorter);
        let right = crate::strip::run_vertices(b.runs.last(), b.y0, b.y1);
        assert(lo <= b.runs.last().x0 < b.runs.last().x1 <= hi);
        assert forall|m: int| 0 <= m < whole.len() implies lo <= (#[trigger] whole[m]).x <= hi
            && b.y0 <= whole[m].y <= b.y1 by {
            if m < left.len() {
                assert(whole[m] == left[m]);
            } else {
                assert(whole[m] == right[m - left.len()]);
            }
        }
    }
}

proof fn lemma_strip_vertices_bounded(
    bands: Seq<crate::strip::BandModel>,
    lo: int,
    hi: int,
    ylo: int,
    yhi: int,
)
    requires
        bands_bounded(bands, lo, hi, ylo, yhi),
        -2147483648 <= lo,
        hi <= 2147483647,
        -2147483648 <= ylo,
        yhi <= 2147483647,
    ensures
        forall|m: int|
            0 <= m < strip_vertices(bands).len() ==> lo <= (#[trigger] strip_vertices(bands)[m]).x
                <= hi && ylo <= strip_vertices(bands)[m].y <= yhi,
    decreases bands.len(),
{
    if bands.len() > 0 {
        lemma_strip_vertices_bounded(bands.drop_last(), lo, hi, ylo, yhi);
        let last = bands.last();
        assert(runs_x_bounded(last.runs, lo, hi) && ylo <= last.y0 < last.y1 <= yhi) by {
            assert(bands[bands.len() - 1] == last);
        }
        lemma_band_vertices_bounded(last, lo, hi);
        let whole = strip_vertices(bands);
        let left = strip_vertices(bands.drop_last());
        let right = band_vertices(last);
        assert forall|m: int| 0 <= m < whole.len() implies lo <= (#[trigger] whole[m]).x <= hi
            && ylo <= whole[m].y <= yhi by {
            if m < left.len() {
                assert(whole[m] == left[m]);
            } else {
                assert(whole[m] == right[m - left.len()]);
            }
        }
    }
}

/// Clipping: every vertex of the output lies inside the clip rectangle
/// (its corner coordinates range from the rectangle's low corner to its
/// high corner inclusive).
pub proof fn lemma_output_inside_clip(
    fill: FillMode,
    types: Seq<u8>,
    points: Seq<FixedPoint>,
    clip_x: int,
    clip_y: int,
    clip_width: int,
    clip_height: int,
    need_inside: bool,
    need_outside: bool,
)
    requires
        -2147483648 <= clip_x,
        -2147483648 <= clip_y,
        clip_x + clip_width <= 2147483647,
        clip_y + clip_height <= 2147483647,
    ensures
        forall|m: int|
            0 <= m < rasterize_model(
                fill,
                types,
                points,
                clip_x,
                clip_y,
                clip_width,
                clip_height,
                need_inside,
                need_outside,
            ).len() ==> clip_x <= (#[trigger] rasterize_model(
                fill,
                types,
                points,
                clip_x,
                clip_y,
                clip_width,
                clip_height,
                need_inside,
                need_outside,
            )[m]).x <= clip_x + clip_width && clip_y <= rasterize_model(
                fill,
                types,
                points,
                clip_x,
                clip_y,
                clip_width,
                clip_height,
                need_inside,
                need_outside,
            )[m].y <= clip_y + clip_height,
{
    if points_in_range(points) && path_ok(types, points) && clip_width > 0 && clip_height > 0 {
        let mode = crate::raster::span_mode(need_inside, need_outside);
        let edges = path_edges(types, points);
        let rows = sweep_rows(fill, edges, clip_x, clip_y, clip_width, mode, clip_height);
        lemma_sweep_rows_x_bound(fill, edges, clip_x, clip_y, clip_width, mode, clip_height);
        lemma_sweep_rows_cover_bound(fill, edges, clip_x, clip_y, clip_width, mode, clip_height);
        lemma_band_scan_bounded(
            rows,
            clip_y,
            rows.len() as int,
            clip_x,
            clip_x + clip_width,
        );
        let acc = band_scan(rows, clip_y, rows.len() as int);
        let bands = bands_of_rows(rows, clip_y);
        assert(bands_bounded(
            bands,
            clip_x,
            clip_x + clip_width,
            clip_y,
            clip_y + clip_height,
        )) by {
            assert forall|i: int| 0 <= i < bands.len() implies runs_x_bounded(
                (#[trigger] bands[i]).runs,
                clip_x,
                clip_x + clip_width,
            ) && clip_y <= bands[i].y0 < bands[i].y1 <= clip_y + clip_height by {
                if acc.open && i == bands.len() - 1 {
                    assert(bands[i].runs == acc.cur);
                } else {
                    assert(bands[i] == acc.out[i]);
                }
            }
        }
        lemma_strip_vertices_bounded(
            bands,
            clip_x,
            clip_x + clip_width,
            clip_y,
            clip_y + clip_height,
        );
    }
}

proof fn lemma_run_scan_complement_zero(cov: Seq<u16>, clip_x: int, n: int)
    ensures
        forall|m: int|
            0 <= m < run_scan(cov, SpanMode::ComplementOnly, clip_x, n).out.len() ==> (
            #[trigger] run_scan(cov, SpanMode::ComplementOnly, clip_x, n).out[m]).cover == 0,
    decreases n,
{
    if n > 0 {
        lemma_run_scan_complement_zero(cov, clip_x, n - 1);
        let prev = run_scan(cov, SpanMode::ComplementOnly, clip_x, n - 1);
        let cur = run_scan(cov, SpanMode::ComplementOnly, clip_x, n);
        assert forall|m: int| 0 <= m < cur.out.len() implies (#[trigger] cur.out[m]).cover
            == 0 by {
            if m < prev.out.len() {
                assert(cur.out[m] == prev.out[m]);
            }
        }
    }
}

proof fn lemma_run_scan_inside_positive(cov: Seq<u16>, clip_x: int, n: int)
    ensures
        forall|m: int|
            0 <= m < run_scan(cov, SpanMode::InsideOnly, clip_x, n).out.len() ==> (
            #[trigger] run_scan(cov, SpanMode::InsideOnly, clip_x, n).out[m]).cover > 0,
    decreases n,
{
    if n > 0 {
        lemma_run_scan_inside_positive(cov, clip_x, n - 1);
        let prev = run_scan(cov, SpanMode::InsideOnly, clip_x, n - 1);
        let cur = run_scan(cov, SpanMode::InsideOnly, clip_x, n);
        assert forall|m: int| 0 <= m < cur.out.len() implies (#[trigger] cur.out[m]).cover
            > 0 by {
            if m < prev.out.len() {
                assert(cur.out[m] == prev.out[m]);
            }
        }
    }
}

/// Whether every run of every row has positive cover.
spec fn rows_cover_positive(rows: Seq<Seq<CoverRun>>) -> bool {
    forall|i: int, m: int|
        0 <= i < rows.len() && 0 <= m < rows[i].len() ==> (#[trigger] rows[i][m]).cover > 0
}

proof fn lemma_sweep_rows_inside_positive(
    fill: FillMode,
    edges: Seq<Edge>,
    clip_x: int,
    clip_y: int,
    w: int,
    n: int,
)
    ensures
        rows_cover_positive(
            sweep_rows(fill, edges, clip_x, clip_y, w, SpanMode::InsideOnly, n),
        ),
    decreases n,
{
    let mode = SpanMode::InsideOnly;
    if n > 0 {
        lemma_sweep_rows_inside_positive(fill, edges, clip_x, clip_y, w, n - 1);
        let cov = coverage_row(
            fill,
            sub_rows(edges, 16 * (clip_y + (n - 1)), 16),
            clip_x,
            w,
        );
        lemma_run_scan_inside_positive(cov, clip_x, cov.len() as int);
        let rows = sweep_rows(fill, edges, clip_x, clip_y, w, mode, n);
        let prev = sweep_rows(fill, edges, clip_x, clip_y, w, mode, n - 1);
        assert forall|i: int, m: int|
            0 <= i < rows.len() && 0 <= m < rows[i].len() implies (#[trigger] rows[i][m]).cover
            > 0 by {
            if i < prev.len() {
                assert(rows[i] == prev[i]);
            } else {
                assert(rows[i] == crate::raster::sweep_row(
                    fill,
                    edges,
                    clip_x,
                    w,
                    clip_y + (n - 1),
                    mode,
                ));
            }
        }
    }
}

proof fn lemma_band_scan_cover_positive(rows: Seq<Seq<CoverRun>>, clip_y: int, n: int)
    requires
        rows_cover_positive(rows),
        n <= rows.len(),
    ensures
        forall|i: int, m: int|
            0 <= i < band_scan(rows, clip_y, n).out.len() && 0 <= m < band_scan(
                rows,
                clip_y,
                n,
            ).out[i].runs.len() ==> (#[trigger] band_scan(rows, clip_y, n).out[i].runs[m]).cover
                > 0,
        band_scan(rows, clip_y, n).open ==> forall|m: int|
            0 <= m < band_scan(rows, clip_y, n).cur.len() ==> (#[trigger] band_scan(
                rows,
                clip_y,
                n,
            ).cur[m]).cover > 0,
    decreases n,
{
    if n > 0 {
        lemma_band_scan_cover_positive(rows, clip_y, n - 1);
    }
}

proof fn lemma_band_vertices_cover_positive(b: crate::strip::BandModel)
    requires
        forall|m: int| 0 <= m < b.runs.len() ==> (#[trigger] b.runs[m]).cover > 0,
    ensures
        forall|m: int|
            0 <= m < band_vertices(b).len() ==> (#[trigger] band_vertices(b)[m]).coverage > 0,
    decreases b.runs.len(),
{
    if b.runs.len() > 0 {
        let shorter = crate::strip::BandModel { runs: b.runs.drop_last(), ..b };
        lemma_band_vertices_cover_positive(shorter);
        let whole = band_vertices(b);
        let left = band_vertices(shorter);
        let right = crate::strip::run_vertices(b.runs.last(), b.y0, b.y1);
        assert forall|m: int| 0 <= m < whole.len() implies (#[trigger] whole[m]).coverage
            > 0 by {
            if m < left.len() {
                assert(whole[m] == left[m]);
            } else {
                assert(whole[m] == right[m - left.len()]);
                assert((b.runs.last()).cover > 0);
            }
        }
    }
}

proof fn lemma_strip_vertices_cover_positive(bands: Seq<crate::strip::BandModel>)
    requires
        forall|i: int, m: int|
            0 <= i < bands.len() && 0 <= m < bands[i].runs.len() ==> (
            #[trigger] bands[i].runs[m]).cover > 0,
    ensures
        forall|m: int|
            0 <= m < strip_vertices(bands).len() ==> (#[trigger] strip_vertices(bands)[m]).coverage
                > 0,
    decreases bands.len(),
{
    if bands.len() > 0 {
        lemma_strip_vertices_cover_positive(bands.drop_last());
        assert forall|m: int| 0 <= m < bands.last().runs.len() implies (
        #[trigger] bands.last().runs[m]).cover > 0 by {
            assert(bands[bands.len() - 1].runs[m].cover > 0);
        }
        lemma_band_vertices_cover_positive(bands.last());
        let whole = strip_vertices(bands);
        let left = strip_vertices(bands.drop_last());
        let right = band_vertices(bands.last());
        assert forall|m: int| 0 <= m < whole.len() implies (#[trigger] whole[m]).coverage
            > 0 by {
            if m < left.len() {
                assert(whole[m] == left[m]);
            } else {
                assert(whole[m] == right[m - left.len()]);
            }
        }
    }
}

/// Without outside geometry, nothing degenerate is emitted: every vertex
/// carries strictly positive coverage, so uncovered area is simply absent
/// from the output rather than present with zero alpha.
pub proof fn lemma_inside_only_positive_coverage(
    fill: FillMode,
    types: Seq<u8>,
    points: Seq<FixedPoint>,
    clip_x: int,
    clip_y: int,
    clip_width: int,
    clip_height: int,
)
    ensures
        forall|m: int|
            0 <= m < rasterize_model(
                fill,
                types,
                points,
                clip_x,
                clip_y,
                clip_width,
                clip_height,
                true,
                false,
            ).len() ==> (#[trigger] rasterize_model(
                fill,
                types,
                points,
                clip_x,
                clip_y,
                clip_width,
                clip_height,
                true,
                false,
            )[m]).coverage > 0,
{
    if points_in_range(points) && path_ok(types, points) && clip_width > 0 && clip_height > 0 {
        let mode = crate::raster::span_mode(true, false);
        assert(mode == SpanMode::InsideOnly);
        let edges = path_edges(types, points);
        let rows = sweep_rows(fill, edges, clip_x, clip_y, clip_width, mode, clip_height);
        lemma_sweep_rows_inside_positive(fill, edges, clip_x, clip_y, clip_width, clip_height);
        lemma_sweep_rows_cover_bound(fill, edges, clip_x, clip_y, clip_width, mode, clip_height);
        lemma_band_scan_cover_positive(rows, clip_y, rows.len() as int);
        let acc = band_scan(rows, clip_y, rows.len() as int);
        let bands = bands_of_rows(rows, clip_y);
        assert forall|i: int, m: int|
            0 <= i < bands.len() && 0 <= m < bands[i].runs.len() implies (
        #[trigger] bands[i].runs[m]).cover > 0 by {
            if acc.open && i == bands.len() - 1 {
                assert(bands[i].runs == acc.cur);
            } else {
                assert(bands[i] == acc.out[i]);
            }
        }
        lemma_strip_vertices_cover_positive(bands);
    }
}

/// Whether every run of every row has zero cover.
spec fn rows_cover_zero(rows: Seq<Seq<CoverRun>>) -> bool {
    forall|i: int, m: int|
        0 <= i < rows.len() && 0 <= m < rows[i].len() ==> (#[trigger] rows[i][m]).cover == 0
}

proof fn lemma_sweep_rows_complement_zero(
    fill: FillMode,
    edges: Seq<Edge>,
    clip_x: int,
    clip_y: int,
    w: int,
    n: int,
)
    ensures
        rows_cover_zero(
            sweep_rows(fill, edges, clip_x, clip_y, w, SpanMode::ComplementOnly, n),
        ),
    decreases n,
{
    let mode = SpanMode::ComplementOnly;
    if n > 0 {
        lemma_sweep_rows_complement_zero(fill, edges, clip_x, clip_y, w, n - 1);
        let cov = coverage_row(
            fill,
            sub_rows(edges, 16 * (clip_y + (n - 1)), 16),
            clip_x,
            w,
        );
        lemma_run_scan_complement_zero(cov, clip_x, cov.len() as int);
        let rows = sweep_rows(fill, edges, clip_x, clip_y, w, mode, n);
        let prev = sweep_rows(fill, edges, clip_x, clip_y, w, mode, n - 1);
        assert forall|i: int, m: int|
            0 <= i < rows.len() && 0 <= m < rows[i].len() implies (#[trigger] rows[i][m]).cover
            == 0 by {
            if i < prev.len() {
                assert(rows[i] == prev[i]);
            } else {
                assert(rows[i] == crate::raster::sweep_row(
                    fill,
                    edges,
                    clip_x,
                    w,
                    clip_y + (n - 1),
                    mode,
                ));
            }
        }
    }
}

proof fn lemma_band_scan_cover_zero(rows: Seq<Seq<CoverRun>>, clip_y: int, n: int)
    requires
        rows_cover_zero(rows),
        n <= rows.len(),
    ensures
        forall|i: int, m: int|
            0 <= i < band_scan(rows, clip_y, n).out.len() && 0 <= m < band_scan(
                rows,
                clip_y,
                n,
            ).out[i].runs.len() ==> (#[trigger] band_scan(rows, clip_y, n).out[i].runs[m]).cover
                == 0,
        band_scan(rows, clip_y, n).open ==> forall|m: int|
            0 <= m < band_scan(rows, clip_y, n).cur.len() ==> (#[trigger] band_scan(
                rows,
                clip_y,
                n,
            ).cur[m]).cover == 0,
    decreases n,
{
    if n > 0 {
        lemma_band_scan_cover_zero(rows, clip_y, n - 1);
    }
}

proof fn lemma_band_vertices_cover_zero(b: crate::strip::BandModel)
    requires
        forall|m: int| 0 <= m < b.runs.len() ==> (#[trigger] b.runs[m]).cover == 0,
    ensures
        forall|m: int|
            0 <= m < band_vertices(b).len() ==> (#[trigger] band_vertices(b)[m]).coverage == 0,
    decreases b.runs.len(),
{
    if b.runs.len() > 0 {
        let shorter = crate::strip::BandModel { runs: b.runs.drop_last(), ..b };
        lemma_band_vertices_cover_zero(shorter);
        let whole = band_vertices(b);
        let left = band_vertices(shorter);
        let right = crate::strip::run_vertices(b.runs.last(), b.y0, b.y1);
        assert forall|m: int| 0 <= m < whole.len() implies (#[trigger] whole[m]).coverage
            == 0 by {
            if m < left.len() {
                assert(whole[m] == left[m]);
            } else {
                assert(whole[m] == right[m - left.len()]);
                assert((b.runs.last()).cover == 0);
            }
        }
    }
}

proof fn lemma_strip_vertices_cover_zero(bands: Seq<crate::strip::BandModel>)
    requires
        forall|i: int, m: int|
            0 <= i < bands.len() && 0 <= m < bands[i].runs.len() ==> (
            #[trigger] bands[i].runs[m]).cover == 0,
    ensures
        forall|m: int|
            0 <= m < strip_vertices(bands).len() ==> (#[trigger] strip_vertices(bands)[m]).coverage
                == 0,
    decreases bands.len(),
{
    if bands.len() > 0 {
        lemma_strip_vertices_cover_zero(bands.drop_last());
        assert forall|m: int| 0 <= m < bands.last().runs.len() implies (
        #[trigger] bands.last().runs[m]).cover == 0 by {
            assert(bands[bands.len() - 1].runs[m].cover == 0);
        }
        lemma_band_vertices_cover_zero(bands.last());
        let whole = strip_vertices(bands);
        let left = strip_vertices(bands.drop_last());
        let right = band_vertices(bands.last());
        assert forall|m: int| 0 <= m < whole.len() implies (#[trigger] whole[m]).coverage
            == 0 by {
            if m < left.len() {
                assert(whole[m] == left[m]);
            } else {
                assert(whole[m] == right[m - left.len()]);
            }
        }
    }
}

/// Outside bounds without the inside: every emitted vertex carries zero
/// coverage, since only the complement of the shape is turned into
/// geometry.
pub proof fn lemma_outside_only_zero_coverage(
    fill: FillMode,
    types: Seq<u8>,
    points: Seq<FixedPoint>,
    clip_x: int,
    clip_y: int,
    clip_width: int,
    clip_height: int,
)
    ensures
        forall|m: int|
            0 <= m < rasterize_model(
                fill,
                types,
                points,
                clip_x,
                clip_y,
                clip_width,
                clip_height,
                false,
                true,
            ).len() ==> (#[trigger] rasterize_model(
                fill,
                types,
                points,
                clip_x,
                clip_y,
                clip_width,
                clip_height,
                false,
                true,
            )[m]).coverage == 0,
{
    if points_in_range(points) && path_ok(types, points) && clip_width > 0 && clip_height > 0 {
        let mode = crate::raster::span_mode(false, true);
        assert(mode == SpanMode::ComplementOnly);
        let edges = path_edges(types, points);
        let rows = sweep_rows(fill, edges, clip_x, clip_y, clip_width, mode, clip_height);
        lemma_sweep_rows_complement_zero(fill, edges, clip_x, clip_y, clip_width, clip_height);
        lemma_sweep_rows_cover_bound(fill, edges, clip_x, clip_y, clip_width, mode, clip_height);
        lemma_band_scan_cover_zero(rows, clip_y, rows.len() as int);
        let acc = band_scan(rows, clip_y, rows.len() as int);
        let bands = bands_of_rows(rows, clip_y);
        assert forall|i: int, m: int|
            0 <= i < bands.len() && 0 <= m < bands[i].runs.len() implies (
        #[trigger] bands[i].runs[m]).cover == 0 by {
            if acc.open && i == bands.len() - 1 {
                assert(bands[i].runs == acc.cur);
            } else {
                assert(bands[i] == acc.out[i]);
            }
        }
        lemma_strip_vertices_cover_zero(bands);
    }
}

/// Whether `runs` tile the column range from `lo` to `hi`: the first run
/// starts at `lo`, each next run starts where the previous one ended, and
/// the last run ends at `hi`.
pub open spec fn runs_tile(runs: Seq<CoverRun>, lo: int, hi: int) -> bool {
    runs.len() > 0 && runs[0].x0 == lo && runs.last().x1 == hi && forall|m: int|
        1 <= m < runs.len() ==> (#[trigger] runs[m]).x0 == runs[m - 1].x1
}

proof fn lemma_run_scan_tile(cov: Seq<u16>, clip_x: int, n: int)
    requires
        n <= cov.len(),
        -2147483648 <= clip_x,
        clip_x + cov.len() <= 2147483647,
    ensures
        n <= 0 ==> run_scan(cov, SpanMode::WithComplement, clip_x, n).out.len() == 0 && !run_scan(
            cov,
            SpanMode::WithComplement,
            clip_x,
            n,
        ).open,
        n > 0 ==> run_scan(cov, SpanMode::WithComplement, clip_x, n).open && 0 <= run_scan(
            cov,
            SpanMode::WithComplement,
            clip_x,
            n,
        ).start <= n - 1 && (run_scan(cov, SpanMode::WithComplement, clip_x, n).out.len() == 0
            ==> run_scan(cov, SpanMode::WithComplement, clip_x, n).start == 0) && (run_scan(
            cov,
            SpanMode::WithComplement,
            clip_x,
            n,
        ).out.len() > 0 ==> runs_tile(
            run_scan(cov, SpanMode::WithComplement, clip_x, n).out,
            clip_x,
            clip_x + run_scan(cov, SpanMode::WithComplement, clip_x, n).start,
        )),
    decreases n,
{
    let mode = SpanMode::WithComplement;
    if n > 0 {
        lemma_run_scan_tile(cov, clip_x, n - 1);
        let prev = run_scan(cov, mode, clip_x, n - 1);
        let cur = run_scan(cov, mode, clip_x, n);
        if !(prev.open && cov[n - 1] == prev.val) && prev.open {
            // the step closed the previous run and opened a new one at n-1
            assert(cur.out == prev.out.push(
                CoverRun {
                    x0: (clip_x + prev.start) as i32,
                    x1: (clip_x + (n - 1)) as i32,
                    cover: prev.val,
                },
            ));
            if cur.out.len() > 0 {
                assert forall|m: int| 1 <= m < cur.out.len() implies (#[trigger] cur.out[m]).x0
                    == cur.out[m - 1].x1 by {
                    if m < cur.out.len() - 1 {
                        assert(cur.out[m] == prev.out[m] && cur.out[m - 1] == prev.out[m - 1]);
                    } else if prev.out.len() > 0 {
                        assert(cur.out[m - 1] == prev.out[m - 1]);
                        assert(prev.out.last().x1 == clip_x + prev.start);
                    }
                }
            }
        }
    }
}

/// With complement geometry enabled, one swept row's runs tile the whole
/// clip width: they are contiguous from the clip rectangle's left column to
/// its right column, so every pixel of the row lies in exactly one run.
pub proof fn lemma_with_complement_row_tiles(
    fill: FillMode,
    edges: Seq<Edge>,
    clip_x: int,
    w: int,
    y: int,
)
    requires
        0 < w,
        -2147483648 <= clip_x,
        clip_x + w <= 2147483647,
    ensures
        runs_tile(
            crate::raster::sweep_row(fill, edges, clip_x, w, y, SpanMode::WithComplement),
            clip_x,
            clip_x + w,
        ),
{
    let mode = SpanMode::WithComplement;
    let cov = coverage_row(fill, sub_rows(edges, 16 * y, 16), clip_x, w);
    lemma_coverage_row_len(fill, sub_rows(edges, 16 * y, 16), clip_x, w);
    lemma_run_scan_tile(cov, clip_x, cov.len() as int);
    let acc = run_scan(cov, mode, clip_x, cov.len() as int);
    let runs = runs_of_row(cov, mode, clip_x);
    assert(runs == acc.out.push(
        CoverRun {
            x0: (clip_x + acc.start) as i32,
            x1: (clip_x + cov.len()) as i32,
            cover: acc.val,
        },
    ));
    assert forall|m: int| 1 <= m < runs.len() implies (#[trigger] runs[m]).x0 == runs[m
        - 1].x1 by {
        if m < runs.len() - 1 {
            assert(runs[m] == acc.out[m] && runs[m - 1] == acc.out[m - 1]);
        } else if acc.out.len() > 0 {
            assert(runs[m - 1] == acc.out[m - 1]);
            assert(acc.out.last().x1 == clip_x + acc.start);
        }
    }
}

/// Whether `bands` tile the row range from `ylo` to `yhi`: the first band
/// starts at `ylo`, each next band starts where the previous one ended,
/// and the last band ends at `yhi`.
pub open spec fn bands_tile(bands: Seq<crate::strip::BandModel>, ylo: int, yhi: int) -> bool {
    bands.len() > 0 && bands[0].y0 == ylo && bands.last().y1 == yhi && forall|m: int|
        1 <= m < bands.len() ==> (#[trigger] bands[m]).y0 == bands[m - 1].y1
}

/// Whether every row's runs tile the columns from `lo` to `hi`.
spec fn rows_tiled(rows: Seq<Seq<CoverRun>>, lo: int, hi: int) -> bool {
    forall|i: int| 0 <= i < rows.len() ==> runs_tile(#[trigger] rows[i], lo, hi)
}

proof fn lemma_band_scan_tile(rows: Seq<Seq<CoverRun>>, clip_y: int, n: int, lo: int, hi: int)
    requires
        rows_tiled(rows, lo, hi),
        n <= rows.len(),
    ensures
        n <= 0 ==> band_scan(rows, clip_y, n).out.len() == 0 && !band_scan(rows, clip_y, n).open,
        n > 0 ==> band_scan(rows, clip_y, n).open && 0 <= band_scan(rows, clip_y, n).start <= n - 1
            && runs_tile(band_scan(rows, clip_y, n).cur, lo, hi) && (band_scan(
            rows,
            clip_y,
            n,
        ).out.len() == 0 ==> band_scan(rows, clip_y, n).start == 0) && (band_scan(
            rows,
            clip_y,
            n,
        ).out.len() > 0 ==> bands_tile(
            band_scan(rows, clip_y, n).out,
            clip_y,
            clip_y + band_scan(rows, clip_y, n).start,
        ) && forall|i: int|
            0 <= i < band_scan(rows, clip_y, n).out.len() ==> runs_tile(
                (#[trigger] band_scan(rows, clip_y, n).out[i]).runs,
                lo,
                hi,
            )),
    decreases n,
{
    if n > 0 {
        lemma_band_scan_tile(rows, clip_y, n - 1, lo, hi);
        let prev = band_scan(rows, clip_y, n - 1);
        let cur = band_scan(rows, clip_y, n);
        assert(runs_tile(rows[n - 1], lo, hi));
        assert(rows[n - 1].len() > 0);
        if n - 1 > 0 && !(prev.open && rows[n - 1] == prev.cur) {
            // the step closed the previous band and opened a new one
            assert(cur.out == prev.out.push(
                crate::strip::BandModel {
                    y0: clip_y + prev.start,
                    y1: clip_y + (n - 1),
                    runs: prev.cur,
                },
            ));
            assert forall|m: int| 1 <= m < cur.out.len() implies (#[trigger] cur.out[m]).y0
                == cur.out[m - 1].y1 by {
                if m < cur.out.len() - 1 {
                    assert(cur.out[m] == prev.out[m] && cur.out[m - 1] == prev.out[m - 1]);
                } else if prev.out.len() > 0 {
                    assert(cur.out[m - 1] == prev.out[m - 1]);
                    assert(prev.out.last().y1 == clip_y + prev.start);
                }
            }
            assert forall|i: int| 0 <= i < cur.out.len() implies runs_tile(
                (#[trigger] cur.out[i]).runs,
                lo,
                hi,
            ) by {
                if i < cur.out.len() - 1 {
                    assert(cur.out[i] == prev.out[i]);
                }
            }
        }
    }
}

proof fn lemma_sweep_rows_index(
    fill: FillMode,
    edges: Seq<Edge>,
    clip_x: int,
    clip_y: int,
    w: int,
    mode: SpanMode,
    n: int,
    i: int,
)
    requires
        0 <= i < n,
    ensures
        sweep_rows(fill, edges, clip_x, clip_y, w, mode, n).len() == n,
        sweep_rows(fill, edges, clip_x, clip_y, w, mode, n)[i] == crate::raster::sweep_row(
            fill,
            edges,
            clip_x,
            w,
            clip_y + i,
            mode,
        ),
    decreases n,
{
    lemma_sweep_rows_cover_bound(fill, edges, clip_x, clip_y, w, mode, n);
    if i < n - 1 {
        lemma_sweep_rows_index(fill, edges, clip_x, clip_y, w, mode, n - 1, i);
    }
}

/// With complement geometry enabled, the emitted bands tile the whole clip
/// rectangle: the bands are contiguous from the top row to the bottom row,
/// and each band's runs are contiguous from the left column to the right
/// column.  Every pixel of the clip rectangle thus lies in exactly one
/// quad, which is what compositing over the full bounds needs.
pub proof fn lemma_with_complement_tiles_clip(
    fill: FillMode,
    edges: Seq<Edge>,
    clip_x: int,
    clip_y: int,
    w: int,
    h: int,
)
    requires
        0 < w,
        0 < h,
        -2147483648 <= clip_x,
        clip_x + w <= 2147483647,
    ensures
        bands_tile(
            bands_of_rows(
                sweep_rows(fill, edges, clip_x, clip_y, w, SpanMode::WithComplement, h),
                clip_y,
            ),
            clip_y,
            clip_y + h,
        ),
        forall|i: int|
            0 <= i < bands_of_rows(
                sweep_rows(fill, edges, clip_x, clip_y, w, SpanMode::WithComplement, h),
                clip_y,
            ).len() ==> runs_tile(
                (#[trigger] bands_of_rows(
                    sweep_rows(fill, edges, clip_x, clip_y, w, SpanMode::WithComplement, h),
                    clip_y,
                )[i]).runs,
                clip_x,
                clip_x + w,
            ),
{
    let mode = SpanMode::WithComplement;
    let rows = sweep_rows(fill, edges, clip_x, clip_y, w, mode, h);
    lemma_sweep_rows_cover_bound(fill, edges, clip_x, clip_y, w, mode, h);
    assert(rows.len() == h);
    assert forall|i: int| 0 <= i < rows.len() implies runs_tile(
        #[trigger] rows[i],
        clip_x,
        clip_x + w,
    ) by {
        lemma_sweep_rows_index(fill, edges, clip_x, clip_y, w, mode, h, i);
        lemma_with_complement_row_tiles(fill, edges, clip_x, w, clip_y + i);
    }
    lemma_band_scan_tile(rows, clip_y, rows.len() as int, clip_x, clip_x + w);
    let acc = band_scan(rows, clip_y, rows.len() as int);
    let bands = bands_of_rows(rows, clip_y);
    assert(bands == acc.out.push(
        crate::strip::BandModel { y0: clip_y + acc.start, y1: clip_y + rows.len(), runs: acc.cur },
    ));
    assert forall|m: int| 1 <= m < bands.len() implies (#[trigger] bands[m]).y0 == bands[m
        - 1].y1 by {
        if m < bands.len() - 1 {
            assert(bands[m] == acc.out[m] && bands[m - 1] == acc.out[m - 1]);
        } else if acc.out.len() > 0 {
            assert(bands[m - 1] == acc.out[m - 1]);
            assert(acc.out.last().y1 == clip_y + acc.start);
        }
    }
    assert forall|i: int| 0 <= i < bands.len() implies runs_tile(
        (#[trigger] bands[i]).runs,
        clip_x,
        clip_x + w,
    ) by {
        if i < bands.len() - 1 {
            assert(bands[i] == acc.out[i]);
        }
    }
}

/// Determinism: the vertex list is a function of the inputs alone, so two
/// rasterizations of identical inputs yield identical output.
pub proof fn lemma_rasterize_deterministic(
    r1: Seq<OutputVertex>,
    r2: Seq<OutputVertex>,
    fill: FillMode,
    types: Seq<u8>,
    points: Seq<FixedPoint>,
    clip_x: int,
    clip_y: int,
    clip_width: int,
    clip_height: int,
    need_inside: bool,
    need_outside: bool,
)
    requires
        r1 == rasterize_model(
            fill,
            types,
            points,
            clip_x,
            clip_y,
            clip_width,
            clip_height,
            need_inside,
            need_outside,
        ),
        r2 == rasterize_model(
            fill,
            types,
            points,
            clip_x,
            clip_y,
            clip_width,
            clip_height,
            need_inside,
            need_outside,
        ),
    ensures
        r1 == r2,
{
}

/// A single coordinate out of the representable 28.4 range invalidates the
/// whole path: the output is empty regardless of every other point.
pub proof fn lemma_out_of_range_point_yields_empty(
    fill: FillMode,
    types: Seq<u8>,
    points: Seq<FixedPoint>,
    i: int,
    clip_x: int,
    clip_y: int,
    clip_width: int,
    clip_height: int,
    need_inside: bool,
    need_outside: bool,
)
    requires
        0 <= i < points.len(),
        !(coord_in_range(points[i].x) && coord_in_range(points[i].y)),
    ensures
        rasterize_model(
            fill,
            types,
            points,
            clip_x,
            clip_y,
            clip_width,
            clip_height,
            need_inside,
            need_outside,
        ) == Seq::<OutputVertex>::empty(),
{
    assert(!points_in_range(points)) by {
        if points_in_range(points) {
            assert(coord_in_range(points[i].x) && coord_in_range(points[i].y));
        }
    }
}

/// A `line_to` issued before any `move_to`, followed by nothing else, only
/// buffers its coordinate as a pending start: no edge is ever formed and
/// rasterization returns the empty vertex list.
pub proof fn lemma_line_to_before_start_yields_empty(
    x: i32,
    y: i32,
    in_range: bool,
    clip_x: int,
    clip_y: int,
    clip_width: int,
    clip_height: int,
)
    ensures
        builder_rasterize_model(
            line_to_model(initial_builder(), x, y, in_range),
            clip_x,
            clip_y,
            clip_width,
            clip_height,
        ) == Seq::<OutputVertex>::empty(),
{
    let s = line_to_model(initial_builder(), x, y, in_range);
    assert(s.types.len() == 0);
    assert(path_ok(s.types, s.points));
    assert(path_edges(s.types, s.points) =~= Seq::<Edge>::empty());
    if clip_width > 0 && clip_height > 0 {
        lemma_no_edges_inside_empty(s.fill_mode, clip_x, clip_y, clip_width, clip_height);
    }
}

/// A degenerate clip rectangle (zero or negative width or height, also
/// after intersecting the clip with outside bounds) yields empty output.
pub proof fn lemma_degenerate_clip_yields_empty(
    fill: FillMode,
    types: Seq<u8>,
    points: Seq<FixedPoint>,
    clip_x: int,
    clip_y: int,
    clip_width: int,
    clip_height: int,
    need_inside: bool,
    need_outside: bool,
)
    requires
        clip_width <= 0 || clip_height <= 0,
    ensures
        rasterize_model(
            fill,
            types,
            points,
            clip_x,
            clip_y,
            clip_width,
            clip_height,
            need_inside,
            need_outside,
        ) == Seq::<OutputVertex>::empty(),
{
}

/// Closing a subpath seals it: a curve drawn right after `close`, without
/// an intervening `move_to`, starts a fresh subpath whose start point is
/// the curve's first control point.  It does not reopen or extend the
/// closed subpath's point sequence.
pub proof fn lemma_close_then_curve_starts_fresh_subpath(
    s: crate::path::BuilderModel,
    c1x: i32,
    c1y: i32,
    in_range1: bool,
    c2x: i32,
    c2y: i32,
    in_range2: bool,
    x: i32,
    y: i32,
    in_range3: bool,
)
    ensures
        curve_to_model(
            close_model(s),
            c1x,
            c1y,
            in_range1,
            c2x,
            c2y,
            in_range2,
            x,
            y,
            in_range3,
        ).types == close_model(s).types.push(crate::PATH_POINT_TYPE_START).push(
            crate::PATH_POINT_TYPE_BEZIER,
        ),
        curve_to_model(
            close_model(s),
            c1x,
            c1y,
            in_range1,
            c2x,
            c2y,
            in_range2,
            x,
            y,
            in_range3,
        ).points == close_model(s).points.push(FixedPoint { x: c1x, y: c1y }).push(
            FixedPoint { x: c1x, y: c1y },
        ).push(FixedPoint { x: c2x, y: c2y }).push(FixedPoint { x, y }),
{
}

/// A `move_to` with nothing drawn after it only buffers a pending start:
/// rasterization returns the empty vertex list.
pub proof fn lemma_move_to_alone_yields_empty(
    x: i32,
    y: i32,
    in_range: bool,
    clip_x: int,
    clip_y: int,
    clip_width: int,
    clip_height: int,
)
    ensures
        builder_rasterize_model(
            crate::path::move_to_model(initial_builder(), x, y, in_range),
            clip_x,
            clip_y,
            clip_width,
            clip_height,
        ) == Seq::<OutputVertex>::empty(),
{
    let s = crate::path::move_to_model(initial_builder(), x, y, in_range);
    assert(s.types.len() == 0);
    assert(path_edges(s.types, s.points) =~= Seq::<Edge>::empty());
    if clip_width > 0 && clip_height > 0 {
        lemma_no_edges_inside_empty(s.fill_mode, clip_x, clip_y, clip_width, clip_height);
    }
}

/// A well-formed path whose type array is empty yields the empty vertex
/// list whenever only the inside of the shape is asked for.
pub proof fn lemma_empty_types_yields_empty(
    fill: FillMode,
    points: Seq<FixedPoint>,
    clip_x: int,
    clip_y: int,
    clip_width: int,
    clip_height: int,
)
    ensures
        rasterize_model(
            fill,
            Seq::<u8>::empty(),
            points,
            clip_x,
            clip_y,
            clip_width,
            clip_height,
            true,
            false,
        ) == Seq::<OutputVertex>::empty(),
{
    if points_in_range(points) && clip_width > 0 && clip_height > 0 {
        assert(path_edges(Seq::<u8>::empty(), points) =~= Seq::<Edge>::empty());
        lemma_no_edges_inside_empty(fill, clip_x, clip_y, clip_width, clip_height);
    }
}

} // verus!
