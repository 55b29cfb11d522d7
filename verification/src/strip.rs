//! Triangle-strip building: merges a pixel row's coverage values into
//! maximal equal-coverage runs, merges rows with identical runs into bands,
//! and emits each band run as a strip-joined quad whose vertices carry the
//! run's coverage.
use vstd::prelude::*;

use crate::OutputVertex;

verus! {

/// Which coverage runs of a row are turned into geometry.
#[derive(Clone, Copy, Debug, PartialEq, Eq, Structural)]
pub enum SpanMode {
    /// Only covered runs: the shape itself.
    InsideOnly,
    /// Covered runs and, with zero coverage, the uncovered remainder of the
    /// clip region (outside bounds with the inside kept).
    WithComplement,
    /// Only the uncovered remainder, with zero coverage (outside bounds
    /// without the inside).
    ComplementOnly,
}

/// A maximal horizontal run of pixels with one coverage numerator, from
/// pixel column `x0` (inclusive) to `x1` (exclusive).
#[derive(Clone, Copy, Debug, PartialEq, Eq, Structural)]
pub struct CoverRun {
    pub x0: i32,
    pub x1: i32,
    pub cover: u16,
}

/// Whether a run with the given coverage is kept under the given mode.
pub open spec fn keep_run(mode: SpanMode, cover: u16) -> bool {
    match mode {
        SpanMode::InsideOnly => cover > 0,
        SpanMode::WithComplement => true,
        SpanMode::ComplementOnly => cover == 0,
    }
}

/// The run scanner's state: the runs already emitted and the open run.
pub struct RunAcc {
    pub out: Seq<CoverRun>,
    pub open: bool,
    pub start: int,
    pub val: u16,
}

/// Closes the open run at column offset `end`, emitting it if its coverage
/// is kept under the mode.
pub open spec fn run_close(acc: RunAcc, mode: SpanMode, clip_x: int, end: int) -> Seq<CoverRun> {
    if acc.open && keep_run(mode, acc.val) {
        acc.out.push(
            CoverRun { x0: (clip_x + acc.start) as i32, x1: (clip_x + end) as i32, cover: acc.val },
        )
    } else {
        acc.out
    }
}

/// Consumes the coverage value `v` of column offset `c`: it either extends
/// the open run or closes it and opens a new one.
pub open spec fn run_step(acc: RunAcc, mode: SpanMode, clip_x: int, c: int, v: u16) -> RunAcc {
    if acc.open && v == acc.val {
        acc
    } else {
        RunAcc { out: run_close(acc, mode, clip_x, c), open: true, start: c, val: v }
    }
}

/// The scanner's state after the first `n` coverage values.
pub open spec fn run_scan(cov: Seq<u16>, mode: SpanMode, clip_x: int, n: int) -> RunAcc
    decreases n,
{
    if n <= 0 {
        RunAcc { out: Seq::<CoverRun>::empty(), open: false, start: 0, val: 0 }
    } else {
        run_step(run_scan(cov, mode, clip_x, n - 1), mode, clip_x, n - 1, cov[n - 1])
    }
}

/// The kept maximal equal-coverage runs of one pixel row whose coverage
/// values are `cov`, with pixel columns starting at `clip_x`.
pub open spec fn runs_of_row(cov: Seq<u16>, mode: SpanMode, clip_x: int) -> Seq<CoverRun> {
    run_close(run_scan(cov, mode, clip_x, cov.len() as int), mode, clip_x, cov.len() as int)
}

/// Decides whether a run with the given coverage is kept.
fn run_kept(mode: SpanMode, cover: u16) -> (r: bool)
    ensures
        r == keep_run(mode, cover),
{
    match mode {
        SpanMode::InsideOnly => cover > 0,
        SpanMode::WithComplement => true,
        SpanMode::ComplementOnly => cover == 0,
    }
}

/// Merges one row's coverage values into maximal equal-coverage runs,
/// keeping those the mode asks for.
pub fn row_runs(cov: &Vec<u16>, mode: SpanMode, clip_x: i32) -> (r: Vec<CoverRun>)
    requires
        clip_x + cov@.len() <= 2147483647,
    ensures
        r@ == runs_of_row(cov@, mode, clip_x as int),
{
    let mut out: Vec<CoverRun> = Vec::new();
    let mut open = false;
    let mut start: usize = 0;
    let mut val: u16 = 0;
    let mut c: usize = 0;
    while c < cov.len()
        invariant
            0 <= c <= cov@.len(),
            clip_x + cov@.len() <= 2147483647,
            out@ == run_scan(cov@, mode, clip_x as int, c as int).out,
            open == run_scan(cov@, mode, clip_x as int, c as int).open,
            open ==> start == run_scan(cov@, mode, clip_x as int, c as int).start,
            open ==> val == run_scan(cov@, mode, clip_x as int, c as int).val,
            open ==> start <= c,
        decreases cov@.len() - c,
    {
        let v = cov[c];
        if !(open && v == val) {
            if open && run_kept(mode, val) {
                out.push(
                    CoverRun {
                        x0: (clip_x as i64 + start as i64) as i32,
                        x1: (clip_x as i64 + c as i64) as i32,
                        cover: val,
                    },
                );
            }
            open = true;
            start = c;
            val = v;
        }
        c = c + 1;
    }
    if open && run_kept(mode, val) {
        out.push(
            CoverRun {
                x0: (clip_x as i64 + start as i64) as i32,
                x1: (clip_x as i64 + cov.len() as i64) as i32,
                cover: val,
            },
        );
    }
    out
}

/// One band: a range of pixel rows `y0 <= y < y1` that all share the same
/// coverage runs.
pub struct StripBand {
    pub y0: i32,
    pub y1: i32,
    pub runs: Vec<CoverRun>,
}

/// The mathematical value of a band.
pub struct BandModel {
    pub y0: int,
    pub y1: int,
    pub runs: Seq<CoverRun>,
}

impl View for StripBand {
    type V = BandModel;

    open spec fn view(&self) -> BandModel {
        BandModel { y0: self.y0 as int, y1: self.y1 as int, runs: self.runs@ }
    }
}

/// The views of a vector of run rows.
pub open spec fn run_rows_view(rows: Seq<Vec<CoverRun>>) -> Seq<Seq<CoverRun>> {
    rows.map_values(|v: Vec<CoverRun>| v@)
}

/// The views of a vector of bands.
pub open spec fn bands_view(bands: Seq<StripBand>) -> Seq<BandModel> {
    bands.map_values(|b: StripBand| b@)
}

/// The band scanner's state: the bands already emitted and the open band.
pub struct BandAcc {
    pub out: Seq<BandModel>,
    pub open: bool,
    pub start: int,
    pub cur: Seq<CoverRun>,
}

/// Closes the open band at row offset `end`.
pub open spec fn band_close(acc: BandAcc, clip_y: int, end: int) -> Seq<BandModel> {
    if acc.open {
        acc.out.push(
            BandModel { y0: clip_y + acc.start, y1: clip_y + end, runs: acc.cur },
        )
    } else {
        acc.out
    }
}

/// Consumes the run list of row offset `i`: a row with no runs closes the
/// open band; a row equal to the open band extends it; any other row closes
/// the open band and opens a new one.
pub open spec fn band_step(acc: BandAcc, clip_y: int, i: int, runs: Seq<CoverRun>) -> BandAcc {
    if runs.len() == 0 {
        BandAcc {
            out: band_close(acc, clip_y, i),
            open: false,
            start: 0,
            cur: Seq::<CoverRun>::empty(),
        }
    } else if acc.open && runs == acc.cur {
        acc
    } else {
        BandAcc { out: band_close(acc, clip_y, i), open: true, start: i, cur: runs }
    }
}

/// The band scanner's state after the first `n` rows.
pub open spec fn band_scan(rows: Seq<Seq<CoverRun>>, clip_y: int, n: int) -> BandAcc
    decreases n,
{
    if n <= 0 {
        BandAcc { out: Seq::<BandModel>::empty(), open: false, start: 0, cur: Seq::<CoverRun>::empty() }
    } else {
        band_scan(rows, clip_y, n - 1).band_step_at(rows, clip_y, n - 1)
    }
}

impl BandAcc {
    /// One scanner step, written as a method so the recursion above stays
    /// readable.
    pub open spec fn band_step_at(self, rows: Seq<Seq<CoverRun>>, clip_y: int, i: int) -> BandAcc {
        band_step(self, clip_y, i, rows[i])
    }
}

/// The bands of a sequence of run rows whose first row is pixel row
/// `clip_y`: maximal groups of consecutive identical nonempty rows.
pub open spec fn bands_of_rows(rows: Seq<Seq<CoverRun>>, clip_y: int) -> Seq<BandModel> {
    band_close(band_scan(rows, clip_y, rows.len() as int), clip_y, rows.len() as int)
}

/// Copies a run list.
fn copy_runs(v: &Vec<CoverRun>) -> (r: Vec<CoverRun>)
    ensures
        r@ == v@,
{
    let mut r: Vec<CoverRun> = Vec::new();
    let mut i: usize = 0;
    while i < v.len()
        invariant
            0 <= i <= v@.len(),
            r@ == v@.take(i as int),
        decreases v@.len() - i,
    {
        r.push(v[i]);
        proof {
            assert(r@ =~= v@.take(i + 1));
        }
        i = i + 1;
    }
    proof {
        assert(v@.take(v@.len() as int) =~= v@);
    }
    r
}

/// Compares two run lists for equality.
fn runs_equal(a: &Vec<CoverRun>, b: &Vec<CoverRun>) -> (r: bool)
    ensures
        r == (a@ == b@),
{
    if a.len() != b.len() {
        proof {
            assert(a@.len() != b@.len());
        }
        return false;
    }
    let mut i: usize = 0;
    while i < a.len()
        invariant
            0 <= i <= a@.len(),
            a@.len() == b@.len(),
            forall|m: int| 0 <= m < i ==> a@[m] == b@[m],
        decreases a@.len() - i,
    {
        let x = a[i];
        let y = b[i];
        if !(x.x0 == y.x0 && x.x1 == y.x1 && x.cover == y.cover) {
            assert(a@[i as int] != b@[i as int]);
            return false;
        }
        i = i + 1;
    }
    proof {
        assert(a@ =~= b@);
    }
    true
}

/// Groups consecutive identical nonempty run rows into bands, with pixel
/// rows starting at `clip_y`.
pub fn build_bands(rows: &Vec<Vec<CoverRun>>, clip_y: i32) -> (r: Vec<StripBand>)
    requires
        clip_y + rows@.len() <= 2147483647,
    ensures
        bands_view(r@) == bands_of_rows(run_rows_view(rows@), clip_y as int),
{
    let mut out: Vec<StripBand> = Vec::new();
    let mut open = false;
    let mut start: usize = 0;
    let mut cur: Vec<CoverRun> = Vec::new();
    let mut i: usize = 0;
    while i < rows.len()
        invariant
            0 <= i <= rows@.len(),
            clip_y + rows@.len() <= 2147483647,
            bands_view(out@) == band_scan(run_rows_view(rows@), clip_y as int, i as int).out,
            open == band_scan(run_rows_view(rows@), clip_y as int, i as int).open,
            open ==> start == band_scan(run_rows_view(rows@), clip_y as int, i as int).start,
            open ==> cur@ == band_scan(run_rows_view(rows@), clip_y as int, i as int).cur,
            open ==> start <= i,
        decreases rows@.len() - i,
    {
        let row = &rows[i];
        proof {
            assert(run_rows_view(rows@)[i as int] == rows@[i as int]@);
        }
        if row.len() == 0 {
            if open {
                let runs = copy_runs(&cur);
                out.push(
                    StripBand {
                        y0: (clip_y as i64 + start as i64) as i32,
                        y1: (clip_y as i64 + i as i64) as i32,
                        runs,
                    },
                );
                proof {
                    assert(bands_view(out@) =~= band_scan(
                        run_rows_view(rows@),
                        clip_y as int,
                        i + 1,
                    ).out);
                }
            }
            open = false;
            start = 0;
            cur = Vec::new();
        } else if open && runs_equal(row, &cur) {
            // the open band continues through this row
        } else {
            if open {
                let runs = copy_runs(&cur);
                out.push(
                    StripBand {
                        y0: (clip_y as i64 + start as i64) as i32,
                        y1: (clip_y as i64 + i as i64) as i32,
                        runs,
                    },
                );
            }
            open = true;
            start = i;
            cur = copy_runs(row);
            proof {
                assert(bands_view(out@) =~= band_scan(
                    run_rows_view(rows@),
                    clip_y as int,
                    i + 1,
                ).out);
            }
        }
        i = i + 1;
    }
    if open {
        let runs = copy_runs(&cur);
        out.push(
            StripBand {
                y0: (clip_y as i64 + start as i64) as i32,
                y1: (clip_y as i64 + rows.len() as i64) as i32,
                runs,
            },
        );
    }
    proof {
        assert(bands_view(out@) =~= bands_of_rows(run_rows_view(rows@), clip_y as int));
    }
    out
}

/// The six strip vertices of one band run: the quad's corners, with the
/// first and last vertex doubled so that consecutive quads of one strip are
/// joined by zero-area triangles.
pub open spec fn run_vertices(r: CoverRun, y0: int, y1: int) -> Seq<OutputVertex> {
    let v0 = OutputVertex { x: r.x0, y: y0 as i32, coverage: r.cover };
    let v1 = OutputVertex { x: r.x0, y: y1 as i32, coverage: r.cover };
    let v2 = OutputVertex { x: r.x1, y: y0 as i32, coverage: r.cover };
    let v3 = OutputVertex { x: r.x1, y: y1 as i32, coverage: r.cover };
    seq![v0, v0, v1, v2, v3, v3]
}

/// The strip vertices of one band, run by run.
pub open spec fn band_vertices(b: BandModel) -> Seq<OutputVertex>
    decreases b.runs.len(),
{
    if b.runs.len() == 0 {
        Seq::<OutputVertex>::empty()
    } else {
        band_vertices(BandModel { runs: b.runs.drop_last(), ..b }) + run_vertices(
            b.runs.last(),
            b.y0,
            b.y1,
        )
    }
}

/// The strip vertices of all bands, band by band.
pub open spec fn strip_vertices(bands: Seq<BandModel>) -> Seq<OutputVertex>
    decreases bands.len(),
{
    if bands.len() == 0 {
        Seq::<OutputVertex>::empty()
    } else {
        strip_vertices(bands.drop_last()) + band_vertices(bands.last())
    }
}

/// Emits the vertices of all bands as one triangle strip.
pub fn emit_strip(bands: &Vec<StripBand>) -> (r: Vec<OutputVertex>)
    ensures
        r@ == strip_vertices(bands_view(bands@)),
{
    let mut r: Vec<OutputVertex> = Vec::new();
    let mut i: usize = 0;
    while i < bands.len()
        invariant
            0 <= i <= bands@.len(),
            r@ == strip_vertices(bands_view(bands@).take(i as int)),
        decreases bands@.len() - i,
    {
        let band = &bands[i];
        let ghost pre = r@;
        let mut k: usize = 0;
        while k < band.runs.len()
            invariant
                0 <= k <= band.runs@.len(),
                band@ == bands_view(bands@)[i as int],
                0 <= i < bands@.len(),
                r@ == pre + band_vertices(
                    BandModel { runs: band.runs@.take(k as int), ..band@ },
                ),
            decreases band.runs@.len() - k,
        {
            let run = band.runs[k];
            let v0 = OutputVertex { x: run.x0, y: band.y0, coverage: run.cover };
            let v1 = OutputVertex { x: run.x0, y: band.y1, coverage: run.cover };
            let v2 = OutputVertex { x: run.x1, y: band.y0, coverage: run.cover };
            let v3 = OutputVertex { x: run.x1, y: band.y1, coverage: run.cover };
            r.push(v0);
            r.push(v0);
            r.push(v1);
            r.push(v2);
            r.push(v3);
            r.push(v3);
            proof {
                assert(band.runs@.take(k + 1).drop_last() =~= band.runs@.take(k as int));
                assert(band.runs@.take(k + 1).last() == band.runs@[k as int]);
                assert(r@ =~= pre + band_vertices(
                    BandModel { runs: band.runs@.take(k + 1), ..band@ },
                ));
            }
            k = k + 1;
        }
        proof {
            assert(band.runs@.take(band.runs@.len() as int) =~= band.runs@);
            assert((BandModel { runs: band.runs@, ..band@ }) =~= band@);
            assert(bands_view(bands@).take(i + 1).drop_last() =~= bands_view(bands@).take(i as int));
            assert(bands_view(bands@).take(i + 1).last() == bands_view(bands@)[i as int]);
        }
        i = i + 1;
    }
    proof {
        assert(bands_view(bands@).take(bands@.len() as int) =~= bands_view(bands@));
    }
    r
}

} // verus!
