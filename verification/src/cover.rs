//! Coverage computation: for each subpixel row the active edges yield
//! crossings (x-intercept and winding sign); the fill rule classifies each
//! subpixel sample, and a pixel's coverage is the number of covered samples
//! of its 16 x 16 grid.
//!
//! Classification is pointwise over samples, so the crossing list of a row
//! needs no ordering and no bounded staging buffer, and the x-intercept is
//! computed directly from the edge's end points (an incremental slope
//! accumulator is only a faster way to the same quotient).  Intermediate
//! values are carried in integers wide enough that no accumulation can
//! overflow, which the verifier checks; nothing ever wraps.
use vstd::prelude::*;

use vstd::arithmetic::div_mod::lemma_div_is_ordered;
use vstd::arithmetic::div_mod::lemma_div_nonincreasing;
use vstd::arithmetic::div_mod::lemma_div_of0;
use vstd::arithmetic::div_mod::lemma_div_pos_is_pos;
use vstd::arithmetic::div_mod::lemma_fundamental_div_mod;
use vstd::arithmetic::mul::lemma_mul_inequality;

use crate::edges::edge_wf;
use crate::edges::Edge;
use crate::FillMode;
use crate::SUBPIXEL_COUNT;

verus! {

/// A crossing of one subpixel row: the x-intercept in 28.4 units and the
/// winding sign of the edge that crosses.
#[derive(Clone, Copy, Debug, PartialEq, Eq, Structural)]
pub struct Crossing {
    pub x: i64,
    pub dir: i32,
}

/// The x-intercept of `e` at subpixel row `j` (with `e.y0 <= j < e.y1`),
/// rounded toward negative infinity.
pub open spec fn edge_x_at(e: Edge, j: int) -> int {
    e.x0 + ((e.x1 - e.x0) * (j - e.y0)) / (e.y1 - e.y0)
}

/// The crossing that edge `e` contributes to subpixel row `j`: one if the
/// edge's y-extent contains the row, none otherwise.
pub open spec fn edge_crossing(e: Edge, j: int) -> Seq<Crossing> {
    if e.y0 <= j < e.y1 {
        seq![Crossing { x: edge_x_at(e, j) as i64, dir: e.dir }]
    } else {
        Seq::<Crossing>::empty()
    }
}

/// The crossings of subpixel row `j`, in edge order.
pub open spec fn crossings_of(edges: Seq<Edge>, j: int) -> Seq<Crossing>
    decreases edges.len(),
{
    if edges.len() == 0 {
        Seq::<Crossing>::empty()
    } else {
        crossings_of(edges.drop_last(), j) + edge_crossing(edges.last(), j)
    }
}

/// How many crossings lie at or left of sample position `k`.
pub open spec fn count_at(cs: Seq<Crossing>, k: int) -> int
    decreases cs.len(),
{
    if cs.len() == 0 {
        0
    } else {
        count_at(cs.drop_last(), k) + if cs.last().x <= k {
            1int
        } else {
            0int
        }
    }
}

/// The signed winding number at sample position `k`: the sum of the signs
/// of the crossings at or left of `k`.
pub open spec fn winding_at(cs: Seq<Crossing>, k: int) -> int
    decreases cs.len(),
{
    if cs.len() == 0 {
        0
    } else {
        winding_at(cs.drop_last(), k) + if cs.last().x <= k {
            cs.last().dir as int
        } else {
            0int
        }
    }
}

/// Whether the sample at position `k` of a subpixel row with crossings `cs`
/// is inside the fill: odd crossing count under EvenOdd, nonzero winding
/// under Winding.
pub open spec fn sample_inside(fill: FillMode, cs: Seq<Crossing>, k: int) -> bool {
    match fill {
        FillMode::EvenOdd => count_at(cs, k) % 2 == 1,
        FillMode::Winding => winding_at(cs, k) != 0,
    }
}

/// The number of covered samples among the first `c` sample columns of the
/// pixel whose leftmost sample is at position `base`.
pub open spec fn row_samples(fill: FillMode, cs: Seq<Crossing>, base: int, c: int) -> int
    decreases c,
{
    if c <= 0 {
        0
    } else {
        row_samples(fill, cs, base, c - 1) + if sample_inside(fill, cs, base + (c - 1)) {
            1int
        } else {
            0int
        }
    }
}

/// The crossing lists of the first `n` subpixel rows of the pixel row whose
/// topmost subpixel row is `jbase`.
pub open spec fn sub_rows(edges: Seq<Edge>, jbase: int, n: int) -> Seq<Seq<Crossing>>
    decreases n,
{
    if n <= 0 {
        Seq::<Seq<Crossing>>::empty()
    } else {
        sub_rows(edges, jbase, n - 1).push(crossings_of(edges, jbase + (n - 1)))
    }
}

/// The coverage numerator of the pixel at column `xpix`: the number of
/// covered samples over all the given subpixel rows, out of
/// [`COVERAGE_ONE`] when all 16 rows are given.
pub open spec fn pixel_coverage(fill: FillMode, rows: Seq<Seq<Crossing>>, xpix: int) -> int
    decreases rows.len(),
{
    if rows.len() == 0 {
        0
    } else {
        pixel_coverage(fill, rows.drop_last(), xpix) + row_samples(
            fill,
            rows.last(),
            SUBPIXEL_COUNT * xpix,
            SUBPIXEL_COUNT as int,
        )
    }
}

/// The coverage numerators of the `w` pixels of the pixel row whose
/// subpixel rows are `rows`, starting at pixel column `clip_x`.
pub open spec fn coverage_row(fill: FillMode, rows: Seq<Seq<Crossing>>, clip_x: int, w: int) -> Seq<
    u16,
>
    decreases w,
{
    if w <= 0 {
        Seq::<u16>::empty()
    } else {
        coverage_row(fill, rows, clip_x, w - 1).push(
            pixel_coverage(fill, rows, clip_x + (w - 1)) as u16,
        )
    }
}

proof fn lemma_div_magnitude(num: int, den: int)
    requires
        den >= 1,
    ensures
        num >= 0 ==> 0 <= num / den <= num,
        num < 0 ==> num <= num / den <= 0,
{
    if num >= 0 {
        lemma_div_nonincreasing(num, den);
        lemma_div_pos_is_pos(num, den);
    } else {
        lemma_div_is_ordered(num, 0, den);
        lemma_div_of0(den);
        lemma_fundamental_div_mod(num, den);
        let q = num / den;
        let r = num % den;
        if q < num {
            lemma_mul_inequality(q, num - 1, den);
            lemma_mul_inequality(num, -1, den);
            assert(num == den * q + r);
            assert(q * den <= (num - 1) * den) by {
                lemma_mul_inequality(q, num - 1, den);
            }
            assert((num - 1) * den == num * den - den) by (nonlinear_arith);
            assert(den * q == q * den) by (nonlinear_arith);
            assert(num * den <= num) by {
                assert(num * den == num + num * (den - 1)) by (nonlinear_arith);
                assert(num * (den - 1) <= 0) by (nonlinear_arith)
                    requires
                        num < 0,
                        den >= 1,
                ;
            }
            assert(false);
        }
    }
}

/// Collects the crossings of subpixel row `j`.
pub fn row_crossings(edges: &Vec<Edge>, j: i64) -> (r: Vec<Crossing>)
    requires
        forall|m: int| 0 <= m < edges@.len() ==> edge_wf(#[trigger] edges@[m]),
    ensures
        r@ == crossings_of(edges@, j as int),
{
    let mut r: Vec<Crossing> = Vec::new();
    let mut i: usize = 0;
    while i < edges.len()
        invariant
            0 <= i <= edges@.len(),
            forall|m: int| 0 <= m < edges@.len() ==> edge_wf(#[trigger] edges@[m]),
            r@ == crossings_of(edges@.take(i as int), j as int),
        decreases edges@.len() - i,
    {
        let e = edges[i];
        proof {
            assert(edges@.take(i + 1).drop_last() =~= edges@.take(i as int));
            assert(edges@.take(i + 1).last() == edges@[i as int]);
        }
        if e.y0 as i64 <= j && j < e.y1 as i64 {
            assert(edge_wf(edges@[i as int]));
            let dx: i64 = e.x1 as i64 - e.x0 as i64;
            let dy: i64 = j - e.y0 as i64;
            proof {
                assert(dx * dy <= 536870912 * 536870912 && -(536870912 * 536870912) <= dx * dy)
                    by (nonlinear_arith)
                    requires
                        -536870912 <= dx <= 536870912,
                        0 <= dy <= 536870912,
                ;
            }
            let num: i64 = dx * dy;
            let den: i64 = e.y1 as i64 - e.y0 as i64;
            proof {
                lemma_div_magnitude(num as int, den as int);
            }
            let q: i64 = match num.checked_div_euclid(den) {
                Some(q) => q,
                None => 0,
            };
            let x: i64 = e.x0 as i64 + q;
            r.push(Crossing { x, dir: e.dir });
            proof {
                assert(r@ =~= crossings_of(edges@.take(i + 1), j as int));
            }
        } else {
            proof {
                assert(r@ =~= crossings_of(edges@.take(i + 1), j as int));
            }
        }
        i = i + 1;
    }
    proof {
        assert(edges@.take(edges@.len() as int) =~= edges@);
    }
    r
}

/// Decides whether the sample at position `k` is inside the fill, given the
/// crossings of its subpixel row.
pub fn sample_is_inside(fill: FillMode, cs: &Vec<Crossing>, k: i64) -> (r: bool)
    ensures
        r == sample_inside(fill, cs@, k as int),
{
    let mut count: u64 = 0;
    let mut wind: i128 = 0;
    let mut i: usize = 0;
    while i < cs.len()
        invariant
            0 <= i <= cs@.len(),
            count == count_at(cs@.take(i as int), k as int),
            count <= i,
            wind == winding_at(cs@.take(i as int), k as int),
            -(i as int) * 2147483648 <= wind as int <= (i as int) * 2147483648,
        decreases cs@.len() - i,
    {
        let c = cs[i];
        proof {
            assert(cs@.take(i + 1).drop_last() =~= cs@.take(i as int));
            assert(cs@.take(i + 1).last() == cs@[i as int]);
        }
        if c.x <= k {
            count = count + 1;
            wind = wind + c.dir as i128;
        }
        i = i + 1;
    }
    proof {
        assert(cs@.take(cs@.len() as int) =~= cs@);
    }
    match fill {
        FillMode::EvenOdd => count % 2 == 1,
        FillMode::Winding => wind != 0,
    }
}

/// The views of a vector of crossing lists.
pub open spec fn rows_view(rows: Seq<Vec<Crossing>>) -> Seq<Seq<Crossing>> {
    rows.map_values(|v: Vec<Crossing>| v@)
}

/// Counts the covered samples of the pixel at column `xpix` over the given
/// subpixel rows.
pub fn coverage_of_pixel(fill: FillMode, rows: &Vec<Vec<Crossing>>, xpix: i64) -> (r: u16)
    requires
        rows@.len() <= SUBPIXEL_COUNT,
        -2147483648 <= xpix <= 2147483647,
    ensures
        r == pixel_coverage(fill, rows_view(rows@), xpix as int),
        r <= rows@.len() * 16,
{
    let base: i64 = SUBPIXEL_COUNT as i64 * xpix;
    let mut total: u16 = 0;
    let mut ri: usize = 0;
    while ri < rows.len()
        invariant
            0 <= ri <= rows@.len(),
            rows@.len() <= SUBPIXEL_COUNT,
            -2147483648 <= xpix <= 2147483647,
            base == SUBPIXEL_COUNT * xpix,
            total == pixel_coverage(fill, rows_view(rows@).take(ri as int), xpix as int),
            total <= ri * 16,
        decreases rows@.len() - ri,
    {
        let cs = &rows[ri];
        let mut cnt: u16 = 0;
        let mut c: usize = 0;
        while c < 16
            invariant
                0 <= c <= 16,
                base == SUBPIXEL_COUNT * xpix,
                -2147483648 <= xpix <= 2147483647,
                0 <= ri < rows@.len(),
                cs@ == rows@[ri as int]@,
                cnt == row_samples(fill, cs@, base as int, c as int),
                cnt <= c,
            decreases 16 - c,
        {
            if sample_is_inside(fill, cs, base + c as i64) {
                cnt = cnt + 1;
            }
            c = c + 1;
        }
        proof {
            assert(rows_view(rows@).take(ri + 1).drop_last() =~= rows_view(rows@).take(ri as int));
            assert(rows_view(rows@).take(ri + 1).last() == rows@[ri as int]@);
        }
        total = total + cnt;
        ri = ri + 1;
    }
    proof {
        assert(rows_view(rows@).take(rows@.len() as int) =~= rows_view(rows@));
    }
    total
}

/// Computes the coverage numerators of one pixel row: `w` pixels starting
/// at column `clip_x`, whose topmost subpixel row is `jbase`.
pub fn coverage_row_at(edges: &Vec<Edge>, fill: FillMode, jbase: i64, clip_x: i32, w: usize) -> (r:
    Vec<u16>)
    requires
        forall|m: int| 0 <= m < edges@.len() ==> edge_wf(#[trigger] edges@[m]),
        -68719476736 <= jbase <= 68719476736,
        clip_x + w <= 2147483647,
    ensures
        r@ == coverage_row(
            fill,
            sub_rows(edges@, jbase as int, SUBPIXEL_COUNT as int),
            clip_x as int,
            w as int,
        ),
        r@.len() == w,
        forall|m: int| 0 <= m < r@.len() ==> #[trigger] r@[m] <= 256,
{
    let mut rows: Vec<Vec<Crossing>> = Vec::new();
    let mut n: usize = 0;
    while n < 16
        invariant
            0 <= n <= 16,
            -68719476736 <= jbase <= 68719476736,
            forall|m: int| 0 <= m < edges@.len() ==> edge_wf(#[trigger] edges@[m]),
            rows@.len() == n,
            rows_view(rows@) == sub_rows(edges@, jbase as int, n as int),
        decreases 16 - n,
    {
        let cs = row_crossings(edges, jbase + n as i64);
        rows.push(cs);
        proof {
            assert(rows_view(rows@) =~= sub_rows(edges@, jbase as int, n + 1));
        }
        n = n + 1;
    }
    let mut r: Vec<u16> = Vec::new();
    let mut col: usize = 0;
    while col < w
        invariant
            0 <= col <= w,
            clip_x + w <= 2147483647,
            rows@.len() == 16,
            rows_view(rows@) == sub_rows(edges@, jbase as int, SUBPIXEL_COUNT as int),
            r@ == coverage_row(fill, rows_view(rows@), clip_x as int, col as int),
            r@.len() == col,
            forall|m: int| 0 <= m < r@.len() ==> #[trigger] r@[m] <= 256,
        decreases w - col,
    {
        let cov = coverage_of_pixel(fill, &rows, clip_x as i64 + col as i64);
        r.push(cov);
        col = col + 1;
    }
    r
}

} // verus!
