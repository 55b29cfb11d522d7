use wpf_gpu_raster::FillMode;
use wpf_gpu_raster::OutputVertex;
use wpf_gpu_raster::PathBuilder;

/// Converts a device-space coordinate (pixel corner at the origin) to 28.4
/// fixed point with the pixel-center convention, together with whether it is
/// inside the representable range.
fn conv(v: f64) -> (i32, bool) {
    let s = (v - 0.5) * 16.0;
    let ok = s.abs() < 134217728.0;
    (s.round() as i32, ok)
}

fn move_to(p: &mut PathBuilder, x: f64, y: f64) {
    let (cx, okx) = conv(x);
    let (cy, oky) = conv(y);
    p.move_to_fixed(cx, cy, okx && oky);
}

fn line_to(p: &mut PathBuilder, x: f64, y: f64) {
    let (cx, okx) = conv(x);
    let (cy, oky) = conv(y);
    p.line_to_fixed(cx, cy, okx && oky);
}

fn curve_to(p: &mut PathBuilder, c1x: f64, c1y: f64, c2x: f64, c2y: f64, x: f64, y: f64) {
    let (ax, oka) = conv(c1x);
    let (ay, okb) = conv(c1y);
    let (bx, okc) = conv(c2x);
    let (by, okd) = conv(c2y);
    let (cx, oke) = conv(x);
    let (cy, okf) = conv(y);
    p.curve_to_fixed(ax, ay, oka && okb, bx, by, okc && okd, cx, cy, oke && okf);
}

fn square_path() -> PathBuilder {
    let mut p = PathBuilder::new();
    move_to(&mut p, 10., 10.);
    line_to(&mut p, 10., 30.);
    line_to(&mut p, 30., 30.);
    line_to(&mut p, 30., 10.);
    p.close();
    p
}

fn bowtie_path() -> PathBuilder {
    let mut p = PathBuilder::new();
    move_to(&mut p, 10., 10.);
    line_to(&mut p, 40., 10.);
    line_to(&mut p, 10., 40.);
    line_to(&mut p, 40., 40.);
    p.close();
    p
}

fn nested_squares(mode: FillMode) -> Vec<OutputVertex> {
    let mut p = PathBuilder::new();
    move_to(&mut p, 10., 10.);
    line_to(&mut p, 40., 10.);
    line_to(&mut p, 40., 40.);
    line_to(&mut p, 10., 40.);
    p.close();
    move_to(&mut p, 15., 15.);
    line_to(&mut p, 35., 15.);
    line_to(&mut p, 35., 35.);
    line_to(&mut p, 15., 35.);
    p.close();
    p.set_fill_mode(mode);
    p.rasterize_to_tri_strip(0, 0, 100, 100)
}

#[test]
fn basic() {
    // An axis-aligned square with integer corners: the interior pixels are
    // fully covered, the boundary pixels carry the half-pixel antialiasing
    // of the pixel-center convention, and the vertex count is fixed.
    let p = square_path();
    let result = p.rasterize_to_tri_strip(0, 0, 100, 100);
    assert_eq!(result.len(), 54);
    assert!(result.iter().any(|v| v.coverage == 256));
    assert!(result.iter().any(|v| v.coverage == 128));
    assert!(result.iter().all(|v| v.coverage <= 256));
    // Full coverage appears only strictly inside the square.
    for v in result.iter() {
        if v.coverage == 256 {
            assert!(v.x >= 10 && v.x <= 29 && v.y >= 10 && v.y <= 29);
        }
    }
    // Exact per-pixel coverage: the integer corners sit half a pixel into
    // their boundary pixels, so an edge pixel holds 8 of 16 sample columns
    // or rows and a corner pixel 8 x 8 of the 256 samples.
    assert_eq!(coverage_at(&result, 20, 20), 256);
    assert_eq!(coverage_at(&result, 20, 9), 128);
    assert_eq!(coverage_at(&result, 9, 20), 128);
    assert_eq!(coverage_at(&result, 9, 9), 64);
    assert_eq!(coverage_at(&result, 8, 8), 0);
    assert_eq!(coverage_at(&result, 30, 30), 0);
}

#[test]
fn simple() {
    let mut p = PathBuilder::new();
    move_to(&mut p, 10., 10.);
    line_to(&mut p, 40., 10.);
    line_to(&mut p, 40., 40.);
    let result = p.rasterize_to_tri_strip(0, 0, 100, 100);
    assert!(!result.is_empty());
    assert!(result.len() % 6 == 0);
    assert!(result.iter().any(|v| v.coverage == 256));
    // Without outside bounds nothing is emitted with zero coverage.
    assert!(result.iter().all(|v| v.coverage > 0));
}

#[test]
fn rust() {
    // Rasterizing the same path twice yields identical output.
    let mut p = PathBuilder::new();
    move_to(&mut p, 10., 10.);
    line_to(&mut p, 40., 10.);
    line_to(&mut p, 40., 40.);
    let first = p.rasterize_to_tri_strip(0, 0, 100, 100);
    let second = p.rasterize_to_tri_strip(0, 0, 100, 100);
    assert_eq!(first, second);
}

/// The summed coverage of the quads of `verts` that contain the pixel
/// `(px, py)`: every six consecutive vertices form one axis-aligned quad.
fn coverage_at(verts: &[OutputVertex], px: i32, py: i32) -> u32 {
    let mut total: u32 = 0;
    for quad in verts.chunks(6) {
        let (v0, v3) = (&quad[0], &quad[4]);
        if v0.x <= px && px < v3.x && v0.y <= py && py < v3.y {
            total += v0.coverage as u32;
        }
    }
    total
}

#[test]
fn fill_mode() {
    // A square with a nested, same-direction square: even-odd leaves a
    // hole, winding fills it, so the two outputs must differ.
    let even_odd = nested_squares(FillMode::EvenOdd);
    let winding = nested_squares(FillMode::Winding);
    assert!(!even_odd.is_empty());
    assert!(!winding.is_empty());
    assert_ne!(even_odd, winding);
    // In the middle of the inner square, even-odd sees a hole and winding
    // sees a filled interior.
    assert_eq!(coverage_at(&even_odd, 25, 25), 0);
    assert_eq!(coverage_at(&winding, 25, 25), 256);
    // Both rules fill the ring between the squares.
    assert_eq!(coverage_at(&even_odd, 12, 25), 256);
    assert_eq!(coverage_at(&winding, 12, 25), 256);
}

#[test]
fn winding_reversed_inner_is_hole() {
    // Under the nonzero-winding rule an inner square drawn in the opposite
    // direction cancels the outer winding: the middle becomes a hole.
    let mut p = PathBuilder::new();
    move_to(&mut p, 10., 10.);
    line_to(&mut p, 40., 10.);
    line_to(&mut p, 40., 40.);
    line_to(&mut p, 10., 40.);
    p.close();
    move_to(&mut p, 15., 15.);
    line_to(&mut p, 15., 35.);
    line_to(&mut p, 35., 35.);
    line_to(&mut p, 35., 15.);
    p.close();
    p.set_fill_mode(FillMode::Winding);
    let result = p.rasterize_to_tri_strip(0, 0, 100, 100);
    assert_eq!(coverage_at(&result, 25, 25), 0);
    assert_eq!(coverage_at(&result, 12, 25), 256);
}

#[test]
fn range() {
    // A start point out of the representable range invalidates the path.
    let mut p = PathBuilder::new();
    curve_to(&mut p, 8.872974e16, 0., 0., 0., 0., 0.);
    let result = p.rasterize_to_tri_strip(0, 0, 100, 100);
    assert_eq!(result.len(), 0);

    // A subsequent point out of range invalidates the path as well.
    let mut p = PathBuilder::new();
    curve_to(&mut p, 0., 0., 8.872974e16, 0., 0., 0.);
    let result = p.rasterize_to_tri_strip(0, 0, 100, 100);
    assert_eq!(result.len(), 0);
}

#[test]
fn multiple_starts() {
    // A line_to before any move_to only buffers a pending start.
    let mut p = PathBuilder::new();
    line_to(&mut p, 10., 10.);
    move_to(&mut p, 0., 0.);
    let result = p.rasterize_to_tri_strip(0, 0, 100, 100);
    assert_eq!(result.len(), 0);
}

#[test]
fn line_before_move_alone() {
    // A line_to before any move_to, followed by nothing, yields an empty
    // result: no edge was ever formed.
    let mut p = PathBuilder::new();
    line_to(&mut p, 10., 10.);
    let result = p.rasterize_to_tri_strip(0, 0, 100, 100);
    assert_eq!(result.len(), 0);
}

#[test]
fn path_closing() {
    // A subpath drawn and closed, then redrawn without a move_to, must not
    // merge with the closed subpath: the single trailing degenerate curve
    // yields nothing.
    let mut p = PathBuilder::new();
    curve_to(&mut p, 0., 0., 0., 0., 0., 32.0);
    p.close();
    curve_to(&mut p, 0., 0., 0., 0., 0., 32.0);
    let result = p.rasterize_to_tri_strip(0, 0, 100, 100);
    assert_eq!(result.len(), 0);
}

#[test]
fn curve() {
    let mut p = PathBuilder::new();
    move_to(&mut p, 10., 10.);
    curve_to(&mut p, 40., 10., 40., 10., 40., 40.);
    p.close();
    let result = p.rasterize_to_tri_strip(0, 0, 100, 100);
    assert!(!result.is_empty());
    assert!(result.len() % 6 == 0);
    assert!(result.iter().any(|v| v.coverage == 256));
    assert!(result.iter().any(|v| v.coverage > 0 && v.coverage < 256));
}

#[test]
fn partial_coverage_last_line() {
    // The bottom edge lies at y = 39.6, inside pixel row 39: that row's
    // coverage must be strictly between empty and full.
    let mut p = PathBuilder::new();
    move_to(&mut p, 10., 10.);
    line_to(&mut p, 40., 10.);
    line_to(&mut p, 40., 39.6);
    line_to(&mut p, 10., 39.6);
    let result = p.rasterize_to_tri_strip(0, 0, 100, 100);
    assert!(result.iter().any(|v| v.coverage > 0 && v.coverage < 256));
    // Pixel row 39 holds two of its sixteen subpixel rows: 32/256.
    assert!(result.iter().any(|v| v.coverage == 32 && v.y >= 39));
}

#[test]
fn delta_upper_bound() {
    let mut p = PathBuilder::new();
    move_to(&mut p, -122.3 + 200., 84.285);
    curve_to(&mut p, -122.3 + 200., 84.285, -122.2 + 200., 86.179, -123.03 + 200., 86.16);
    curve_to(&mut p, -123.85 + 200., 86.141, -140.3 + 200., 38.066, -160.83 + 200., 40.309);
    curve_to(&mut p, -160.83 + 200., 40.309, -143.05 + 200., 32.956, -122.3 + 200., 84.285);
    p.close();
    let result = p.rasterize_to_tri_strip(0, 0, 400, 400);
    assert!(!result.is_empty());
    assert!(result.len() % 6 == 0);
    assert!(result.iter().all(|v| v.coverage <= 256));
}

#[test]
fn self_intersect() {
    let p = bowtie_path();
    let result = p.rasterize_to_tri_strip(0, 0, 100, 100);
    assert!(!result.is_empty());
    assert!(result.iter().all(|v| v.coverage <= 256));
}

#[test]
fn grid() {
    // Many thin vertical slivers: each contributes its own runs; the strip
    // stays a whole number of quads and every column stays inside the clip.
    let mut p = PathBuilder::new();
    for i in 0..10 {
        let offset = i as f64 * 2.6;
        move_to(&mut p, 0. + offset, -8.);
        line_to(&mut p, 0.5 + offset, -8.);
        line_to(&mut p, 0.5 + offset, 40.);
        line_to(&mut p, 0. + offset, 40.);
        p.close();
    }
    let result = p.rasterize_to_tri_strip(0, 0, 50, 50);
    assert!(!result.is_empty());
    assert!(result.len() % 6 == 0);
    assert!(result.iter().all(|v| v.x >= 0 && v.x <= 50 && v.y >= 0 && v.y <= 50));
}

#[test]
fn outside() {
    // Outside bounds with need_inside = false: the complement geometry
    // grows the output, and moving the bounds changes it.
    let mut p = bowtie_path();
    let plain = p.rasterize_to_tri_strip(0, 0, 100, 100);
    p.set_outside_bounds(Some((0, 0, 50, 50)), false);
    let with_outside = p.rasterize_to_tri_strip(0, 0, 100, 100);
    assert_ne!(plain, with_outside);
    assert!(with_outside.iter().all(|v| v.coverage == 0));
    assert!(!with_outside.is_empty());

    let mut p = bowtie_path();
    p.set_outside_bounds(Some((5, 5, 50, 50)), false);
    let moved = p.rasterize_to_tri_strip(0, 0, 100, 100);
    assert_ne!(with_outside, moved);
    // The outside geometry respects the intersection of the bounds and the
    // clip rectangle.
    assert!(moved.iter().all(|v| v.x >= 5 && v.x <= 50 && v.y >= 5 && v.y <= 50));
}

#[test]
fn outside_inside() {
    // need_inside = true keeps the shape and adds zero-coverage geometry
    // over the rest of the bounds.
    let mut p = bowtie_path();
    p.set_outside_bounds(Some((0, 0, 50, 50)), true);
    let result = p.rasterize_to_tri_strip(0, 0, 100, 100);
    assert!(result.iter().any(|v| v.coverage == 0));
    assert!(result.iter().any(|v| v.coverage == 256));
    // The quads tile the effective bounds exactly: their areas sum to the
    // 50 x 50 rectangle.
    let area: i64 = result
        .chunks(6)
        .map(|q| ((q[4].x - q[0].x) as i64) * ((q[4].y - q[0].y) as i64))
        .sum();
    assert_eq!(area, 2500);
}

#[test]
fn outside_clipped() {
    // The outside bounds are intersected with the clip rectangle.
    let mut p = PathBuilder::new();
    move_to(&mut p, 10., 10.);
    line_to(&mut p, 10., 40.);
    line_to(&mut p, 90., 40.);
    line_to(&mut p, 40., 10.);
    p.close();
    p.set_outside_bounds(Some((0, 0, 50, 50)), false);
    let result = p.rasterize_to_tri_strip(0, 0, 50, 50);
    assert!(!result.is_empty());
    assert!(result.iter().all(|v| v.x >= 0 && v.x <= 50 && v.y >= 0 && v.y <= 50));
}

#[test]
fn clip_edge() {
    // A curve reaching far left of the clip rectangle: everything emitted
    // stays inside the clip.
    let mut p = PathBuilder::new();
    curve_to(&mut p, -24., -10., -300., 119., 0.0, 0.0);
    let result = p.rasterize_to_tri_strip(0, 0, 100, 100);
    assert!(result.iter().all(|v| v.x >= 0 && v.x <= 100 && v.y >= 0 && v.y <= 100));
}

#[test]
fn enum_buffer_num() {
    let mut p = PathBuilder::new();
    curve_to(&mut p, 0.0, 0.0, 0.0, 12.0, 0.0, 44.919434);
    line_to(&mut p, 64.0, 36.0);
    line_to(&mut p, 0.0, 80.0);
    let result = p.rasterize_to_tri_strip(0, 0, 100, 100);
    assert!(!result.is_empty());
    assert!(result.len() % 6 == 0);
}

#[test]
fn fill_alternating_empty_interior_pairs() {
    let mut p = PathBuilder::new();
    line_to(&mut p, 0., 2.);
    curve_to(&mut p, 0.0, 0.0, 1., 6., 0.0, 0.0);
    let result = p.rasterize_to_tri_strip(0, 0, 100, 100);
    assert!(result.len() % 6 == 0);
    assert!(result.iter().all(|v| v.coverage <= 256));
}

#[test]
fn fill_winding_empty_interior_pairs() {
    let mut p = PathBuilder::new();
    curve_to(&mut p, 45., 61., 0.09, 0., 0., 0.);
    curve_to(&mut p, 45., 61., 0.09, 0., 0., 0.);
    curve_to(&mut p, 0., 0., 0., 38., 0.09, 15.);
    p.set_fill_mode(FillMode::Winding);
    let result = p.rasterize_to_tri_strip(0, 0, 100, 100);
    assert!(result.len() % 6 == 0);
    assert!(result.iter().all(|v| v.coverage <= 256));
}

#[test]
fn empty_fill() {
    // A single segment implicitly closed onto itself has no area.
    let mut p = PathBuilder::new();
    move_to(&mut p, 0., 0.);
    line_to(&mut p, 10., 100.);
    let result = p.rasterize_to_tri_strip(0, 0, 100, 100);
    assert_eq!(result.len(), 0);
}
