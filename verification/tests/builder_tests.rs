use wpf_gpu_raster::rasterize_to_tri_strip;
use wpf_gpu_raster::FillMode;
use wpf_gpu_raster::FixedPoint;
use wpf_gpu_raster::PathBuilder;
use wpf_gpu_raster::COVERAGE_ONE;
use wpf_gpu_raster::PATH_POINT_TYPE_BEZIER;
use wpf_gpu_raster::PATH_POINT_TYPE_CLOSE;
use wpf_gpu_raster::PATH_POINT_TYPE_LINE;
use wpf_gpu_raster::PATH_POINT_TYPE_START;

#[test]
fn default_fill_mode_is_even_odd() {
    assert!(matches!(FillMode::default(), FillMode::EvenOdd));
}

#[test]
fn get_path_returns_accumulated_arrays() {
    let mut p = PathBuilder::new();
    p.move_to_fixed(152, 152, true);
    p.line_to_fixed(152, 472, true);
    p.line_to_fixed(472, 472, true);
    p.close();
    let path = p.get_path().expect("a drawn path is returned");
    assert_eq!(path.types, vec![
        PATH_POINT_TYPE_START,
        PATH_POINT_TYPE_LINE,
        PATH_POINT_TYPE_LINE | PATH_POINT_TYPE_CLOSE,
    ]);
    assert_eq!(path.points.len(), 3);
    assert_eq!(path.points[0], FixedPoint { x: 152, y: 152 });
    // The builder's arrays were handed out: nothing is left to return.
    assert!(p.get_path().is_none());
}

#[test]
fn get_path_empty_builder_returns_none() {
    let mut p = PathBuilder::new();
    assert!(p.get_path().is_none());
}

#[test]
fn get_path_invalid_range_returns_none() {
    let mut p = PathBuilder::new();
    p.move_to_fixed(0, 0, false);
    p.line_to_fixed(160, 160, true);
    assert!(p.get_path().is_none());
}

#[test]
fn curve_before_move_uses_control_as_start() {
    // A curve_to with no prior start uses its first control point as the
    // implicit subpath start.
    let mut p = PathBuilder::new();
    p.curve_to_fixed(-8, -8, true, 632, -8, true, 632, 632, true);
    let path = p.get_path().expect("a drawn path is returned");
    assert_eq!(path.types, vec![PATH_POINT_TYPE_START, PATH_POINT_TYPE_BEZIER]);
    assert_eq!(path.points.len(), 4);
    assert_eq!(path.points[0], FixedPoint { x: -8, y: -8 });
}

#[test]
fn standalone_rasterize_square() {
    // The same square as the builder produces, fed to the standalone entry
    // point: pixel rows 10..=29 of column band 10..=29 are fully covered.
    let types = vec![
        PATH_POINT_TYPE_START,
        PATH_POINT_TYPE_LINE,
        PATH_POINT_TYPE_LINE,
        PATH_POINT_TYPE_LINE | PATH_POINT_TYPE_CLOSE,
    ];
    let points = vec![
        FixedPoint { x: 152, y: 152 },
        FixedPoint { x: 152, y: 472 },
        FixedPoint { x: 472, y: 472 },
        FixedPoint { x: 472, y: 152 },
    ];
    let result = rasterize_to_tri_strip(
        FillMode::EvenOdd,
        &types,
        &points,
        0,
        0,
        100,
        100,
        true,
        false,
    );
    assert_eq!(result.len(), 54);
    assert!(result.iter().any(|v| v.coverage == COVERAGE_ONE));
}

#[test]
fn standalone_rejects_out_of_range_points() {
    let types = vec![PATH_POINT_TYPE_START, PATH_POINT_TYPE_LINE, PATH_POINT_TYPE_LINE];
    let points = vec![
        FixedPoint { x: 0, y: 0 },
        FixedPoint { x: 2000000000, y: 0 },
        FixedPoint { x: 0, y: 160 },
    ];
    let result = rasterize_to_tri_strip(
        FillMode::EvenOdd,
        &types,
        &points,
        0,
        0,
        100,
        100,
        true,
        false,
    );
    assert_eq!(result.len(), 0);
}

#[test]
fn standalone_rejects_malformed_sequences() {
    // A Line type byte with no Start before it is malformed: the whole
    // path is rejected.
    let types = vec![PATH_POINT_TYPE_LINE];
    let points = vec![FixedPoint { x: 0, y: 0 }];
    let result = rasterize_to_tri_strip(
        FillMode::EvenOdd,
        &types,
        &points,
        0,
        0,
        100,
        100,
        true,
        false,
    );
    assert_eq!(result.len(), 0);
}

#[test]
fn standalone_degenerate_clip_is_empty() {
    let types = vec![
        PATH_POINT_TYPE_START,
        PATH_POINT_TYPE_LINE,
        PATH_POINT_TYPE_LINE,
    ];
    let points = vec![
        FixedPoint { x: 152, y: 152 },
        FixedPoint { x: 152, y: 472 },
        FixedPoint { x: 472, y: 472 },
    ];
    let result = rasterize_to_tri_strip(
        FillMode::EvenOdd,
        &types,
        &points,
        0,
        0,
        0,
        100,
        true,
        false,
    );
    assert_eq!(result.len(), 0);
    let result = rasterize_to_tri_strip(
        FillMode::EvenOdd,
        &types,
        &points,
        0,
        0,
        100,
        -5,
        true,
        false,
    );
    assert_eq!(result.len(), 0);
}

#[test]
fn outside_bounds_disjoint_from_clip_is_empty() {
    // Outside bounds that do not meet the clip rectangle leave an empty
    // effective region.
    let mut p = PathBuilder::new();
    p.move_to_fixed(152, 152, true);
    p.line_to_fixed(152, 472, true);
    p.line_to_fixed(472, 472, true);
    p.close();
    p.set_outside_bounds(Some((200, 200, 300, 300)), false);
    let result = p.rasterize_to_tri_strip(0, 0, 100, 100);
    assert_eq!(result.len(), 0);
}
