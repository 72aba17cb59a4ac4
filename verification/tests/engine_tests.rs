use trimetvis::{
    bucket_positions, gray_intensity, render, render_frame, select_window, ColorMode, GeoBounds,
    NoDataError, Position, PositionSet, RenderConfig, WindowPolicy, COORD_LIMIT,
};

fn pos(lat: i64, lon: i64) -> Position {
    Position::new(lat, lon).expect("coordinate within fixed-point range")
}

fn pset_of(buckets: &[(u32, &[(i64, i64)])]) -> PositionSet {
    let mut ps = PositionSet::new();
    for (bucket, coords) in buckets {
        let positions: Vec<Position> = coords.iter().map(|&(la, lo)| pos(la, lo)).collect();
        assert!(ps.push_bucket(*bucket, positions));
    }
    ps
}

#[test]
fn bounds_are_tight_over_all_buckets() {
    let ps = pset_of(&[(1, &[(10, 20)]), (2, &[(10, 20), (12, 22)])]);
    let b = ps.compute_bounds().expect("non-empty set has bounds");
    assert_eq!(b, GeoBounds { min_lat: 10, max_lat: 12, min_lon: 20, max_lon: 22 });
}

#[test]
fn bounds_of_empty_set_is_no_data() {
    let ps = PositionSet::new();
    assert_eq!(ps.compute_bounds(), Err(NoDataError));
}

#[test]
fn bounds_of_empty_buckets_is_no_data() {
    let mut ps = PositionSet::new();
    assert!(ps.push_bucket(3, Vec::new()));
    assert!(ps.push_bucket(7, Vec::new()));
    assert_eq!(ps.compute_bounds(), Err(NoDataError));
}

#[test]
fn position_new_rejects_out_of_range() {
    assert!(Position::new(COORD_LIMIT + 1, 0).is_none());
    assert!(Position::new(0, -COORD_LIMIT - 1).is_none());
    assert!(Position::new(COORD_LIMIT, -COORD_LIMIT).is_some());
}

#[test]
fn push_bucket_requires_ascending_unique_keys() {
    let mut ps = PositionSet::new();
    assert!(ps.push_bucket(5, vec![pos(1, 1)]));
    assert!(!ps.push_bucket(5, vec![pos(2, 2)]));
    assert!(!ps.push_bucket(3, vec![pos(2, 2)]));
    assert!(ps.push_bucket(6, vec![pos(2, 2)]));
}

fn grid_sum(g: &trimetvis::CountGrid) -> u64 {
    let mut sum: u64 = 0;
    for r in 0..g.res {
        for c in 0..g.res {
            sum += g.get(r, c) as u64;
        }
    }
    sum
}

#[test]
fn nosplat_sum_equals_position_count() {
    let b = GeoBounds { min_lat: 0, max_lat: 100, min_lon: 0, max_lon: 100 };
    let positions = vec![pos(0, 0), pos(13, 77), pos(100, 100), pos(50, 50), pos(50, 50)];
    let g = bucket_positions(&positions, &b, 8, false);
    assert_eq!(grid_sum(&g), 5);
}

#[test]
fn splat_sum_is_nine_per_position_even_at_edges() {
    let b = GeoBounds { min_lat: 0, max_lat: 100, min_lon: 0, max_lon: 100 };
    let positions = vec![pos(0, 0), pos(100, 100), pos(50, 50)];
    let g = bucket_positions(&positions, &b, 8, true);
    assert_eq!(grid_sum(&g), 27);
}

#[test]
fn splat_interior_position_spreads_one_per_neighbor() {
    let b = GeoBounds { min_lat: 0, max_lat: 3, min_lon: 0, max_lon: 3 };
    // (2, 2) maps to primary cell (2, 2) of a 4x4 grid: all nine kernel
    // targets are distinct interior cells.
    let g = bucket_positions(&vec![pos(2, 2)], &b, 4, true);
    for r in 0..4 {
        for c in 0..4 {
            let expected = if (1..=3).contains(&r) && (1..=3).contains(&c) { 1 } else { 0 };
            assert_eq!(g.get(r, c), expected);
        }
    }
}

#[test]
fn splat_min_corner_folds_kernel_onto_corner() {
    let b = GeoBounds { min_lat: 0, max_lat: 3, min_lon: 0, max_lon: 3 };
    // The clamped kernel folds at the corner: four targets collapse onto
    // (0,0), two each onto (0,1) and (1,0), one onto (1,1).
    let g = bucket_positions(&vec![pos(0, 0)], &b, 4, true);
    assert_eq!(g.get(0, 0), 4);
    assert_eq!(g.get(0, 1), 2);
    assert_eq!(g.get(1, 0), 2);
    assert_eq!(g.get(1, 1), 1);
    assert_eq!(grid_sum(&g), 9);
}

#[test]
fn splat_single_cell_grid_takes_all_nine() {
    let b = GeoBounds { min_lat: 0, max_lat: 3, min_lon: 0, max_lon: 3 };
    let g = bucket_positions(&vec![pos(1, 1)], &b, 1, true);
    assert_eq!(g.get(0, 0), 9);
}

#[test]
fn bucketer_empty_input_yields_zero_grid() {
    let b = GeoBounds { min_lat: 0, max_lat: 3, min_lon: 0, max_lon: 3 };
    let g = bucket_positions(&Vec::new(), &b, 4, true);
    assert_eq!(grid_sum(&g), 0);
}

#[test]
fn degenerate_axis_maps_to_index_zero() {
    // Zero-width latitude range: every latitude normalizes to 0, while the
    // longitude axis still spreads.
    let b = GeoBounds { min_lat: 5, max_lat: 5, min_lon: 0, max_lon: 10 };
    let g = bucket_positions(&vec![pos(5, 10)], &b, 4, false);
    assert_eq!(g.get(0, 3), 1);
    assert_eq!(grid_sum(&g), 1);
}

#[test]
fn maximum_coordinate_maps_to_last_cell() {
    let b = GeoBounds { min_lat: 0, max_lat: 10, min_lon: 0, max_lon: 10 };
    let g = bucket_positions(&vec![pos(10, 10)], &b, 4, false);
    assert_eq!(g.get(3, 3), 1);
}

#[test]
fn count_window_takes_most_recent_available() {
    let ps = pset_of(&[
        (1, &[(1, 1)]),
        (2, &[(2, 2)]),
        (5, &[(5, 5)]),
        (6, &[(6, 6)]),
    ]);
    let w = select_window(&ps, 6, 3, WindowPolicy::Count);
    assert_eq!(w.buckets, vec![2, 5, 6]);
    assert_eq!(w.positions.len(), 3);
}

#[test]
fn range_window_shrinks_over_gaps() {
    let ps = pset_of(&[
        (1, &[(1, 1)]),
        (2, &[(2, 2)]),
        (5, &[(5, 5)]),
        (6, &[(6, 6)]),
    ]);
    let w = select_window(&ps, 6, 3, WindowPolicy::Range);
    assert_eq!(w.buckets, vec![5, 6]);
    assert_eq!(w.positions.len(), 2);
}

#[test]
fn range_window_clamps_below_first_bucket() {
    let ps = pset_of(&[(1, &[(1, 1)]), (2, &[(2, 2)])]);
    let w = select_window(&ps, 1, 5, WindowPolicy::Range);
    assert_eq!(w.buckets, vec![1]);
}

#[test]
fn count_window_takes_all_when_fewer_than_n() {
    let ps = pset_of(&[(1, &[(1, 1)]), (2, &[(2, 2)])]);
    let w = select_window(&ps, 9, 5, WindowPolicy::Count);
    assert_eq!(w.buckets, vec![1, 2]);
}

#[test]
fn window_reports_min_and_max_included_bucket() {
    let ps = pset_of(&[
        (1, &[(1, 1)]),
        (2, &[(2, 2)]),
        (5, &[(5, 5)]),
        (6, &[(6, 6)]),
    ]);
    let w = select_window(&ps, 6, 3, WindowPolicy::Count);
    assert_eq!(w.min_bucket(), Some(2));
    assert_eq!(w.max_bucket(), Some(6));
    let empty = select_window(&ps, 0, 3, WindowPolicy::Count);
    assert_eq!(empty.min_bucket(), None);
    assert_eq!(empty.max_bucket(), None);
}

#[test]
fn gray_rounding_matches_formula() {
    // round(5 / 10 * 255) = round(127.5) = 128
    assert_eq!(gray_intensity(5, 10), 128);
    assert_eq!(gray_intensity(0, 10), 0);
    assert_eq!(gray_intensity(10, 10), 255);
    // round(1 / 3 * 255) = round(85.0) = 85
    assert_eq!(gray_intensity(1, 3), 85);
}

#[test]
fn gray_zero_maximum_forces_zero() {
    assert_eq!(gray_intensity(0, 0), 0);
    assert_eq!(gray_intensity(7, 0), 0);
}

#[test]
fn gray_count_above_maximum_clamps_at_255() {
    assert_eq!(gray_intensity(20, 10), 255);
    assert_eq!(gray_intensity(11, 10), 255);
}

#[test]
fn grayscale_render_writes_one_byte_per_cell() {
    let b = GeoBounds { min_lat: 0, max_lat: 1, min_lon: 0, max_lon: 1 };
    // 2x2 grid, one position in each of two opposite corner cells.
    let g = bucket_positions(&vec![pos(0, 0), pos(1, 1)], &b, 2, false);
    let out = render(&g, 2, ColorMode::Grayscale);
    assert_eq!(out.len(), 4);
    assert_eq!(out[0], 128); // count 1 of maximum 2
    assert_eq!(out[1], 0);
    assert_eq!(out[2], 0);
    assert_eq!(out[3], 128);
}

#[test]
fn render_is_deterministic() {
    let b = GeoBounds { min_lat: 0, max_lat: 9, min_lon: 0, max_lon: 9 };
    let positions: Vec<Position> = (0..10).map(|k| pos(k, 9 - k)).collect();
    let g = bucket_positions(&positions, &b, 8, true);
    let color1 = render(&g, 10, ColorMode::Inferno);
    let color2 = render(&g, 10, ColorMode::Inferno);
    assert_eq!(color1, color2);
    let gray1 = render(&g, 10, ColorMode::Grayscale);
    let gray2 = render(&g, 10, ColorMode::Grayscale);
    assert_eq!(gray1, gray2);
}

#[test]
fn inferno_render_matches_colorous_ramp() {
    let b = GeoBounds { min_lat: 0, max_lat: 1, min_lon: 0, max_lon: 1 };
    // 1x1 grid holding count 3 (no splat: three positions on one cell).
    let g = bucket_positions(&vec![pos(0, 0), pos(0, 1), pos(1, 1)], &b, 1, false);
    let out = render(&g, 4, ColorMode::Inferno);
    let expected = colorous::INFERNO.eval_rational(3, 5);
    assert_eq!(out, vec![expected.r, expected.g, expected.b]);
    // A count above the maximum saturates at the ramp's end.
    let over = render(&g, 2, ColorMode::Inferno);
    let end = colorous::INFERNO.eval_rational(2, 3);
    assert_eq!(over, vec![end.r, end.g, end.b]);
}

#[test]
fn inferno_zero_maximum_renders_ramp_origin() {
    let b = GeoBounds { min_lat: 0, max_lat: 1, min_lon: 0, max_lon: 1 };
    let g = bucket_positions(&vec![pos(0, 0)], &b, 1, false);
    let out = render(&g, 0, ColorMode::Inferno);
    let origin = colorous::INFERNO.eval_rational(0, 2);
    assert_eq!(out, vec![origin.r, origin.g, origin.b]);
}

#[test]
fn end_to_end_frame_aggregates_window_and_maps_corners() {
    let ps = pset_of(&[(1, &[(10, 20)]), (2, &[(10, 20), (12, 22)])]);
    let bounds = ps.compute_bounds().unwrap();
    assert_eq!(bounds, GeoBounds { min_lat: 10, max_lat: 12, min_lon: 20, max_lon: 22 });
    let cfg = RenderConfig {
        resolution: 4,
        window: 2,
        policy: WindowPolicy::Count,
        splat: false,
        mode: ColorMode::Grayscale,
        fixed_max: Some(10),
    };
    let f = render_frame(&ps, &bounds, 2, &cfg).expect("window holds positions");
    assert_eq!(f.bucket, 2);
    assert_eq!(f.buckets_included, vec![1, 2]);
    assert_eq!(f.max_used, 10);
    for r in 0..4 {
        for c in 0..4 {
            let expected = match (r, c) {
                (0, 0) => 2,
                (3, 3) => 1,
                _ => 0,
            };
            assert_eq!(f.grid.get(r, c), expected);
        }
    }
    // Pixels follow the grayscale formula cell by cell.
    assert_eq!(f.pixels.len(), 16);
    assert_eq!(f.pixels[0], gray_intensity(2, 10));
    assert_eq!(f.pixels[15], gray_intensity(1, 10));
}

#[test]
fn empty_window_skips_frame() {
    let ps = pset_of(&[(5, &[(1, 1)])]);
    let bounds = GeoBounds { min_lat: 0, max_lat: 2, min_lon: 0, max_lon: 2 };
    let cfg = RenderConfig {
        resolution: 4,
        window: 3,
        policy: WindowPolicy::Count,
        splat: false,
        mode: ColorMode::Grayscale,
        fixed_max: Some(10),
    };
    assert!(render_frame(&ps, &bounds, 2, &cfg).is_none());
}

#[test]
fn per_frame_maximum_is_true_grid_maximum() {
    let ps = pset_of(&[(1, &[(0, 0), (0, 0), (0, 0), (2, 2)])]);
    let bounds = GeoBounds { min_lat: 0, max_lat: 2, min_lon: 0, max_lon: 2 };
    let cfg = RenderConfig {
        resolution: 2,
        window: 1,
        policy: WindowPolicy::Count,
        splat: false,
        mode: ColorMode::Grayscale,
        fixed_max: None,
    };
    let f = render_frame(&ps, &bounds, 1, &cfg).unwrap();
    assert_eq!(f.max_used, 3);
    // The densest cell renders at full intensity under its own maximum.
    assert_eq!(f.pixels[0], 255);
}
