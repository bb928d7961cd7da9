use fill_missing_data::boundary::{extract_boundary, Sample};
use fill_missing_data::grid::Grid;
use fill_missing_data::interp::{effective_filter_size, fill_plan, CellPlan};
use fill_missing_data::search::FixedRadiusSearch;

const NODATA: f64 = -32768.0;

fn grid_from(rows: usize, columns: usize, values: &[f64]) -> Grid {
    let cells: Vec<u64> = values.iter().map(|v| v.to_bits()).collect();
    Grid::new(rows, columns, NODATA.to_bits(), cells).unwrap()
}

/// The inverse-square-distance weighted reduction of the contributions of
/// one hole: weights are summed first, then each value's share is
/// accumulated. Returns None for the degenerate case of no contributions,
/// for which the chosen policy emits nodata.
fn idw(pairs: &[(u64, u64)]) -> Option<f64> {
    let mut sum_weights = 0.0_f64;
    for &(_, d2) in pairs {
        sum_weights += 1.0 / d2 as f64;
    }
    if sum_weights == 0.0 {
        return None;
    }
    let mut z = 0.0_f64;
    for &(bits, d2) in pairs {
        z += f64::from_bits(bits) * (1.0 / d2 as f64) / sum_weights;
    }
    Some(z)
}

#[test]
fn effective_size_even_is_incremented() {
    assert_eq!(effective_filter_size(10), 11);
    assert_eq!(effective_filter_size(2), 3);
}

#[test]
fn effective_size_odd_is_unchanged() {
    assert_eq!(effective_filter_size(3), 3);
    assert_eq!(effective_filter_size(11), 11);
}

#[test]
fn effective_size_zero_becomes_one() {
    assert_eq!(effective_filter_size(0), 1);
}

#[test]
fn grid_new_rejects_wrong_cell_count() {
    let cells: Vec<u64> = vec![0, 1, 2];
    assert!(Grid::new(2, 2, NODATA.to_bits(), cells).is_none());
}

#[test]
fn value_at_out_of_bounds_is_nodata() {
    let g = grid_from(2, 2, &[1.0, 2.0, 3.0, 4.0]);
    assert_eq!(g.value_at(-1, 0), NODATA.to_bits());
    assert_eq!(g.value_at(0, 2), NODATA.to_bits());
    assert_eq!(g.value_at(2, 0), NODATA.to_bits());
    assert_eq!(g.value_at(1, 1), 4.0_f64.to_bits());
}

#[test]
fn boundary_of_fully_valid_grid_is_its_border() {
    // Reads beyond the border count as holes, so every border cell is a
    // boundary cell; the centre of a 3x3 grid is the only interior cell.
    let g = grid_from(3, 3, &[2.0; 9]);
    let v = 2.0_f64.to_bits();
    let got = extract_boundary(&g);
    let expected = vec![
        Sample { x: 0, y: 0, value: v },
        Sample { x: 1, y: 0, value: v },
        Sample { x: 2, y: 0, value: v },
        Sample { x: 0, y: 1, value: v },
        Sample { x: 2, y: 1, value: v },
        Sample { x: 0, y: 2, value: v },
        Sample { x: 1, y: 2, value: v },
        Sample { x: 2, y: 2, value: v },
    ];
    assert_eq!(got, expected);
}

#[test]
fn boundary_of_all_nodata_grid_is_empty() {
    let g = grid_from(3, 3, &[NODATA; 9]);
    assert!(extract_boundary(&g).is_empty());
}

#[test]
fn search_reports_values_with_squared_distances() {
    let mut frs = FixedRadiusSearch::new(3);
    frs.insert(0, 0, 10);
    frs.insert(3, 4, 20);
    frs.insert(2, 2, 30);
    let got = frs.search(0, 0);
    // (3, 4) is at distance 5, beyond the radius; the others are reported
    // in insertion order with exact squared distances.
    assert_eq!(got, vec![(10, 0), (30, 8)]);
}

#[test]
fn search_includes_distance_equal_to_radius() {
    let mut frs = FixedRadiusSearch::new(5);
    frs.insert(3, 4, 7);
    assert_eq!(frs.search(0, 0), vec![(7, 25)]);
}

#[test]
fn search_at_stored_coordinate_reports_zero_distance() {
    // The index itself reports a zero-distance match; the interpolator is
    // what excludes it from the weighting.
    let mut frs = FixedRadiusSearch::new(2);
    frs.insert(3, 3, 42);
    assert_eq!(frs.search(3, 3), vec![(42, 0)]);
}

#[test]
fn larger_radius_only_adds_results() {
    let mut small = FixedRadiusSearch::new(2);
    let mut large = FixedRadiusSearch::new(5);
    let points = [(0usize, 1usize, 1u64), (2, 2, 2), (4, 0, 3), (1, 1, 4), (5, 5, 5)];
    for &(x, y, v) in points.iter() {
        small.insert(x, y, v);
        large.insert(x, y, v);
    }
    let near = small.search(1, 1);
    let far = large.search(1, 1);
    for p in near.iter() {
        assert!(far.contains(p));
    }
    assert!(far.len() >= near.len());
}

#[test]
fn single_hole_surrounded_by_equal_values() {
    // A 5x5 grid, all cells 10.0 except the centre, filter size 3 (odd,
    // stays 3): the hole's estimate is 10.0.
    let mut values = [10.0_f64; 25];
    values[2 * 5 + 2] = NODATA;
    let g = grid_from(5, 5, &values);
    let plan = fill_plan(&g, 3);
    assert_eq!(plan.len(), 25);
    match &plan[2 * 5 + 2] {
        CellPlan::Estimate(pairs) => {
            assert!(!pairs.is_empty());
            for &(bits, d2) in pairs.iter() {
                assert_eq!(f64::from_bits(bits), 10.0);
                assert!(d2 > 0 && d2 <= 9);
            }
            let z = idw(pairs).unwrap();
            assert!((z - 10.0).abs() < 1e-9);
        },
        CellPlan::Keep(_) => panic!("hole must be estimated"),
    }
}

#[test]
fn row_of_holes_resolves_to_neighbour_value() {
    // A 5x5 grid whose middle row is nodata, every other cell 5.0, filter
    // size 11: every hole draws samples of value 5.0 and resolves to 5.0.
    let mut values = [5.0_f64; 25];
    for col in 0..5 {
        values[2 * 5 + col] = NODATA;
    }
    let g = grid_from(5, 5, &values);
    let plan = fill_plan(&g, 11);
    for col in 0..5 {
        match &plan[2 * 5 + col] {
            CellPlan::Estimate(pairs) => {
                assert!(!pairs.is_empty());
                let z = idw(pairs).unwrap();
                assert!((z - 5.0).abs() < 1e-9);
            },
            CellPlan::Keep(_) => panic!("hole must be estimated"),
        }
    }
    for col in 0..5 {
        match &plan[1 * 5 + col] {
            CellPlan::Keep(bits) => assert_eq!(*bits, 5.0_f64.to_bits()),
            CellPlan::Estimate(_) => panic!("valid cell must be kept"),
        }
    }
}

#[test]
fn isolated_hole_beyond_radius_gets_no_contributions() {
    // One row, valid data only in the first four columns, filter size 5:
    // the far hole finds no boundary sample in range, its contribution list
    // is empty, and the chosen policy turns that into nodata.
    let mut values = [NODATA; 20];
    for col in 0..4 {
        values[col] = 7.0;
    }
    let g = grid_from(1, 20, &values);
    let plan = fill_plan(&g, 5);
    match &plan[19] {
        CellPlan::Estimate(pairs) => {
            assert!(pairs.is_empty());
            assert!(idw(pairs).is_none());
        },
        CellPlan::Keep(_) => panic!("hole must be estimated"),
    }
    match &plan[4] {
        CellPlan::Estimate(pairs) => {
            assert!(!pairs.is_empty());
            let z = idw(pairs).unwrap();
            assert!((z - 7.0).abs() < 1e-9);
        },
        CellPlan::Keep(_) => panic!("hole must be estimated"),
    }
}

#[test]
fn all_nodata_grid_estimates_every_cell_from_nothing() {
    // No valid cell anywhere: the extractor inserts zero samples and every
    // query comes back empty.
    let g = grid_from(3, 3, &[NODATA; 9]);
    let plan = fill_plan(&g, 11);
    assert_eq!(plan.len(), 9);
    for p in plan.iter() {
        match p {
            CellPlan::Estimate(pairs) => assert!(pairs.is_empty()),
            CellPlan::Keep(_) => panic!("every cell is a hole"),
        }
    }
}

#[test]
fn fully_valid_input_is_copied_unchanged() {
    // No cell is nodata: the output is the input, bit for bit.
    let values: Vec<f64> = (0..16).map(|i| 0.5 + i as f64).collect();
    let g = grid_from(4, 4, &values);
    let plan = fill_plan(&g, 9);
    let mut output: Vec<u64> = Vec::new();
    for p in plan.iter() {
        match p {
            CellPlan::Keep(bits) => output.push(*bits),
            CellPlan::Estimate(_) => panic!("no cell may be estimated"),
        }
    }
    let input_cells: Vec<u64> = values.iter().map(|v| v.to_bits()).collect();
    assert_eq!(output, input_cells);
}

#[test]
fn hole_contributions_never_have_zero_distance() {
    let mut values = [10.0_f64; 25];
    values[2 * 5 + 2] = NODATA;
    let g = grid_from(5, 5, &values);
    let plan = fill_plan(&g, 3);
    match &plan[2 * 5 + 2] {
        CellPlan::Estimate(pairs) => {
            for &(_, d2) in pairs.iter() {
                assert!(d2 > 0);
            }
        },
        CellPlan::Keep(_) => panic!("hole must be estimated"),
    }
}

#[test]
fn estimate_lies_between_sample_extremes() {
    // A 3x3 grid whose centre is a hole, neighbours carrying distinct
    // values: the weighted average stays within their range.
    let values = [1.0, 2.0, 3.0, 4.0, NODATA, 6.0, 7.0, 8.0, 9.0];
    let g = grid_from(3, 3, &values);
    let plan = fill_plan(&g, 3);
    match &plan[1 * 3 + 1] {
        CellPlan::Estimate(pairs) => {
            assert_eq!(pairs.len(), 8);
            let z = idw(pairs).unwrap();
            let lo = pairs.iter().map(|&(b, _)| f64::from_bits(b)).fold(f64::INFINITY, f64::min);
            let hi = pairs
                .iter()
                .map(|&(b, _)| f64::from_bits(b))
                .fold(f64::NEG_INFINITY, f64::max);
            assert!(lo <= z && z <= hi);
            assert_eq!(lo, 1.0);
            assert_eq!(hi, 9.0);
        },
        CellPlan::Keep(_) => panic!("hole must be estimated"),
    }
}
