//! Sparse grid spatial index: insert, update, remove and AABB queries.
use goud_engine::spatial_index::{CellRange, SpatialIndex};

/// World AABB to the cell range it covers for a grid of `cell_size`
/// (clamped to at least 0.5), as the renderer converts it.
fn cell_range(cell_size: f32, min: [f32; 3], max: [f32; 3]) -> CellRange {
    let inv = 1.0 / cell_size.max(0.5);
    CellRange {
        min: ((min[0] * inv).floor() as i32, (min[1] * inv).floor() as i32, (min[2] * inv).floor() as i32),
        max: ((max[0] * inv).floor() as i32, (max[1] * inv).floor() as i32, (max[2] * inv).floor() as i32),
    }
}

fn collect(idx: &mut SpatialIndex, cell_size: f32, min: [f32; 3], max: [f32; 3]) -> Vec<u32> {
    let mut out = idx.query_aabb(cell_range(cell_size, min, max));
    out.sort_unstable();
    out
}

#[test]
fn spatial_index_empty_index_yields_no_candidates() {
    let mut idx = SpatialIndex::new();
    let cs = 16.0;
    let got = collect(&mut idx, cs, [-100.0, -100.0, -100.0], [100.0, 100.0, 100.0]);
    assert!(got.is_empty());
    assert_eq!(idx.last_query_visited_cells(), 0);
    assert_eq!(idx.last_query_visited_candidates(), 0);
}

#[test]
fn spatial_index_insert_then_query_returns_object() {
    let mut idx = SpatialIndex::new();
    let cs = 16.0;
    idx.insert(7, cell_range(cs, [1.0, 1.0, 1.0], [2.0, 2.0, 2.0]));
    let got = collect(&mut idx, cs, [0.0, 0.0, 0.0], [8.0, 8.0, 8.0]);
    assert_eq!(got, vec![7]);
    assert_eq!(idx.last_query_visited_candidates(), 1);
}

#[test]
fn spatial_index_query_outside_skips_object() {
    let mut idx = SpatialIndex::new();
    let cs = 16.0;
    idx.insert(7, cell_range(cs, [1.0, 1.0, 1.0], [2.0, 2.0, 2.0]));
    let got = collect(&mut idx, cs, [100.0, 100.0, 100.0], [120.0, 120.0, 120.0]);
    assert!(got.is_empty());
    assert_eq!(idx.last_query_visited_cells(), 0);
}

#[test]
fn spatial_index_object_spanning_cells_dedupes_to_one_visit() {
    let mut idx = SpatialIndex::new();
    let cs = 8.0;
    // The AABB straddles four cells in the XY plane.
    idx.insert(42, cell_range(cs, [7.0, 7.0, 0.5], [9.0, 9.0, 0.5]));
    let got = collect(&mut idx, cs, [0.0, 0.0, 0.0], [20.0, 20.0, 1.0]);
    assert_eq!(got, vec![42]);
    assert_eq!(idx.last_query_visited_candidates(), 1);
    assert!(
        idx.last_query_visited_cells() >= 4,
        "expected at least 4 cells visited, got {}",
        idx.last_query_visited_cells()
    );
}

#[test]
fn spatial_index_update_moves_object_between_cells() {
    let mut idx = SpatialIndex::new();
    let cs = 16.0;
    idx.insert(7, cell_range(cs, [1.0, 1.0, 1.0], [2.0, 2.0, 2.0]));
    idx.update(7, cell_range(cs, [100.0, 100.0, 100.0], [101.0, 101.0, 101.0]));
    // Old location should yield nothing.
    assert!(collect(&mut idx, cs, [0.0, 0.0, 0.0], [8.0, 8.0, 8.0]).is_empty());
    // New location should yield the object.
    assert_eq!(collect(&mut idx, cs, [99.0, 99.0, 99.0], [110.0, 110.0, 110.0]), vec![7]);
}

#[test]
fn spatial_index_remove_drops_object_from_all_cells() {
    let mut idx = SpatialIndex::new();
    let cs = 8.0;
    idx.insert(42, cell_range(cs, [7.0, 7.0, 0.5], [9.0, 9.0, 0.5]));
    assert!(idx.remove(42));
    assert_eq!(idx.object_count(), 0);
    assert_eq!(idx.cell_count(), 0);
    let got = collect(&mut idx, cs, [0.0, 0.0, 0.0], [20.0, 20.0, 1.0]);
    assert!(got.is_empty());
}

#[test]
fn spatial_index_remove_missing_id_returns_false() {
    let mut idx = SpatialIndex::new();
    assert!(!idx.remove(99));
}

#[test]
fn spatial_index_many_objects_in_one_cell_survive_partial_removal() {
    let mut idx = SpatialIndex::new();
    let cs = 16.0;
    for id in 0..32 {
        idx.insert(id, cell_range(cs, [1.0, 1.0, 1.0], [2.0, 2.0, 2.0]));
    }
    // Remove evens.
    for id in (0..32).step_by(2) {
        assert!(idx.remove(id));
    }
    let got = collect(&mut idx, cs, [0.0, 0.0, 0.0], [8.0, 8.0, 8.0]);
    let expected: Vec<u32> = (1..32).step_by(2).collect();
    assert_eq!(got, expected);
}

#[test]
fn spatial_index_reinsert_with_same_aabb_is_idempotent() {
    let mut idx = SpatialIndex::new();
    let cs = 16.0;
    idx.insert(5, cell_range(cs, [1.0, 1.0, 1.0], [2.0, 2.0, 2.0]));
    idx.insert(5, cell_range(cs, [1.0, 1.0, 1.0], [2.0, 2.0, 2.0]));
    let got = collect(&mut idx, cs, [0.0, 0.0, 0.0], [8.0, 8.0, 8.0]);
    assert_eq!(got, vec![5]);
    assert_eq!(idx.object_count(), 1);
}

#[test]
fn spatial_index_clear_drops_everything_but_keeps_cell_size() {
    let mut idx = SpatialIndex::new();
    let cs = 16.0;
    idx.insert(1, cell_range(cs, [0.0, 0.0, 0.0], [1.0, 1.0, 1.0]));
    idx.clear();
    assert_eq!(idx.object_count(), 0);
    assert_eq!(idx.cell_count(), 0);
    // The cell size lives with the caller that converts world AABBs to
    // cell ranges; after a clear the same conversion still applies.
    idx.insert(1, cell_range(cs, [0.0, 0.0, 0.0], [1.0, 1.0, 1.0]));
    assert_eq!(collect(&mut idx, cs, [0.0, 0.0, 0.0], [1.0, 1.0, 1.0]), vec![1]);
}

#[test]
fn spatial_index_negative_world_coords_route_to_negative_cells() {
    let mut idx = SpatialIndex::new();
    let cs = 8.0;
    idx.insert(1, cell_range(cs, [-9.0, -9.0, -9.0], [-1.0, -1.0, -1.0]));
    let got = collect(&mut idx, cs, [-16.0, -16.0, -16.0], [0.0, 0.0, 0.0]);
    assert_eq!(got, vec![1]);
}

#[test]
fn spatial_index_stamp_wraparound_preserves_correctness() {
    let mut idx = SpatialIndex::new();
    let cs = 16.0;
    idx.insert(3, cell_range(cs, [1.0, 1.0, 1.0], [2.0, 2.0, 2.0]));
    // Force the stamp counter to wrap.
    idx.reset_query_stamp(u64::MAX - 1);
    for _ in 0..4 {
        let got = collect(&mut idx, cs, [0.0, 0.0, 0.0], [8.0, 8.0, 8.0]);
        assert_eq!(got, vec![3]);
    }
}

#[test]
fn tests_empty_index_yields_no_candidates() {
    let mut idx = SpatialIndex::new();
    let cs = 16.0;
    let got = collect(&mut idx, cs, [-100.0, -100.0, -100.0], [100.0, 100.0, 100.0]);
    assert!(got.is_empty());
    assert_eq!(idx.last_query_visited_cells(), 0);
    assert_eq!(idx.last_query_visited_candidates(), 0);
}

#[test]
fn tests_insert_then_query_returns_object() {
    let mut idx = SpatialIndex::new();
    let cs = 16.0;
    idx.insert(7, cell_range(cs, [1.0, 1.0, 1.0], [2.0, 2.0, 2.0]));
    let got = collect(&mut idx, cs, [0.0, 0.0, 0.0], [8.0, 8.0, 8.0]);
    assert_eq!(got, vec![7]);
    assert_eq!(idx.last_query_visited_candidates(), 1);
}

#[test]
fn tests_query_outside_skips_object() {
    let mut idx = SpatialIndex::new();
    let cs = 16.0;
    idx.insert(7, cell_range(cs, [1.0, 1.0, 1.0], [2.0, 2.0, 2.0]));
    let got = collect(&mut idx, cs, [100.0, 100.0, 100.0], [120.0, 120.0, 120.0]);
    assert!(got.is_empty());
    assert_eq!(idx.last_query_visited_cells(), 0);
}

#[test]
fn tests_object_spanning_cells_dedupes_to_one_visit() {
    let mut idx = SpatialIndex::new();
    let cs = 8.0;
    // The AABB straddles four cells in the XY plane.
    idx.insert(42, cell_range(cs, [7.0, 7.0, 0.5], [9.0, 9.0, 0.5]));
    let got = collect(&mut idx, cs, [0.0, 0.0, 0.0], [20.0, 20.0, 1.0]);
    assert_eq!(got, vec![42]);
    assert_eq!(idx.last_query_visited_candidates(), 1);
    assert!(
        idx.last_query_visited_cells() >= 4,
        "expected at least 4 cells visited, got {}",
        idx.last_query_visited_cells()
    );
}

#[test]
fn tests_update_moves_object_between_cells() {
    let mut idx = SpatialIndex::new();
    let cs = 16.0;
    idx.insert(7, cell_range(cs, [1.0, 1.0, 1.0], [2.0, 2.0, 2.0]));
    idx.update(7, cell_range(cs, [100.0, 100.0, 100.0], [101.0, 101.0, 101.0]));
    // Old location should yield nothing.
    assert!(collect(&mut idx, cs, [0.0, 0.0, 0.0], [8.0, 8.0, 8.0]).is_empty());
    // New location should yield the object.
    assert_eq!(collect(&mut idx, cs, [99.0, 99.0, 99.0], [110.0, 110.0, 110.0]), vec![7]);
}

#[test]
fn tests_remove_drops_object_from_all_cells() {
    let mut idx = SpatialIndex::new();
    let cs = 8.0;
    idx.insert(42, cell_range(cs, [7.0, 7.0, 0.5], [9.0, 9.0, 0.5]));
    assert!(idx.remove(42));
    assert_eq!(idx.object_count(), 0);
    assert_eq!(idx.cell_count(), 0);
    let got = collect(&mut idx, cs, [0.0, 0.0, 0.0], [20.0, 20.0, 1.0]);
    assert!(got.is_empty());
}

#[test]
fn tests_remove_missing_id_returns_false() {
    let mut idx = SpatialIndex::new();
    assert!(!idx.remove(99));
}

#[test]
fn tests_many_objects_in_one_cell_survive_partial_removal() {
    let mut idx = SpatialIndex::new();
    let cs = 16.0;
    for id in 0..32 {
        idx.insert(id, cell_range(cs, [1.0, 1.0, 1.0], [2.0, 2.0, 2.0]));
    }
    // Remove evens.
    for id in (0..32).step_by(2) {
        assert!(idx.remove(id));
    }
    let got = collect(&mut idx, cs, [0.0, 0.0, 0.0], [8.0, 8.0, 8.0]);
    let expected: Vec<u32> = (1..32).step_by(2).collect();
    assert_eq!(got, expected);
}

#[test]
fn tests_reinsert_with_same_aabb_is_idempotent() {
    let mut idx = SpatialIndex::new();
    let cs = 16.0;
    idx.insert(5, cell_range(cs, [1.0, 1.0, 1.0], [2.0, 2.0, 2.0]));
    idx.insert(5, cell_range(cs, [1.0, 1.0, 1.0], [2.0, 2.0, 2.0]));
    let got = collect(&mut idx, cs, [0.0, 0.0, 0.0], [8.0, 8.0, 8.0]);
    assert_eq!(got, vec![5]);
    assert_eq!(idx.object_count(), 1);
}

#[test]
fn tests_clear_drops_everything_but_keeps_cell_size() {
    let mut idx = SpatialIndex::new();
    let cs = 16.0;
    idx.insert(1, cell_range(cs, [0.0, 0.0, 0.0], [1.0, 1.0, 1.0]));
    idx.clear();
    assert_eq!(idx.object_count(), 0);
    assert_eq!(idx.cell_count(), 0);
    // The cell size lives with the caller that converts world AABBs to
    // cell ranges; after a clear the same conversion still applies.
    idx.insert(1, cell_range(cs, [0.0, 0.0, 0.0], [1.0, 1.0, 1.0]));
    assert_eq!(collect(&mut idx, cs, [0.0, 0.0, 0.0], [1.0, 1.0, 1.0]), vec![1]);
}

#[test]
fn tests_negative_world_coords_route_to_negative_cells() {
    let mut idx = SpatialIndex::new();
    let cs = 8.0;
    idx.insert(1, cell_range(cs, [-9.0, -9.0, -9.0], [-1.0, -1.0, -1.0]));
    let got = collect(&mut idx, cs, [-16.0, -16.0, -16.0], [0.0, 0.0, 0.0]);
    assert_eq!(got, vec![1]);
}

#[test]
fn tests_stamp_wraparound_preserves_correctness() {
    let mut idx = SpatialIndex::new();
    let cs = 16.0;
    idx.insert(3, cell_range(cs, [1.0, 1.0, 1.0], [2.0, 2.0, 2.0]));
    // Force the stamp counter to wrap.
    idx.reset_query_stamp(u64::MAX - 1);
    for _ in 0..4 {
        let got = collect(&mut idx, cs, [0.0, 0.0, 0.0], [8.0, 8.0, 8.0]);
        assert_eq!(got, vec![3]);
    }
}

/// A far-plane-sized query over a handful of occupied cells walks the
/// occupied cells instead of the swept range.
#[test]
fn occupied_cell_scan_used_for_huge_aabb() {
    let mut idx = SpatialIndex::new();
    let cs = 8.0;
    idx.insert(1, cell_range(cs, [0.0, 0.0, 0.0], [1.0, 1.0, 1.0]));
    idx.insert(2, cell_range(cs, [8.0, 0.0, 0.0], [9.0, 1.0, 1.0]));
    idx.insert(3, cell_range(cs, [0.0, 8.0, 0.0], [1.0, 9.0, 1.0]));
    let occupied = idx.cell_count() as u32;
    let got = collect(&mut idx, cs, [-10000.0, -10000.0, -10000.0], [10000.0, 10000.0, 10000.0]);
    assert_eq!(got, vec![1, 2, 3]);
    assert!(
        idx.last_query_visited_cells() <= occupied,
        "occupied-cell scan should not visit more than {} cells, got {}",
        occupied,
        idx.last_query_visited_cells()
    );
}

fn r(min: (i32, i32, i32), max: (i32, i32, i32)) -> CellRange {
    CellRange { min, max }
}

#[test]
fn query_counts_visited_cells_and_candidates() {
    let mut idx = SpatialIndex::new();
    idx.insert(1, r((0, 0, 0), (1, 1, 0)));
    idx.insert(2, r((1, 1, 0), (2, 2, 0)));
    assert_eq!(idx.cell_count(), 7);
    let mut got = idx.query_aabb(r((1, 1, 0), (1, 1, 0)));
    got.sort_unstable();
    assert_eq!(got, vec![1, 2]);
    assert_eq!(idx.last_query_visited_cells(), 1);
    assert_eq!(idx.last_query_visited_candidates(), 2);
}

#[test]
fn query_with_inverted_range_reports_nothing() {
    let mut idx = SpatialIndex::new();
    idx.insert(1, r((0, 0, 0), (3, 3, 3)));
    let got = idx.query_aabb(r((2, 2, 2), (1, 1, 1)));
    assert!(got.is_empty());
    assert_eq!(idx.last_query_visited_cells(), 0);
}

#[test]
fn scan_and_sweep_report_the_same_objects() {
    let mut idx = SpatialIndex::new();
    for id in 0..20u32 {
        let x = (id as i32) * 3 - 30;
        idx.insert(id, r((x, 0, 0), (x + 1, 1, 0)));
    }
    // Narrow query: swept.
    let mut narrow = idx.query_aabb(r((-30, 0, 0), (-20, 1, 0)));
    narrow.sort_unstable();
    assert_eq!(narrow, vec![0, 1, 2, 3]);
    // Huge query: scanned.
    let mut all = idx.query_aabb(r((-1000, -1000, -1000), (1000, 1000, 1000)));
    all.sort_unstable();
    assert_eq!(all, (0..20).collect::<Vec<u32>>());
}

#[test]
fn update_to_overlapping_range_keeps_single_report() {
    let mut idx = SpatialIndex::new();
    idx.insert(9, r((0, 0, 0), (2, 0, 0)));
    idx.update(9, r((1, 0, 0), (3, 0, 0)));
    assert_eq!(idx.object_count(), 1);
    assert_eq!(idx.cell_count(), 3);
    assert_eq!(idx.query_aabb(r((0, 0, 0), (0, 0, 0))), Vec::<u32>::new());
    assert_eq!(idx.query_aabb(r((0, 0, 0), (3, 0, 0))), vec![9]);
}
