//! Planning the static batch: order, vertex budget and draw groups.
use goud_engine::static_batch::{static_batch_plan, StaticBatchGroup};

fn group(material_id: u32, texture_id: u32, start_vertex: u32, vertex_count: u32) -> StaticBatchGroup {
    StaticBatchGroup { material_id, texture_id, start_vertex, vertex_count }
}

#[test]
fn static_batch_groups_by_material_then_texture_within_budget() {
    let entries = vec![(2, 0, 10, 6), (1, 5, 11, 3), (1, 5, 12, 3), (1, 0, 13, 0), (2, 0, 14, 9)];
    let (groups, batched) = static_batch_plan(&entries, 15);
    assert_eq!(batched, vec![13, 11, 12, 10]);
    assert_eq!(groups, vec![group(1, 5, 0, 6), group(2, 0, 6, 6)]);
}

#[test]
fn static_batch_takes_everything_that_fits() {
    let entries = vec![(3, 1, 1, 4), (3, 1, 2, 4), (0, 0, 3, 2)];
    let (groups, batched) = static_batch_plan(&entries, 100);
    assert_eq!(batched, vec![3, 1, 2]);
    assert_eq!(groups, vec![group(0, 0, 0, 2), group(3, 1, 2, 8)]);
}

#[test]
fn static_batch_stops_at_the_first_object_over_budget() {
    let entries = vec![(1, 0, 1, 5), (1, 0, 2, 20), (1, 0, 3, 1)];
    let (groups, batched) = static_batch_plan(&entries, 10);
    assert_eq!(batched, vec![1]);
    assert_eq!(groups, vec![group(1, 0, 0, 5)]);
}

#[test]
fn static_batch_of_nothing_is_empty() {
    let (groups, batched) = static_batch_plan(&Vec::new(), 10);
    assert!(groups.is_empty());
    assert!(batched.is_empty());
}

#[test]
fn static_batch_with_zero_budget_batches_only_empty_meshes() {
    let entries = vec![(1, 0, 1, 0), (1, 0, 2, 3)];
    let (groups, batched) = static_batch_plan(&entries, 0);
    assert_eq!(batched, vec![1]);
    assert!(groups.is_empty());
}
