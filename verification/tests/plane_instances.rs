//! Plane-instance pools: instantiation, removal and dirty tracking.
use goud_engine::plane_instances::{grown_pool_capacity, next_power_of_two, PlaneInstancePools, PlaneRemoval};

#[test]
fn instances_of_one_source_share_a_pool() {
    let mut pools = PlaneInstancePools::new();
    assert_eq!(pools.pool_for_source(10), None);
    assert_eq!(pools.instantiate(10, 100, 1), (100, 0, true));
    assert_eq!(pools.instantiate(10, 101, 2), (100, 1, false));
    assert_eq!(pools.instantiate(20, 101, 3), (101, 0, true));
    assert_eq!(pools.pool_for_source(10), Some(100));
    assert_eq!(pools.pool_for_source(20), Some(101));
    assert_eq!(pools.slot_of(2), Some((100, 1)));
    assert_eq!(pools.slot_of(3), Some((101, 0)));
    assert_eq!(pools.slot_of(4), None);
}

#[test]
fn removal_swaps_last_slot_into_the_hole() {
    let mut pools = PlaneInstancePools::new();
    pools.instantiate(10, 100, 1);
    pools.instantiate(10, 100, 2);
    pools.instantiate(10, 100, 3);
    let r = pools.remove_instance(1).unwrap();
    assert_eq!(
        r,
        PlaneRemoval { mesh_id: 100, slot: 0, last: 2, moved: true, pool_destroyed: false, source_plane_id: 10 }
    );
    assert_eq!(pools.slot_of(3), Some((100, 0)));
    assert_eq!(pools.slot_of(2), Some((100, 1)));
    assert_eq!(pools.slot_of(1), None);
    // Removing the last slot moves nothing.
    let r = pools.remove_instance(2).unwrap();
    assert!(!r.moved);
    assert_eq!(r.slot, 1);
    assert_eq!(pools.remove_instance(2), None);
}

#[test]
fn removing_last_instance_tears_down_pool() {
    let mut pools = PlaneInstancePools::new();
    pools.instantiate(7, 50, 1);
    let r = pools.remove_instance(1).unwrap();
    assert!(r.pool_destroyed);
    assert_eq!(r.source_plane_id, 7);
    assert_eq!(pools.pool_for_source(7), None);
    // A new instance of the same source gets a fresh pool.
    assert_eq!(pools.instantiate(7, 51, 2), (51, 0, true));
}

#[test]
fn dirty_tracking_follows_changes_and_uploads() {
    let mut pools = PlaneInstancePools::new();
    pools.instantiate(1, 10, 100);
    pools.instantiate(2, 20, 200);
    let mut dirty = pools.dirty_pools();
    dirty.sort_unstable();
    assert_eq!(dirty, vec![10, 20]);
    pools.mark_uploaded(10, 8);
    pools.mark_uploaded(20, 8);
    assert!(pools.dirty_pools().is_empty());
    assert_eq!(pools.mark_instance_dirty(200), Some((20, 0)));
    assert_eq!(pools.dirty_pools(), vec![20]);
    assert_eq!(pools.mark_instance_dirty(999), None);
}

#[test]
fn pool_capacity_grows_to_powers_of_two() {
    assert_eq!(next_power_of_two(0), 1);
    assert_eq!(next_power_of_two(1), 1);
    assert_eq!(next_power_of_two(5), 8);
    assert_eq!(next_power_of_two(64), 64);
    assert_eq!(next_power_of_two(65), 128);
    assert_eq!(grown_pool_capacity(3, 8), None);
    assert_eq!(grown_pool_capacity(9, 8), Some(16));
    assert_eq!(grown_pool_capacity(2, 1), Some(8));
    assert_eq!(grown_pool_capacity(1000, 512), Some(1024));
}
