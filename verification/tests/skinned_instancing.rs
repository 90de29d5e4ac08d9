//! Grouping skinned instances for instanced drawing.
use goud_engine::skinned_instancing::instanced_skinned_groups;

#[test]
fn groups_animated_instances_of_skinned_sources() {
    // (instance, source)
    let instances = vec![(10, 1), (11, 2), (12, 1), (13, 1), (14, 3), (15, 2)];
    let skinned = vec![1, 2];
    let animated = vec![10, 12, 13, 11, 14];
    let groups = instanced_skinned_groups(&instances, &skinned, &animated, 2);
    // Source 2 has one animated instance (11): below the threshold.
    // Source 3 is not skinned.
    assert_eq!(groups, vec![(1, vec![10, 12, 13])]);
}

#[test]
fn threshold_of_one_keeps_every_nonempty_group() {
    let instances = vec![(10, 1), (11, 2), (12, 1)];
    let groups = instanced_skinned_groups(&instances, &vec![1, 2], &vec![10, 11, 12], 1);
    assert_eq!(groups, vec![(1, vec![10, 12]), (2, vec![11])]);
}

#[test]
fn zero_threshold_still_needs_an_instance() {
    let instances = vec![(10, 1)];
    let groups = instanced_skinned_groups(&instances, &vec![1, 2], &Vec::new(), 0);
    assert!(groups.is_empty());
}
