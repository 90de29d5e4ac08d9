//! Bone channel names and the bone-to-channel map.
use goud_engine::bone_channels::{make_property_name, BoneChannelMap, BonePropertyNames};

#[test]
fn bone_property_names_format() {
    let n = BonePropertyNames::new(12);
    assert_eq!(n.translation[0], "node_12.translation.x");
    assert_eq!(n.translation[2], "node_12.translation.z");
    assert_eq!(n.rotation[3], "node_12.rotation.w");
    assert_eq!(n.scale[1], "node_12.scale.y");
    let z = BonePropertyNames::new(0);
    assert_eq!(z.rotation[0], "node_0.rotation.x");
    assert_eq!(make_property_name(1050, "scale.z"), "node_1050.scale.z");
    assert_eq!(make_property_name(usize::MAX, "x"), format!("node_{}.x", usize::MAX));
}

#[test]
fn channel_map_finds_first_matching_channel() {
    let targets: Vec<String> = vec![
        "node_0.translation.x".to_string(),
        "node_1.rotation.w".to_string(),
        "node_0.scale.y".to_string(),
        "node_0.translation.x".to_string(),
        "node_7.translation.x".to_string(),
    ];
    let map = BoneChannelMap::build(2, &targets);
    assert_eq!(map.channels.len(), 2);
    assert_eq!(map.channels[0][0], Some(0));
    assert_eq!(map.channels[0][1], None);
    assert_eq!(map.channels[0][8], Some(2));
    assert_eq!(map.channels[1][6], Some(1));
    assert_eq!(map.channels[1][0], None);
}

#[test]
fn channel_map_for_empty_skeleton_is_empty() {
    let map = BoneChannelMap::build(0, &vec!["node_0.scale.x".to_string()]);
    assert!(map.channels.is_empty());
}
