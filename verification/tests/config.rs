//! Configuration defaults, enum codes and the animation LOD rule.
use goud_engine::config::{
    animation_lod_half_rate_skip, clamp_extent, supported_msaa_samples, animation_lod_skips_update, BatchingConfig, GridRenderMode, LightType,
    MaterialType, PrimitiveType, Renderer3DStats, SkinningMode,
};
use goud_engine::vertex_layout::skinned_vertex_layout;

#[test]
fn test_batching_config_default() {
    let bc = BatchingConfig::default();
    assert!(bc.static_batching_enabled);
    assert!(bc.instancing_enabled);
    assert!(bc.material_sorting_enabled);
    assert_eq!(bc.max_static_batch_vertices, 50_000);
    assert_eq!(bc.min_instances_for_batching, 2);
}

#[test]
fn test_skinning_mode_equality() {
    assert_eq!(SkinningMode::Cpu, SkinningMode::Cpu);
    assert_eq!(SkinningMode::Gpu, SkinningMode::Gpu);
    assert_ne!(SkinningMode::Cpu, SkinningMode::Gpu);
}

#[test]
fn animation_tests_test_skinned_vertex_layout_size() {
    // 3 (pos) + 3 (normal) + 2 (uv) + 4 (bone ids) + 4 (bone weights) = 16 floats
    // 16 * 4 bytes = 64 bytes per vertex
    assert_eq!(16 * std::mem::size_of::<f32>(), 64);
    assert_eq!(skinned_vertex_layout().stride as usize, 16 * std::mem::size_of::<f32>());
}

#[test]
fn mod_test_skinned_vertex_layout_size() {
    assert_eq!(16 * std::mem::size_of::<f32>(), 64);
    assert_eq!(skinned_vertex_layout().stride as usize, 16 * std::mem::size_of::<f32>());
}

/// The half-rate rule skips evaluation when `frame + player_id` is odd.
#[test]
fn test_animation_lod_half_rate_alternation() {
    let player_id: u32 = 42;
    let mut evaluated = Vec::new();
    for frame in 0u64..10 {
        let should_skip = animation_lod_half_rate_skip(frame, player_id);
        evaluated.push(!should_skip);
    }
    // player_id 42 is even, so (frame + 42) parity matches frame parity.
    assert_eq!(evaluated, vec![true, false, true, false, true, false, true, false, true, false]);
}

/// Different player IDs produce staggered half-rate patterns.
#[test]
fn test_animation_lod_half_rate_stagger() {
    let mut pattern_even = Vec::new();
    let mut pattern_odd = Vec::new();
    let even_id: u32 = 10;
    let odd_id: u32 = 11;
    for frame in 0u64..6 {
        let skip_even = animation_lod_half_rate_skip(frame, even_id);
        let skip_odd = animation_lod_half_rate_skip(frame, odd_id);
        pattern_even.push(!skip_even);
        pattern_odd.push(!skip_odd);
    }
    assert_eq!(pattern_even, vec![true, false, true, false, true, false]);
    assert_eq!(pattern_odd, vec![false, true, false, true, false, true]);
}

#[test]
fn half_rate_skip_wraps_at_frame_counter_limit() {
    // u64::MAX + 1 wraps to 0: even, so evaluated.
    assert!(!animation_lod_half_rate_skip(u64::MAX, 1));
    // u64::MAX + 2 wraps to 1: odd, so skipped.
    assert!(animation_lod_half_rate_skip(u64::MAX, 2));
}

#[test]
fn lod_rule_combines_distance_bands() {
    // LOD disabled: never skipped.
    assert!(!animation_lod_skips_update(false, true, true, 1, 0));
    // Beyond the freeze distance: always skipped.
    assert!(animation_lod_skips_update(true, true, true, 0, 0));
    // Half-rate band: skipped on odd frame + id only.
    assert!(animation_lod_skips_update(true, false, true, 1, 0));
    assert!(!animation_lod_skips_update(true, false, true, 2, 0));
    // Near: never skipped.
    assert!(!animation_lod_skips_update(true, false, false, 1, 0));
}

#[test]
fn enum_codes_match_shader_numbers() {
    assert_eq!(MaterialType::Phong.code(), 0);
    assert_eq!(MaterialType::Pbr.code(), 1);
    assert_eq!(MaterialType::Unlit.code(), 2);
    assert_eq!(PrimitiveType::Cube.code(), 0);
    assert_eq!(PrimitiveType::Sphere.code(), 1);
    assert_eq!(PrimitiveType::Plane.code(), 2);
    assert_eq!(PrimitiveType::Cylinder.code(), 3);
    assert_eq!(LightType::Point.code(), 0);
    assert_eq!(LightType::Directional.code(), 1);
    assert_eq!(LightType::Spot.code(), 2);
    assert_eq!(GridRenderMode::Blend.code(), 0);
    assert_eq!(GridRenderMode::Overlap.code(), 1);
}

#[test]
fn renderer_stats_default_is_all_zero() {
    let s = Renderer3DStats::default();
    assert_eq!(s.draw_calls, 0);
    assert_eq!(s.visible_objects, 0);
    assert_eq!(s.spatial_index_candidates, 0);
    assert_eq!(s.spatial_index_cells_visited, 0);
    assert_eq!(s, Renderer3DStats { ..s });
}

#[test]
fn msaa_and_extent_rules() {
    assert_eq!(supported_msaa_samples(4), 4);
    assert_eq!(supported_msaa_samples(8), 8);
    assert_eq!(supported_msaa_samples(3), 1);
    assert_eq!(supported_msaa_samples(16), 1);
    assert_eq!(clamp_extent(0), 1);
    assert_eq!(clamp_extent(720), 720);
}
