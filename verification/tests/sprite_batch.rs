//! Sprite batch configuration, vertex format and batch formation.
use goud_engine::sprite_batch::{
    batch_draw_range, batch_entry, batch_ranges, grown_vertex_capacity, quad_indices, vertex_buffer_needs_growth,
    AssetHandle, SpriteBatch, SpriteBatchConfig, SpriteBatchEntry, SpriteVertex, TextureHandle,
};

#[test]
fn test_sprite_batch_config_default() {
    let config = SpriteBatchConfig::default();
    assert_eq!(config.initial_capacity, 1024);
    assert_eq!(config.max_batch_size, 10000);
    assert!(config.enable_z_sorting);
    assert!(config.enable_batching);
}

#[test]
fn test_sprite_vertex_layout() {
    let layout = SpriteVertex::layout();
    assert_eq!(layout.stride, std::mem::size_of::<SpriteVertex>() as u32);
    assert_eq!(layout.attributes.len(), 3);
}

#[test]
fn test_sprite_batch_entry_creation() {
    let entry = SpriteBatchEntry {
        texture_handle: AssetHandle::new(1, 1),
        gpu_texture: None,
        vertex_start: 0,
        vertex_count: 24,
    };
    assert_eq!(entry.vertex_start, 0);
    assert_eq!(entry.vertex_count, 24);
    assert!(entry.gpu_texture.is_none());
}

#[test]
fn sprite_vertex_attribute_offsets() {
    let layout = SpriteVertex::layout();
    let offsets: Vec<u32> = layout.attributes.iter().map(|a| a.offset).collect();
    assert_eq!(offsets, vec![0, 8, 16]);
    assert_eq!(layout.stride, 32);
}

#[test]
fn batches_follow_texture_runs() {
    let a = AssetHandle::new(1, 1);
    let b = AssetHandle::new(2, 1);
    let tex = vec![a, a, b, b, b, a];
    let ranges = batch_ranges(&tex, 10000);
    assert_eq!(ranges, vec![(a, 0, 2), (b, 2, 5), (a, 5, 6)]);
}

#[test]
fn batches_split_at_max_batch_size() {
    let a = AssetHandle::new(1, 1);
    let tex = vec![a; 7];
    assert_eq!(batch_ranges(&tex, 3), vec![(a, 0, 3), (a, 3, 6), (a, 6, 7)]);
    // A zero limit puts every sprite in its own batch.
    assert_eq!(batch_ranges(&vec![a; 3], 0), vec![(a, 0, 1), (a, 1, 2), (a, 2, 3)]);
}

#[test]
fn no_sprites_no_batches() {
    assert!(batch_ranges(&Vec::new(), 10).is_empty());
}

#[test]
fn single_texture_makes_one_batch() {
    let t = AssetHandle::new(1, 1);
    let tex = vec![t; 5];
    assert_eq!(batch_ranges(&tex, 10000), vec![(t, 0, 5)]);
}

#[test]
fn batch_entries_and_draw_ranges() {
    let t = AssetHandle::new(3, 1);
    let e = batch_entry(t, 2, 5);
    assert_eq!(e, SpriteBatchEntry { texture_handle: t, gpu_texture: None, vertex_start: 8, vertex_count: 12 });
    assert_eq!(batch_draw_range(&e), (18, 12));
}

#[test]
fn quad_index_buffer_pattern() {
    assert_eq!(quad_indices(2), vec![0, 1, 2, 2, 3, 0, 4, 5, 6, 6, 7, 4]);
    assert!(quad_indices(0).is_empty());
}

#[test]
fn vertex_buffer_growth_rules() {
    assert!(vertex_buffer_needs_growth(false, 0, 100));
    assert!(!vertex_buffer_needs_growth(true, 400, 100));
    assert!(vertex_buffer_needs_growth(true, 401, 100));
    // 401 vertices need 101 sprites: doubled to 202.
    assert_eq!(grown_vertex_capacity(401, 100, 64), 202);
    // The initial capacity is a floor.
    assert_eq!(grown_vertex_capacity(401, 100, 1024), 1024);
    // No growth needed: back to the initial capacity.
    assert_eq!(grown_vertex_capacity(40, 100, 1024), 1024);
}

#[test]
fn sprite_batch_frame_statistics() {
    let mut batch = SpriteBatch::new(SpriteBatchConfig::default());
    assert_eq!(batch.frame_count(), 0);
    batch.begin();
    assert_eq!(batch.frame_count(), 1);
    assert_eq!(batch.sprite_count(), 0);
    assert_eq!(batch.batch_count(), 0);
    assert!(batch.end().is_ok());
}

#[test]
fn sprite_batch_generates_entries_per_texture_run() {
    let mut batch = SpriteBatch::new(SpriteBatchConfig { max_batch_size: 2, ..SpriteBatchConfig::default() });
    batch.begin();
    let a = AssetHandle::new(1, 1);
    let b = AssetHandle::new(2, 1);
    for t in [a, a, a, b] {
        batch.push_sprite(t);
    }
    batch.generate_batches();
    assert_eq!(batch.sprite_count(), 4);
    assert_eq!(batch.batch_count(), 3);
    batch.begin();
    assert_eq!(batch.sprite_count(), 0);
    assert_eq!(batch.batch_count(), 0);
    assert_eq!(batch.frame_count(), 2);
}

#[test]
fn recorded_gpu_texture_lands_on_its_batch_only() {
    let mut batch = SpriteBatch::new(SpriteBatchConfig::default());
    batch.begin();
    let a = AssetHandle::new(1, 1);
    let b = AssetHandle::new(2, 1);
    batch.push_sprite(a);
    batch.push_sprite(b);
    batch.generate_batches();
    assert_eq!(batch.batch_count(), 2);
    assert_eq!(batch.batch(0).unwrap().gpu_texture, None);
    assert!(batch.set_batch_texture(1, TextureHandle { id: 7 }));
    let second = batch.batch(1).unwrap();
    assert_eq!(second.gpu_texture, Some(TextureHandle { id: 7 }));
    assert_eq!(second.texture_handle, b);
    assert_eq!(second.vertex_start, 4);
    assert_eq!(second.vertex_count, 4);
    assert_eq!(batch.batch(0).unwrap().gpu_texture, None);
    assert!(!batch.set_batch_texture(2, TextureHandle { id: 9 }));
    assert_eq!(batch.batch(2), None);
}
