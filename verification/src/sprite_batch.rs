//! CPU side of the sprite batch renderer: configuration, batch formation,
//! the shared quad index buffer, vertex buffer growth and per-batch draw
//! ranges.
//!
//! Sprites are drawn in batches that share one texture: after sorting,
//! consecutive sprites with the same texture form a batch, and a batch is
//! split every `max_batch_size` sprites. Each sprite is a quad of four
//! vertices drawn as two triangles (six indices).
use vstd::prelude::*;
use crate::vertex_layout::{VertexAttribute, VertexAttributeType, VertexLayout, attributes_packed, plain_attributes};

verus! {

/// Configuration for sprite batch rendering.
#[derive(Debug, Clone, Copy, PartialEq, Eq, Structural)]
pub struct SpriteBatchConfig {
    /// Initial capacity for vertex buffer (number of sprites).
    pub initial_capacity: usize,
    /// Maximum number of sprites per batch before automatic flush.
    pub max_batch_size: usize,
    /// Enable Z-layer sorting (disable for UI layers that don't need depth).
    pub enable_z_sorting: bool,
    /// Enable automatic batching by texture (disable for debugging).
    pub enable_batching: bool,
}

impl Default for SpriteBatchConfig {
    fn default() -> (r: Self)
        ensures
            r == (SpriteBatchConfig {
                initial_capacity: 1024,
                max_batch_size: 10000,
                enable_z_sorting: true,
                enable_batching: true,
            }),
    {
        SpriteBatchConfig { initial_capacity: 1024, max_batch_size: 10000, enable_z_sorting: true, enable_batching: true }
    }
}

/// Handle of a texture asset: slot index and generation.
#[derive(Debug, Clone, Copy, PartialEq, Eq, Structural, Hash, PartialOrd, Ord)]
pub struct AssetHandle {
    /// Slot index in the asset storage.
    pub index: u32,
    /// Generation of the slot.
    pub generation: u32,
}

impl AssetHandle {
    /// A handle to slot `index` at generation `generation`.
    pub fn new(index: u32, generation: u32) -> (r: Self)
        ensures
            r == (AssetHandle { index, generation }),
    {
        AssetHandle { index, generation }
    }
}

/// Handle of a texture uploaded to the GPU.
#[derive(Debug, Clone, Copy, PartialEq, Eq, Structural)]
pub struct TextureHandle {
    /// Backend texture ID.
    pub id: u32,
}

/// A single draw batch for sprites sharing the same texture.
#[derive(Debug, Clone, Copy, PartialEq, Eq, Structural)]
pub struct SpriteBatchEntry {
    /// Texture used by this batch.
    pub texture_handle: AssetHandle,
    /// GPU texture handle (resolved from the asset handle).
    pub gpu_texture: Option<TextureHandle>,
    /// Start index in the vertex buffer.
    pub vertex_start: usize,
    /// Number of vertices in this batch.
    pub vertex_count: usize,
}

/// One corner of a sprite quad as uploaded to the GPU: position (2f),
/// texture coordinates (2f) and color (4f). Each component is held as the
/// bit pattern of its 32-bit float, so a vertex is 32 bytes.
#[derive(Debug, Clone, Copy, PartialEq, Eq)]
pub struct SpriteVertex {
    /// World-space position `(x, y)`.
    pub position: [u32; 2],
    /// Texture coordinates `(u, v)`.
    pub tex_coords: [u32; 2],
    /// Vertex color `(r, g, b, a)`.
    pub color: [u32; 4],
}

impl SpriteVertex {
    /// The vertex layout descriptor for the GPU: position at offset 0,
    /// texture coordinates at 8, color at 16, in a 32-byte vertex.
    pub fn layout() -> (r: VertexLayout)
        ensures
            attributes_packed(r),
            r.stride == 32,
            r.attributes@ == plain_attributes(seq![
                (0u32, VertexAttributeType::Float2, 0u32),
                (1u32, VertexAttributeType::Float2, 8u32),
                (2u32, VertexAttributeType::Float4, 16u32),
            ]),
    {
        let r = VertexLayout::new(32)
            .with_attribute(VertexAttribute { location: 0, attribute_type: VertexAttributeType::Float2, offset: 0, normalized: false })
            .with_attribute(VertexAttribute { location: 1, attribute_type: VertexAttributeType::Float2, offset: 8, normalized: false })
            .with_attribute(VertexAttribute { location: 2, attribute_type: VertexAttributeType::Float4, offset: 16, normalized: false });
        assert(r.attributes@ =~= plain_attributes(seq![
            (0u32, VertexAttributeType::Float2, 0u32),
            (1u32, VertexAttributeType::Float2, 8u32),
            (2u32, VertexAttributeType::Float4, 16u32),
        ]));
        r
    }
}


// ---------------------------------------------------------------------------
// Batch formation
// ---------------------------------------------------------------------------

/// `r = (texture, start, end)` is a well-formed batch of `tex`: non-empty,
/// a single sprite or at most `max` sprites, all of texture `texture`, and
/// cut at `end` because the texture changes there or the limit is reached.
pub open spec fn batch_ok(tex: Seq<AssetHandle>, max: int, r: (AssetHandle, usize, usize)) -> bool {
    &&& r.1 < r.2
    &&& r.2 - r.1 == 1 || r.2 - r.1 <= max
    &&& forall|i: int| r.1 <= i < r.2 ==> #[trigger] tex[i] == r.0
    &&& r.2 < tex.len() ==> tex[r.2 as int] != r.0 || r.2 - r.1 >= max
}

/// The first `upto` sprites are split into the consecutive batches `b`.
pub open spec fn batches_up_to(tex: Seq<AssetHandle>, max: int, b: Seq<(AssetHandle, usize, usize)>, upto: int) -> bool {
    &&& b.len() == 0 ==> upto == 0
    &&& b.len() > 0 ==> b[0].1 == 0 && b.last().2 == upto
    &&& forall|k: int| 0 <= k < b.len() ==> #[trigger] batch_ok(tex, max, b[k])
    &&& forall|k: int| 0 <= k < b.len() - 1 ==> (#[trigger] b[k]).2 == b[k + 1].1
}

/// The batches of `tex` with at most `max` sprites each (every sprite its
/// own batch when `max` is `0`): none for no sprites, else the greedy split
/// into maximal runs of one texture, cut every `max` sprites.
pub open spec fn sprite_batches(tex: Seq<AssetHandle>, max: int, b: Seq<(AssetHandle, usize, usize)>) -> bool {
    batches_up_to(tex, max, b, tex.len() as int)
}

/// Closing the open batch `[start, end)` of texture `cur` extends a split
/// of the first `start` sprites to one of the first `end` sprites.
proof fn lemma_close_batch(
    tex: Seq<AssetHandle>,
    max: int,
    b: Seq<(AssetHandle, usize, usize)>,
    cur: AssetHandle,
    start: usize,
    end: usize,
)
    requires
        batches_up_to(tex, max, b, start as int),
        batch_ok(tex, max, (cur, start, end)),
    ensures
        batches_up_to(tex, max, b.push((cur, start, end)), end as int),
{
    let nb = b.push((cur, start, end));
    let m = b.len() as int;
    assert(nb[m] == (cur, start, end));
    assert forall|k: int| 0 <= k < nb.len() implies #[trigger] batch_ok(tex, max, nb[k]) by {
        if k < m {
            assert(nb[k] == b[k]);
        }
    }
    assert forall|k: int| 0 <= k < nb.len() - 1 implies (#[trigger] nb[k]).2 == nb[k + 1].1 by {
        assert(nb[k] == b[k]);
        if k < m - 1 {
            assert(nb[k + 1] == b[k + 1]);
        }
    }
    if m > 0 {
        assert(nb[0] == b[0]);
    }
}

/// Split the sprites, given by their textures in draw order, into batch
/// ranges `(texture, start, end)`.
pub fn batch_ranges(textures: &Vec<AssetHandle>, max_batch_size: usize) -> (r: Vec<(AssetHandle, usize, usize)>)
    ensures
        sprite_batches(textures@, max_batch_size as int, r@),
{
    let n = textures.len();
    let mut ranges: Vec<(AssetHandle, usize, usize)> = Vec::new();
    if n == 0 {
        return ranges;
    }
    let ghost tex = textures@;
    let ghost max = max_batch_size as int;
    let mut current = textures[0];
    let mut batch_start: usize = 0;
    let mut i: usize = 0;
    while i < n
        invariant
            n == tex.len() && tex == textures@ && max == max_batch_size,
            n > 0,
            batch_start <= i <= n,
            batch_start < n,
            batch_start < i || i == 0,
            current == tex[batch_start as int],
            forall|j: int| batch_start <= j < i ==> #[trigger] tex[j] == current,
            i - batch_start <= 1 || i - batch_start <= max,
            batches_up_to(tex, max, ranges@, batch_start as int),
        decreases n - i,
    {
        let t = textures[i];
        let new_batch = t != current || i - batch_start >= max_batch_size;
        if new_batch && i > batch_start {
            proof {
                lemma_close_batch(tex, max, ranges@, current, batch_start, i);
            }
            ranges.push((current, batch_start, i));
            current = t;
            batch_start = i;
        }
        i = i + 1;
    }
    proof {
        lemma_close_batch(tex, max, ranges@, current, batch_start, n);
    }
    ranges.push((current, batch_start, n));
    ranges
}


/// The batch entry for the sprites `[start, end)` of one texture: their
/// quads take four vertices each, appended in sprite order, so the batch
/// starts at vertex `4 * start` and holds `4 * (end - start)` vertices. The
/// GPU texture is filled in once the asset is resolved.
pub fn batch_entry(texture: AssetHandle, start: usize, end: usize) -> (r: SpriteBatchEntry)
    requires
        start <= end,
        4 * end <= usize::MAX,
    ensures
        r == (SpriteBatchEntry {
            texture_handle: texture,
            gpu_texture: None,
            vertex_start: (4 * start) as usize,
            vertex_count: (4 * (end - start)) as usize,
        }),
{
    SpriteBatchEntry { texture_handle: texture, gpu_texture: None, vertex_start: 4 * start, vertex_count: 4 * (end - start) }
}

/// The indexed draw call of a batch: `(index_count, index_start)` into the
/// shared quad index buffer, six indices per quad. The count is passed to
/// the backend as `u32` and truncates like a cast.
pub fn batch_draw_range(entry: &SpriteBatchEntry) -> (r: (u32, usize))
    requires
        (entry.vertex_count / 4) * 6 <= usize::MAX,
        (entry.vertex_start / 4) * 6 <= usize::MAX,
    ensures
        r.0 == ((entry.vertex_count / 4) * 6) as u32,
        r.1 == (entry.vertex_start / 4) * 6,
{
    let sprite_count = entry.vertex_count / 4;
    let index_start = (entry.vertex_start / 4) * 6;
    let index_count = sprite_count * 6;
    (index_count as u32, index_start)
}

/// The six indices of quad `q` in the shared index buffer: two
/// counter-clockwise triangles over its four vertices. The first vertex
/// index is `4 * q` cast to `u32`, which wraps past `u32::MAX`.
pub open spec fn quad_index(q: int, k: int) -> int {
    let base = (4 * q) % 0x1_0000_0000;
    if k == 0 {
        base
    } else if k == 1 {
        base + 1
    } else if k == 2 {
        base + 2
    } else if k == 3 {
        base + 2
    } else if k == 4 {
        base + 3
    } else {
        base
    }
}

/// The shared index buffer for `quad_count` quads.
pub fn quad_indices(quad_count: usize) -> (r: Vec<u32>)
    requires
        6 * quad_count <= usize::MAX,
    ensures
        r@.len() == 6 * quad_count,
        forall|q: int, k: int| 0 <= q < quad_count && 0 <= k < 6 ==> #[trigger] r@[6 * q + k] == quad_index(q, k),
{
    let mut indices: Vec<u32> = Vec::new();
    let mut i: usize = 0;
    while i < quad_count
        invariant
            i <= quad_count,
            6 * quad_count <= usize::MAX,
            indices@.len() == 6 * i,
            forall|q: int, k: int| 0 <= q < i && 0 <= k < 6 ==> #[trigger] indices@[6 * q + k] == quad_index(q, k),
        decreases quad_count - i,
    {
        let four_i: u64 = (i as u64) * 4;
        let base = four_i as u32;
        proof {
            assert(base == four_i % 0x1_0000_0000 && base <= 0xffff_fffc) by (bit_vector)
                requires
                    base == four_i as u32,
                    four_i % 4 == 0,
            ;
        }
        let ghost prev = indices@;
        indices.push(base);
        indices.push(base + 1);
        indices.push(base + 2);
        indices.push(base + 2);
        indices.push(base + 3);
        indices.push(base);
        proof {
            assert forall|q: int, k: int| 0 <= q < i + 1 && 0 <= k < 6 implies #[trigger] indices@[6 * q + k] == quad_index(q, k) by {
                if q < i {
                    assert(6 * q + k < 6 * i) by (nonlinear_arith)
                        requires
                            q < i,
                            k < 6,
                    ;
                    assert(indices@[6 * q + k] == prev[6 * q + k]);
                }
            }
        }
        i = i + 1;
    }
    indices
}

/// The vertex buffer must be (re)created: there is none yet, or the
/// vertices of this frame exceed its capacity of four vertices per sprite.
pub fn vertex_buffer_needs_growth(has_buffer: bool, vertex_count: usize, capacity: usize) -> (r: bool)
    requires
        4 * capacity <= usize::MAX,
    ensures
        r == (!has_buffer || vertex_count > 4 * capacity),
{
    !has_buffer || vertex_count > capacity * 4
}

/// The sprite capacity of a recreated vertex buffer: twice the sprites the
/// vertices need (rounded up), but at least the initial capacity, when
/// they exceed the current capacity; otherwise the initial capacity.
pub fn grown_vertex_capacity(vertex_count: usize, capacity: usize, initial_capacity: usize) -> (r: usize)
    requires
        2 * ((vertex_count + 3) / 4) <= usize::MAX,
    ensures
        r == (if (vertex_count + 3) / 4 > capacity {
            if 2 * ((vertex_count + 3) / 4) >= initial_capacity { 2 * ((vertex_count + 3) / 4) } else { initial_capacity as int }
        } else {
            initial_capacity as int
        }),
{
    let required = vertex_count / 4 + if vertex_count % 4 == 0 { 0 } else { 1 };
    assert(required == (vertex_count + 3) / 4);
    if required > capacity {
        let doubled = required * 2;
        if doubled >= initial_capacity { doubled } else { initial_capacity }
    } else {
        initial_capacity
    }
}


/// CPU-side state of the sprite batch renderer for the current frame: the
/// sprites gathered (by texture, in draw order), the batches formed from
/// them, the vertex buffer capacity and the frame counter.
pub struct SpriteBatch {
    config: SpriteBatchConfig,
    sprites: Vec<AssetHandle>,
    batches: Vec<SpriteBatchEntry>,
    vertex_count: usize,
    vertex_capacity: usize,
    frame_count: u64,
}

impl SpriteBatch {
    /// The configuration.
    pub closed spec fn spec_config(&self) -> SpriteBatchConfig {
        self.config
    }

    /// Textures of the sprites gathered this frame, in draw order.
    pub closed spec fn spec_sprites(&self) -> Seq<AssetHandle> {
        self.sprites@
    }

    /// Batches prepared this frame.
    pub closed spec fn spec_batches(&self) -> Seq<SpriteBatchEntry> {
        self.batches@
    }

    /// Vertices generated this frame.
    pub closed spec fn spec_vertex_count(&self) -> nat {
        self.vertex_count as nat
    }

    /// Frames begun so far.
    pub closed spec fn spec_frame_count(&self) -> u64 {
        self.frame_count
    }

    /// Creates a new sprite batch with no sprites, no batches and frame
    /// count 0.
    pub fn new(config: SpriteBatchConfig) -> (r: Self)
        ensures
            r.spec_config() == config,
            r.spec_sprites() == Seq::<AssetHandle>::empty(),
            r.spec_batches() == Seq::<SpriteBatchEntry>::empty(),
            r.spec_vertex_count() == 0,
            r.spec_frame_count() == 0,
    {
        SpriteBatch { config, sprites: Vec::new(), batches: Vec::new(), vertex_count: 0, vertex_capacity: 0, frame_count: 0 }
    }

    /// Begins a new frame: the sprites, vertices and batches of the
    /// previous frame are dropped and the frame count goes up by one.
    pub fn begin(&mut self)
        requires
            old(self).spec_frame_count() < u64::MAX,
        ensures
            final(self).spec_config() == old(self).spec_config(),
            final(self).spec_sprites() == Seq::<AssetHandle>::empty(),
            final(self).spec_batches() == Seq::<SpriteBatchEntry>::empty(),
            final(self).spec_vertex_count() == 0,
            final(self).spec_frame_count() == old(self).spec_frame_count() + 1,
    {
        self.sprites.clear();
        self.batches.clear();
        self.vertex_count = 0;
        self.frame_count = self.frame_count + 1;
    }

    /// Ends the current frame; batches are flushed as they are drawn, so
    /// nothing is left to do.
    pub fn end(&mut self) -> (r: Result<(), ()>)
        ensures
            r is Ok,
            *final(self) == *old(self),
    {
        Ok(())
    }

    /// Gather one sprite, drawn with `texture`, at the end of the frame's
    /// draw order.
    pub fn push_sprite(&mut self, texture: AssetHandle)
        ensures
            final(self).spec_config() == old(self).spec_config(),
            final(self).spec_sprites() == old(self).spec_sprites().push(texture),
            final(self).spec_batches() == old(self).spec_batches(),
            final(self).spec_vertex_count() == old(self).spec_vertex_count(),
            final(self).spec_frame_count() == old(self).spec_frame_count(),
    {
        self.sprites.push(texture);
    }

    /// Form this frame's batches from the gathered sprites (see
    /// [`batch_ranges`]), appending one entry per batch whose vertices
    /// follow those already generated, four per sprite.
    pub fn generate_batches(&mut self)
        requires
            old(self).spec_vertex_count() + 4 * old(self).spec_sprites().len() <= usize::MAX,
        ensures
            final(self).spec_config() == old(self).spec_config(),
            final(self).spec_sprites() == old(self).spec_sprites(),
            final(self).spec_frame_count() == old(self).spec_frame_count(),
            final(self).spec_vertex_count() == old(self).spec_vertex_count() + 4 * old(self).spec_sprites().len(),
            exists|b: Seq<(AssetHandle, usize, usize)>| {
                &&& sprite_batches(old(self).spec_sprites(), old(self).spec_config().max_batch_size as int, b)
                &&& final(self).spec_batches().len() == old(self).spec_batches().len() + b.len()
                &&& final(self).spec_batches().subrange(0, old(self).spec_batches().len() as int) == old(self).spec_batches()
                &&& forall|k: int| 0 <= k < b.len() ==> #[trigger] final(self).spec_batches()[old(self).spec_batches().len() + k] == (SpriteBatchEntry {
                    texture_handle: b[k].0,
                    gpu_texture: None,
                    vertex_start: (old(self).spec_vertex_count() + 4 * b[k].1) as usize,
                    vertex_count: (4 * (b[k].2 - b[k].1)) as usize,
                })
            },
    {
        let ranges = batch_ranges(&self.sprites, self.config.max_batch_size);
        let ghost b = ranges@;
        let ghost n0 = self.batches@.len();
        let ghost v0 = self.vertex_count as int;
        let ghost batches0 = self.batches@;
        let n = self.sprites.len();
        let mut k: usize = 0;
        while k < ranges.len()
            invariant
                b == ranges@,
                sprite_batches(self.sprites@, self.config.max_batch_size as int, b),
                n == self.sprites@.len(),
                v0 + 4 * n <= usize::MAX,
                self.sprites@ == old(self).sprites@,
                self.config == old(self).config,
                self.frame_count == old(self).frame_count,
                self.vertex_count == old(self).vertex_count,
                v0 == self.vertex_count,
                k <= b.len(),
                self.batches@.len() == n0 + k,
                self.batches@.subrange(0, n0 as int) == batches0,
                forall|kk: int| 0 <= kk < k ==> #[trigger] self.batches@[n0 + kk] == (SpriteBatchEntry {
                    texture_handle: b[kk].0,
                    gpu_texture: None,
                    vertex_start: (v0 + 4 * b[kk].1) as usize,
                    vertex_count: (4 * (b[kk].2 - b[kk].1)) as usize,
                }),
            decreases b.len() - k,
        {
            let (texture, start, end) = ranges[k];
            proof {
                assert(batch_ok(self.sprites@, self.config.max_batch_size as int, b[k as int]));
                lemma_batch_ends_within(self.sprites@, self.config.max_batch_size as int, b, k as int);
            }
            let entry = SpriteBatchEntry {
                texture_handle: texture,
                gpu_texture: None,
                vertex_start: self.vertex_count + 4 * start,
                vertex_count: 4 * (end - start),
            };
            let ghost prev = self.batches@;
            self.batches.push(entry);
            proof {
                assert forall|kk: int| 0 <= kk < k + 1 implies #[trigger] self.batches@[n0 + kk] == (SpriteBatchEntry {
                    texture_handle: b[kk].0,
                    gpu_texture: None,
                    vertex_start: (v0 + 4 * b[kk].1) as usize,
                    vertex_count: (4 * (b[kk].2 - b[kk].1)) as usize,
                }) by {
                    if kk < k {
                        assert(self.batches@[n0 + kk] == prev[n0 + kk]);
                    }
                }
                assert(self.batches@.subrange(0, n0 as int) =~= batches0) by {
                    assert forall|j: int| 0 <= j < n0 implies self.batches@[j] == batches0[j] by {
                        assert(self.batches@[j] == prev[j]);
                        assert(prev.subrange(0, n0 as int)[j] == prev[j]);
                    }
                }
            }
            k = k + 1;
        }
        self.vertex_count = self.vertex_count + 4 * n;
        proof {
            assert(sprite_batches(old(self).spec_sprites(), old(self).spec_config().max_batch_size as int, b));
            assert(self.spec_batches().subrange(0, old(self).spec_batches().len() as int) == old(self).spec_batches());
            assert(forall|k: int| 0 <= k < b.len() ==> #[trigger] self.spec_batches()[old(self).spec_batches().len() + k] == (SpriteBatchEntry {
                texture_handle: b[k].0,
                gpu_texture: None,
                vertex_start: (old(self).spec_vertex_count() + 4 * b[k].1) as usize,
                vertex_count: (4 * (b[k].2 - b[k].1)) as usize,
            }));
        }
    }

    /// Record the GPU texture resolved for the batch at `index`. Returns
    /// `false`, changing nothing, when there is no such batch.
    pub fn set_batch_texture(&mut self, index: usize, texture: TextureHandle) -> (r: bool)
        ensures
            r == (index < old(self).spec_batches().len()),
            r ==> final(self).spec_batches() == old(self).spec_batches().update(
                index as int,
                (SpriteBatchEntry { gpu_texture: Some(texture), ..old(self).spec_batches()[index as int] }),
            ),
            !r ==> final(self).spec_batches() == old(self).spec_batches(),
            final(self).spec_config() == old(self).spec_config(),
            final(self).spec_sprites() == old(self).spec_sprites(),
            final(self).spec_vertex_count() == old(self).spec_vertex_count(),
            final(self).spec_frame_count() == old(self).spec_frame_count(),
    {
        if index < self.batches.len() {
            let mut entry = self.batches[index];
            entry.gpu_texture = Some(texture);
            self.batches.set(index, entry);
            true
        } else {
            false
        }
    }

    /// The batch at `index`, if there is one.
    pub fn batch(&self, index: usize) -> (r: Option<SpriteBatchEntry>)
        ensures
            r == (if index < self.spec_batches().len() { Some(self.spec_batches()[index as int]) } else { None }),
    {
        if index < self.batches.len() {
            Some(self.batches[index])
        } else {
            None
        }
    }

    /// Returns the number of sprites gathered this frame.
    pub fn sprite_count(&self) -> (r: usize)
        ensures
            r == self.spec_sprites().len(),
    {
        self.sprites.len()
    }

    /// Returns the number of batches prepared this frame.
    pub fn batch_count(&self) -> (r: usize)
        ensures
            r == self.spec_batches().len(),
    {
        self.batches.len()
    }

    /// Returns the current frame number.
    pub fn frame_count(&self) -> (r: u64)
        ensures
            r == self.spec_frame_count(),
    {
        self.frame_count
    }
}

/// Every batch of a split ends within the sprites.
proof fn lemma_batch_ends_within(tex: Seq<AssetHandle>, max: int, b: Seq<(AssetHandle, usize, usize)>, k: int)
    requires
        sprite_batches(tex, max, b),
        0 <= k < b.len(),
    ensures
        b[k].2 <= tex.len(),
        b[k].1 < b[k].2,
    decreases b.len() - k,
{
    assert(batch_ok(tex, max, b[k]));
    if k < b.len() - 1 {
        lemma_batch_ends_within(tex, max, b, k + 1);
        assert(b[k].2 == b[k + 1].1);
    }
}


// ---------------------------------------------------------------------------
// Laws
// ---------------------------------------------------------------------------

/// Batches start where the previous one ended, so a later batch starts no
/// earlier than an earlier one ends.
proof fn lemma_batches_ordered(tex: Seq<AssetHandle>, max: int, b: Seq<(AssetHandle, usize, usize)>, j: int, k: int)
    requires
        sprite_batches(tex, max, b),
        0 <= j < k < b.len(),
    ensures
        b[j].2 <= b[k].1,
    decreases k - j,
{
    assert(b[j].2 == b[j + 1].1);
    if j + 1 < k {
        assert(batch_ok(tex, max, b[j + 1]));
        lemma_batches_ordered(tex, max, b, j + 1, k);
    }
}

/// Every sprite is drawn in exactly one batch, and that batch uses the
/// sprite's texture.
pub proof fn law_each_sprite_in_one_batch(tex: Seq<AssetHandle>, max: int, b: Seq<(AssetHandle, usize, usize)>, i: int)
    requires
        sprite_batches(tex, max, b),
        0 <= i < tex.len(),
    ensures
        exists|k: int| #![trigger b[k]] 0 <= k < b.len() && b[k].1 <= i < b[k].2 && b[k].0 == tex[i],
        forall|j: int, k: int| #![trigger b[j], b[k]] 0 <= j < b.len() && 0 <= k < b.len() && b[j].1 <= i < b[j].2 && b[k].1 <= i < b[k].2 ==> j == k,
{
    lemma_find_batch(tex, max, b, i, 0);
    assert forall|j: int, k: int| #![trigger b[j], b[k]] 0 <= j < b.len() && 0 <= k < b.len() && b[j].1 <= i < b[j].2 && b[k].1 <= i < b[k].2 implies j == k by {
        if j < k {
            lemma_batches_ordered(tex, max, b, j, k);
        } else if k < j {
            lemma_batches_ordered(tex, max, b, k, j);
        }
    }
}

/// Searching the batches from `from` on finds the one holding sprite `i`.
proof fn lemma_find_batch(tex: Seq<AssetHandle>, max: int, b: Seq<(AssetHandle, usize, usize)>, i: int, from: int)
    requires
        sprite_batches(tex, max, b),
        0 <= i < tex.len(),
        0 <= from < b.len(),
        b[from].1 <= i,
    ensures
        exists|k: int| #![trigger b[k]] 0 <= k < b.len() && b[k].1 <= i < b[k].2 && b[k].0 == tex[i],
    decreases b.len() - from,
{
    assert(batch_ok(tex, max, b[from]));
    if i < b[from].2 {
        assert(tex[i] == b[from].0);
    } else if from + 1 < b.len() {
        assert(b[from].2 == b[from + 1].1);
        lemma_find_batch(tex, max, b, i, from + 1);
    } else {
        assert(b.last().2 == tex.len());
    }
}

/// No batch holds more sprites than the limit (or one sprite when the
/// limit is zero).
pub proof fn law_batches_respect_limit(tex: Seq<AssetHandle>, max: int, b: Seq<(AssetHandle, usize, usize)>, k: int)
    requires
        sprite_batches(tex, max, b),
        0 <= k < b.len(),
    ensures
        0 < b[k].2 - b[k].1 <= (if max >= 1 { max } else { 1 }),
{
    assert(batch_ok(tex, max, b[k]));
}

} // verus!
