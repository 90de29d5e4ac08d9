//! Renderer configuration values, enumerations and per-frame statistics.
//!
//! Every optimization is configurable and opt-out; the defaults suit the
//! common case.
use vstd::prelude::*;

verus! {

/// Draw call batching and instancing configuration.
#[derive(Debug, Clone, Copy, PartialEq, Eq, Structural)]
pub struct BatchingConfig {
    /// Whether static object batching is enabled (default: `true`).
    pub static_batching_enabled: bool,
    /// Whether GPU instancing is used for same-mesh objects (default: `true`).
    pub instancing_enabled: bool,
    /// Whether objects are sorted by material before drawing (default: `true`).
    pub material_sorting_enabled: bool,
    /// Maximum vertices in a single static batch (default: `50_000`).
    pub max_static_batch_vertices: usize,
    /// Minimum instances required to use instanced rendering (default: `2`).
    pub min_instances_for_batching: usize,
}

impl Default for BatchingConfig {
    fn default() -> (r: Self)
        ensures
            r == (BatchingConfig {
                static_batching_enabled: true,
                instancing_enabled: true,
                material_sorting_enabled: true,
                max_static_batch_vertices: 50_000,
                min_instances_for_batching: 2,
            }),
    {
        BatchingConfig {
            static_batching_enabled: true,
            instancing_enabled: true,
            material_sorting_enabled: true,
            max_static_batch_vertices: 50_000,
            min_instances_for_batching: 2,
        }
    }
}

/// Skinning execution mode.
#[derive(Debug, Clone, Copy, PartialEq, Eq, Structural)]
pub enum SkinningMode {
    /// CPU vertex deformation with per-frame buffer re-upload.
    Cpu,
    /// GPU vertex shader skinning via storage buffer bone matrices.
    Gpu,
}

/// The shading model of a material.
#[derive(Debug, Clone, Copy, PartialEq, Eq, Structural)]
pub enum MaterialType {
    /// Phong shading model.
    Phong,
    /// Physically based rendering model.
    Pbr,
    /// Unlit / flat shading.
    Unlit,
}

impl MaterialType {
    /// The number the shaders use for this model: `Phong` 0, `Pbr` 1,
    /// `Unlit` 2.
    pub fn code(self) -> (r: i32)
        ensures
            r == match self {
                MaterialType::Phong => 0int,
                MaterialType::Pbr => 1int,
                MaterialType::Unlit => 2int,
            },
    {
        match self {
            MaterialType::Phong => 0,
            MaterialType::Pbr => 1,
            MaterialType::Unlit => 2,
        }
    }
}

/// Type of 3D primitive.
#[derive(Debug, Clone, Copy, PartialEq, Eq, Structural)]
pub enum PrimitiveType {
    /// A cube primitive.
    Cube,
    /// A sphere primitive.
    Sphere,
    /// A plane primitive.
    Plane,
    /// A cylinder primitive.
    Cylinder,
}

impl PrimitiveType {
    /// The number this primitive is passed as: `Cube` 0, `Sphere` 1,
    /// `Plane` 2, `Cylinder` 3.
    pub fn code(self) -> (r: i32)
        ensures
            r == match self {
                PrimitiveType::Cube => 0int,
                PrimitiveType::Sphere => 1int,
                PrimitiveType::Plane => 2int,
                PrimitiveType::Cylinder => 3int,
            },
    {
        match self {
            PrimitiveType::Cube => 0,
            PrimitiveType::Sphere => 1,
            PrimitiveType::Plane => 2,
            PrimitiveType::Cylinder => 3,
        }
    }
}

/// Type of light source.
#[derive(Debug, Clone, Copy, PartialEq, Eq, Structural)]
pub enum LightType {
    /// Point light (emits in all directions).
    Point,
    /// Directional light (parallel rays).
    Directional,
    /// Spot light (cone of light).
    Spot,
}

impl LightType {
    /// The number the shaders read as `light_type`: `Point` 0,
    /// `Directional` 1, `Spot` 2.
    pub fn code(self) -> (r: i32)
        ensures
            r == match self {
                LightType::Point => 0int,
                LightType::Directional => 1int,
                LightType::Spot => 2int,
            },
    {
        match self {
            LightType::Point => 0,
            LightType::Directional => 1,
            LightType::Spot => 2,
        }
    }
}

/// Grid render mode.
#[derive(Debug, Clone, Copy, PartialEq, Eq, Structural)]
pub enum GridRenderMode {
    /// Blend grid with scene.
    Blend,
    /// Overlap grid on scene.
    Overlap,
}

impl GridRenderMode {
    /// The number this mode is passed as: `Blend` 0, `Overlap` 1.
    pub fn code(self) -> (r: i32)
        ensures
            r == match self {
                GridRenderMode::Blend => 0int,
                GridRenderMode::Overlap => 1int,
            },
    {
        match self {
            GridRenderMode::Blend => 0,
            GridRenderMode::Overlap => 1,
        }
    }
}

/// Last-frame renderer statistics exposed for tests and debugging.
#[derive(Debug, Clone, Copy, PartialEq, Eq, Structural)]
pub struct Renderer3DStats {
    /// Total draw calls recorded by the renderer this frame.
    pub draw_calls: u32,
    /// Instanced draw calls recorded this frame.
    pub instanced_draw_calls: u32,
    /// Particle instanced draw calls recorded this frame.
    pub particle_draw_calls: u32,
    /// Number of instance records submitted this frame.
    pub active_instances: u32,
    /// Number of live particles submitted this frame.
    pub active_particles: u32,
    /// Total objects in the scene (before culling).
    pub total_objects: u32,
    /// Objects that passed frustum culling and were drawn.
    pub visible_objects: u32,
    /// Objects culled by frustum test.
    pub culled_objects: u32,
    /// Number of material/shader state switches this frame.
    pub material_switches: u32,
    /// Number of texture bind operations this frame.
    pub texture_binds: u32,
    /// Number of skinned mesh instances rendered this frame.
    pub skinned_instances: u32,
    /// Number of bone matrix uploads this frame.
    pub bone_matrix_uploads: u32,
    /// Number of animation evaluations this frame.
    pub animation_evaluations: u32,
    /// Number of animation evaluations saved (cache hits / LOD skips) this frame.
    pub animation_evaluations_saved: u32,
    /// Objects that survived the spatial-index pre-filter and were fed into
    /// the frustum sphere test this frame; equals `total_objects` when the
    /// spatial index is disabled.
    pub spatial_index_candidates: u32,
    /// Number of grid cells visited by the spatial index this frame.
    pub spatial_index_cells_visited: u32,
}

impl Default for Renderer3DStats {
    fn default() -> (r: Self)
        ensures
            r == (Renderer3DStats {
                draw_calls: 0,
                instanced_draw_calls: 0,
                particle_draw_calls: 0,
                active_instances: 0,
                active_particles: 0,
                total_objects: 0,
                visible_objects: 0,
                culled_objects: 0,
                material_switches: 0,
                texture_binds: 0,
                skinned_instances: 0,
                bone_matrix_uploads: 0,
                animation_evaluations: 0,
                animation_evaluations_saved: 0,
                spatial_index_candidates: 0,
                spatial_index_cells_visited: 0,
            }),
    {
        Renderer3DStats {
            draw_calls: 0,
            instanced_draw_calls: 0,
            particle_draw_calls: 0,
            active_instances: 0,
            active_particles: 0,
            total_objects: 0,
            visible_objects: 0,
            culled_objects: 0,
            material_switches: 0,
            texture_binds: 0,
            skinned_instances: 0,
            bone_matrix_uploads: 0,
            animation_evaluations: 0,
            animation_evaluations_saved: 0,
            spatial_index_candidates: 0,
            spatial_index_cells_visited: 0,
        }
    }
}

/// Animation LOD half-rate rule: a model beyond the half-rate distance is
/// evaluated only on frames where `frame_counter + player_id` (wrapping) is
/// even, so models with different IDs skip on different frames.
pub fn animation_lod_half_rate_skip(frame_counter: u64, player_id: u32) -> (skip: bool)
    ensures
        skip <==> (frame_counter + player_id) % 2 == 1,
{
    let sum = frame_counter.wrapping_add(player_id as u64);
    proof {
        assert((frame_counter + player_id) % 2 == sum % 2) by {
            if frame_counter + player_id > u64::MAX {
                assert(sum == frame_counter + player_id - 0x1_0000_0000_0000_0000);
            }
        }
    }
    sum % 2 != 0
}

/// Whether the animation LOD rule skips a model's update this frame, given
/// whether the model lies beyond the freeze distance and beyond the
/// half-rate distance. Beyond the freeze distance it never updates; beyond
/// the half-rate distance it follows [`animation_lod_half_rate_skip`].
pub fn animation_lod_skips_update(
    lod_enabled: bool,
    beyond_skip_distance: bool,
    beyond_half_rate_distance: bool,
    frame_counter: u64,
    player_id: u32,
) -> (skip: bool)
    ensures
        skip <==> lod_enabled && (beyond_skip_distance || (beyond_half_rate_distance && (frame_counter + player_id) % 2 == 1)),
{
    if !lod_enabled {
        return false;
    }
    if beyond_skip_distance {
        return true;
    }
    beyond_half_rate_distance && animation_lod_half_rate_skip(frame_counter, player_id)
}


/// The MSAA sample count the renderer keeps for a requested count: 2, 4
/// and 8 are supported, anything else falls back to 1 (no multisampling).
pub fn supported_msaa_samples(samples: u32) -> (r: u32)
    ensures
        r == (if samples == 2 || samples == 4 || samples == 8 { samples } else { 1 }),
{
    match samples {
        2 | 4 | 8 => samples,
        _ => 1,
    }
}

/// A window or viewport extent as the renderer stores it: at least 1.
pub fn clamp_extent(extent: u32) -> (r: u32)
    ensures
        r == (if extent >= 1 { extent } else { 1 }),
{
    if extent >= 1 { extent } else { 1 }
}

} // verus!
