//! Cached uniform locations of the renderer's shaders.
//!
//! Each shader's uniforms are looked up by name once, after linking; a
//! uniform the driver optimized out (or that is missing) is recorded as the
//! inactive location `-1`, which uploads ignore.
use vstd::prelude::*;
use crate::bone_channels::{decimal, push_decimal};

verus! {

/// Maximum number of lights the shaders support.
pub const MAX_LIGHTS: usize = 8;

/// Maximum number of bones of a skinned mesh.
pub const MAX_BONES: usize = 128;

/// A uniform lookup: the location of a uniform of the shader being
/// resolved, by name, `None` when it has no active uniform of that name.
/// It is the render backend's lookup for that shader.
pub open spec fn lookup_ready<F: Fn(&str) -> Option<i32>>(lookup: F) -> bool {
    forall|name: &str| #[trigger] call_requires(lookup, (name,))
}

/// The location recorded for a lookup: the location found, or `-1` for an
/// inactive uniform.
pub open spec fn or_inactive(found: Option<i32>) -> i32 {
    match found {
        Some(l) => l,
        None => -1i32,
    }
}

/// `l` was recorded for uniform `name`: it is what a lookup of a string
/// holding `name` returned, or `-1` where that found nothing.
pub open spec fn resolved_as<F: Fn(&str) -> Option<i32>>(lookup: F, name: Seq<char>, l: i32) -> bool {
    exists|s: &str, o: Option<i32>| s@ == name && #[trigger] call_ensures(lookup, (s,), o) && l == or_inactive(o)
}

/// The location of uniform `name`, or `-1` when it is inactive.
pub fn uniform_location_or_inactive<F: Fn(&str) -> Option<i32>>(lookup: &F, name: &str) -> (r: i32)
    requires
        lookup_ready(*lookup),
    ensures
        resolved_as(*lookup, name@, r),
{
    let found = lookup(name);
    let r = match found {
        Some(location) => location,
        None => -1,
    };
    assert(call_ensures(*lookup, (name,), found) && r == or_inactive(found));
    r
}

/// Locations of the uniforms of one light slot.
#[derive(Debug, Clone, Copy, PartialEq, Eq, Structural)]
pub struct LightUniforms {
    /// `lights[i].light_type`.
    pub light_type: i32,
    /// `lights[i].position`.
    pub position: i32,
    /// `lights[i].direction`.
    pub direction: i32,
    /// `lights[i].color`.
    pub color: i32,
    /// `lights[i].intensity`.
    pub intensity: i32,
    /// `lights[i].range`.
    pub range: i32,
    /// `lights[i].spotAngle`.
    pub spot_angle: i32,
    /// `lights[i].enabled`.
    pub enabled: i32,
}

/// The name of field `field` of light slot `i`: `lights[{i}].{field}`.
pub open spec fn light_uniform_name(i: nat, field: Seq<char>) -> Seq<char> {
    "lights["@ + decimal(i) + "]."@ + field
}

/// The name `lights[{i}].{field}`.
fn make_light_uniform_name(i: usize, field: &str) -> (r: String)
    ensures
        r@ == light_uniform_name(i as nat, field@),
{
    let mut s = String::from_str("lights[");
    push_decimal(&mut s, i);
    s.append("].");
    s.append(field);
    proof {
        assert(s@ =~= light_uniform_name(i as nat, field@));
    }
    s
}

/// `l` holds the locations resolved for light slot `i`.
pub open spec fn light_resolved<F: Fn(&str) -> Option<i32>>(lookup: F, i: nat, l: LightUniforms) -> bool {
    &&& resolved_as(lookup, light_uniform_name(i, "light_type"@), l.light_type)
    &&& resolved_as(lookup, light_uniform_name(i, "position"@), l.position)
    &&& resolved_as(lookup, light_uniform_name(i, "direction"@), l.direction)
    &&& resolved_as(lookup, light_uniform_name(i, "color"@), l.color)
    &&& resolved_as(lookup, light_uniform_name(i, "intensity"@), l.intensity)
    &&& resolved_as(lookup, light_uniform_name(i, "range"@), l.range)
    &&& resolved_as(lookup, light_uniform_name(i, "spotAngle"@), l.spot_angle)
    &&& resolved_as(lookup, light_uniform_name(i, "enabled"@), l.enabled)
}

/// Resolve the uniforms of light slot `i`.
fn resolve_light_uniforms<F: Fn(&str) -> Option<i32>>(lookup: &F, i: usize) -> (r: LightUniforms)
    requires
        lookup_ready(*lookup),
    ensures
        light_resolved(*lookup, i as nat, r),
{
    LightUniforms {
        light_type: uniform_location_or_inactive(lookup, make_light_uniform_name(i, "light_type").as_str()),
        position: uniform_location_or_inactive(lookup, make_light_uniform_name(i, "position").as_str()),
        direction: uniform_location_or_inactive(lookup, make_light_uniform_name(i, "direction").as_str()),
        color: uniform_location_or_inactive(lookup, make_light_uniform_name(i, "color").as_str()),
        intensity: uniform_location_or_inactive(lookup, make_light_uniform_name(i, "intensity").as_str()),
        range: uniform_location_or_inactive(lookup, make_light_uniform_name(i, "range").as_str()),
        spot_angle: uniform_location_or_inactive(lookup, make_light_uniform_name(i, "spotAngle").as_str()),
        enabled: uniform_location_or_inactive(lookup, make_light_uniform_name(i, "enabled").as_str()),
    }
}


/// Locations of the uniforms of the main (lit) shader.
#[derive(Debug, Clone)]
pub struct MainUniforms {
    /// `model`.
    pub model: i32,
    /// `view`.
    pub view: i32,
    /// `projection`.
    pub projection: i32,
    /// `lightSpaceMatrix`.
    pub light_space_matrix: i32,
    /// `viewPos`.
    pub view_pos: i32,
    /// `numLights`.
    pub num_lights: i32,
    /// `useTexture`.
    pub use_texture: i32,
    /// `objectColor`.
    pub object_color: i32,
    /// `texture1`.
    pub texture1: i32,
    /// `shadowMap`.
    pub shadow_map: i32,
    /// `shadowsEnabled`.
    pub shadows_enabled: i32,
    /// `shadowBias`.
    pub shadow_bias: i32,
    /// `shadowStrength`.
    pub shadow_strength: i32,
    /// `shadowTexelSize`.
    pub shadow_texel_size: i32,
    /// `fogEnabled`.
    pub fog_enabled: i32,
    /// `fogColor`.
    pub fog_color: i32,
    /// `fogDensity`.
    pub fog_density: i32,
    /// `fogMode`.
    pub fog_mode: i32,
    /// `fogStart`.
    pub fog_start: i32,
    /// `fogEnd`.
    pub fog_end: i32,
    /// The light slots, `lights[0]` to `lights[MAX_LIGHTS - 1]`.
    pub lights: Vec<LightUniforms>,
    /// `primaryLightDir`.
    pub primary_light_dir: i32,
    /// `primaryLightColor`.
    pub primary_light_color: i32,
    /// `primaryLightIntensity`.
    pub primary_light_intensity: i32,
}

/// `r` holds the locations resolved for the main shader's uniforms.
pub open spec fn main_uniforms_resolved<F: Fn(&str) -> Option<i32>>(lookup: F, r: MainUniforms) -> bool {
    &&& resolved_as(lookup, "model"@, r.model)
    &&& resolved_as(lookup, "view"@, r.view)
    &&& resolved_as(lookup, "projection"@, r.projection)
    &&& resolved_as(lookup, "lightSpaceMatrix"@, r.light_space_matrix)
    &&& resolved_as(lookup, "viewPos"@, r.view_pos)
    &&& resolved_as(lookup, "numLights"@, r.num_lights)
    &&& resolved_as(lookup, "useTexture"@, r.use_texture)
    &&& resolved_as(lookup, "objectColor"@, r.object_color)
    &&& resolved_as(lookup, "texture1"@, r.texture1)
    &&& resolved_as(lookup, "shadowMap"@, r.shadow_map)
    &&& resolved_as(lookup, "shadowsEnabled"@, r.shadows_enabled)
    &&& resolved_as(lookup, "shadowBias"@, r.shadow_bias)
    &&& resolved_as(lookup, "shadowStrength"@, r.shadow_strength)
    &&& resolved_as(lookup, "shadowTexelSize"@, r.shadow_texel_size)
    &&& resolved_as(lookup, "fogEnabled"@, r.fog_enabled)
    &&& resolved_as(lookup, "fogColor"@, r.fog_color)
    &&& resolved_as(lookup, "fogDensity"@, r.fog_density)
    &&& resolved_as(lookup, "fogMode"@, r.fog_mode)
    &&& resolved_as(lookup, "fogStart"@, r.fog_start)
    &&& resolved_as(lookup, "fogEnd"@, r.fog_end)
    &&& resolved_as(lookup, "primaryLightDir"@, r.primary_light_dir)
    &&& resolved_as(lookup, "primaryLightColor"@, r.primary_light_color)
    &&& resolved_as(lookup, "primaryLightIntensity"@, r.primary_light_intensity)
    &&& r.lights@.len() == MAX_LIGHTS
    &&& forall|i: int| 0 <= i < MAX_LIGHTS ==> light_resolved(lookup, i as nat, #[trigger] r.lights@[i])
}

/// Each field of resolved main-shader locations is the location of the
/// uniform its documentation names, and each light slot's fields those of
/// `lights[i].<field>`.
pub proof fn lemma_main_uniforms_by_name<F: Fn(&str) -> Option<i32>>(lookup: F, r: MainUniforms)
    requires
        main_uniforms_resolved(lookup, r),
    ensures
        resolved_as(lookup, "model"@, r.model),
        resolved_as(lookup, "view"@, r.view),
        resolved_as(lookup, "projection"@, r.projection),
        resolved_as(lookup, "lightSpaceMatrix"@, r.light_space_matrix),
        resolved_as(lookup, "viewPos"@, r.view_pos),
        resolved_as(lookup, "numLights"@, r.num_lights),
        resolved_as(lookup, "useTexture"@, r.use_texture),
        resolved_as(lookup, "objectColor"@, r.object_color),
        resolved_as(lookup, "texture1"@, r.texture1),
        resolved_as(lookup, "shadowMap"@, r.shadow_map),
        resolved_as(lookup, "shadowsEnabled"@, r.shadows_enabled),
        resolved_as(lookup, "shadowBias"@, r.shadow_bias),
        resolved_as(lookup, "shadowStrength"@, r.shadow_strength),
        resolved_as(lookup, "shadowTexelSize"@, r.shadow_texel_size),
        resolved_as(lookup, "fogEnabled"@, r.fog_enabled),
        resolved_as(lookup, "fogColor"@, r.fog_color),
        resolved_as(lookup, "fogDensity"@, r.fog_density),
        resolved_as(lookup, "fogMode"@, r.fog_mode),
        resolved_as(lookup, "fogStart"@, r.fog_start),
        resolved_as(lookup, "fogEnd"@, r.fog_end),
        resolved_as(lookup, "primaryLightDir"@, r.primary_light_dir),
        resolved_as(lookup, "primaryLightColor"@, r.primary_light_color),
        resolved_as(lookup, "primaryLightIntensity"@, r.primary_light_intensity),
        r.lights@.len() == MAX_LIGHTS,
        forall|i: int| 0 <= i < MAX_LIGHTS ==> resolved_as(lookup, light_uniform_name(i as nat, "light_type"@), #[trigger] r.lights@[i].light_type),
        forall|i: int| 0 <= i < MAX_LIGHTS ==> resolved_as(lookup, light_uniform_name(i as nat, "position"@), #[trigger] r.lights@[i].position),
        forall|i: int| 0 <= i < MAX_LIGHTS ==> resolved_as(lookup, light_uniform_name(i as nat, "direction"@), #[trigger] r.lights@[i].direction),
        forall|i: int| 0 <= i < MAX_LIGHTS ==> resolved_as(lookup, light_uniform_name(i as nat, "color"@), #[trigger] r.lights@[i].color),
        forall|i: int| 0 <= i < MAX_LIGHTS ==> resolved_as(lookup, light_uniform_name(i as nat, "intensity"@), #[trigger] r.lights@[i].intensity),
        forall|i: int| 0 <= i < MAX_LIGHTS ==> resolved_as(lookup, light_uniform_name(i as nat, "range"@), #[trigger] r.lights@[i].range),
        forall|i: int| 0 <= i < MAX_LIGHTS ==> resolved_as(lookup, light_uniform_name(i as nat, "spotAngle"@), #[trigger] r.lights@[i].spot_angle),
        forall|i: int| 0 <= i < MAX_LIGHTS ==> resolved_as(lookup, light_uniform_name(i as nat, "enabled"@), #[trigger] r.lights@[i].enabled),
{
    assert forall|i: int| 0 <= i < MAX_LIGHTS implies light_resolved(lookup, i as nat, #[trigger] r.lights@[i]) by {}
}

/// Resolve the uniform locations of the main shader.
pub fn resolve_main_uniforms<F: Fn(&str) -> Option<i32>>(lookup: &F) -> (r: MainUniforms)
    requires
        lookup_ready(*lookup),
    ensures
        main_uniforms_resolved(*lookup, r),
        resolved_as(*lookup, "model"@, r.model),
        resolved_as(*lookup, "view"@, r.view),
        resolved_as(*lookup, "projection"@, r.projection),
        resolved_as(*lookup, "lightSpaceMatrix"@, r.light_space_matrix),
        resolved_as(*lookup, "viewPos"@, r.view_pos),
        resolved_as(*lookup, "numLights"@, r.num_lights),
        resolved_as(*lookup, "useTexture"@, r.use_texture),
        resolved_as(*lookup, "objectColor"@, r.object_color),
        resolved_as(*lookup, "texture1"@, r.texture1),
        resolved_as(*lookup, "shadowMap"@, r.shadow_map),
        resolved_as(*lookup, "shadowsEnabled"@, r.shadows_enabled),
        resolved_as(*lookup, "shadowBias"@, r.shadow_bias),
        resolved_as(*lookup, "shadowStrength"@, r.shadow_strength),
        resolved_as(*lookup, "shadowTexelSize"@, r.shadow_texel_size),
        resolved_as(*lookup, "fogEnabled"@, r.fog_enabled),
        resolved_as(*lookup, "fogColor"@, r.fog_color),
        resolved_as(*lookup, "fogDensity"@, r.fog_density),
        resolved_as(*lookup, "fogMode"@, r.fog_mode),
        resolved_as(*lookup, "fogStart"@, r.fog_start),
        resolved_as(*lookup, "fogEnd"@, r.fog_end),
        resolved_as(*lookup, "primaryLightDir"@, r.primary_light_dir),
        resolved_as(*lookup, "primaryLightColor"@, r.primary_light_color),
        resolved_as(*lookup, "primaryLightIntensity"@, r.primary_light_intensity),
        r.lights@.len() == MAX_LIGHTS,
        forall|i: int| 0 <= i < MAX_LIGHTS ==> resolved_as(*lookup, light_uniform_name(i as nat, "light_type"@), #[trigger] r.lights@[i].light_type),
        forall|i: int| 0 <= i < MAX_LIGHTS ==> resolved_as(*lookup, light_uniform_name(i as nat, "position"@), #[trigger] r.lights@[i].position),
        forall|i: int| 0 <= i < MAX_LIGHTS ==> resolved_as(*lookup, light_uniform_name(i as nat, "direction"@), #[trigger] r.lights@[i].direction),
        forall|i: int| 0 <= i < MAX_LIGHTS ==> resolved_as(*lookup, light_uniform_name(i as nat, "color"@), #[trigger] r.lights@[i].color),
        forall|i: int| 0 <= i < MAX_LIGHTS ==> resolved_as(*lookup, light_uniform_name(i as nat, "intensity"@), #[trigger] r.lights@[i].intensity),
        forall|i: int| 0 <= i < MAX_LIGHTS ==> resolved_as(*lookup, light_uniform_name(i as nat, "range"@), #[trigger] r.lights@[i].range),
        forall|i: int| 0 <= i < MAX_LIGHTS ==> resolved_as(*lookup, light_uniform_name(i as nat, "spotAngle"@), #[trigger] r.lights@[i].spot_angle),
        forall|i: int| 0 <= i < MAX_LIGHTS ==> resolved_as(*lookup, light_uniform_name(i as nat, "enabled"@), #[trigger] r.lights@[i].enabled),
{
    let mut lights: Vec<LightUniforms> = Vec::new();
    let mut i: usize = 0;
    while i < MAX_LIGHTS
        invariant
            lookup_ready(*lookup),
            i <= MAX_LIGHTS,
            lights@.len() == i,
            forall|j: int| 0 <= j < i ==> light_resolved(*lookup, j as nat, #[trigger] lights@[j]),
        decreases MAX_LIGHTS - i,
    {
        lights.push(resolve_light_uniforms(lookup, i));
        i = i + 1;
    }
    MainUniforms {
        model: uniform_location_or_inactive(lookup, "model"),
        view: uniform_location_or_inactive(lookup, "view"),
        projection: uniform_location_or_inactive(lookup, "projection"),
        light_space_matrix: uniform_location_or_inactive(lookup, "lightSpaceMatrix"),
        view_pos: uniform_location_or_inactive(lookup, "viewPos"),
        num_lights: uniform_location_or_inactive(lookup, "numLights"),
        use_texture: uniform_location_or_inactive(lookup, "useTexture"),
        object_color: uniform_location_or_inactive(lookup, "objectColor"),
        texture1: uniform_location_or_inactive(lookup, "texture1"),
        shadow_map: uniform_location_or_inactive(lookup, "shadowMap"),
        shadows_enabled: uniform_location_or_inactive(lookup, "shadowsEnabled"),
        shadow_bias: uniform_location_or_inactive(lookup, "shadowBias"),
        shadow_strength: uniform_location_or_inactive(lookup, "shadowStrength"),
        shadow_texel_size: uniform_location_or_inactive(lookup, "shadowTexelSize"),
        fog_enabled: uniform_location_or_inactive(lookup, "fogEnabled"),
        fog_color: uniform_location_or_inactive(lookup, "fogColor"),
        fog_density: uniform_location_or_inactive(lookup, "fogDensity"),
        fog_mode: uniform_location_or_inactive(lookup, "fogMode"),
        fog_start: uniform_location_or_inactive(lookup, "fogStart"),
        fog_end: uniform_location_or_inactive(lookup, "fogEnd"),
        lights,
        primary_light_dir: uniform_location_or_inactive(lookup, "primaryLightDir"),
        primary_light_color: uniform_location_or_inactive(lookup, "primaryLightColor"),
        primary_light_intensity: uniform_location_or_inactive(lookup, "primaryLightIntensity"),
    }
}

/// Locations of the uniforms of the grid shader.
#[derive(Debug, Clone, Copy, PartialEq, Eq, Structural)]
pub struct GridUniforms {
    /// `view`.
    pub view: i32,
    /// `projection`.
    pub projection: i32,
    /// `viewPos`.
    pub view_pos: i32,
    /// `fogEnabled`.
    pub fog_enabled: i32,
    /// `fogColor`.
    pub fog_color: i32,
    /// `fogDensity`.
    pub fog_density: i32,
    /// `fogMode`.
    pub fog_mode: i32,
    /// `fogStart`.
    pub fog_start: i32,
    /// `fogEnd`.
    pub fog_end: i32,
    /// `alpha`.
    pub alpha: i32,
}

/// Resolve the uniform locations of the grid shader.
pub fn resolve_grid_uniforms<F: Fn(&str) -> Option<i32>>(lookup: &F) -> (r: GridUniforms)
    requires
        lookup_ready(*lookup),
    ensures
        resolved_as(*lookup, "view"@, r.view),
        resolved_as(*lookup, "projection"@, r.projection),
        resolved_as(*lookup, "viewPos"@, r.view_pos),
        resolved_as(*lookup, "fogEnabled"@, r.fog_enabled),
        resolved_as(*lookup, "fogColor"@, r.fog_color),
        resolved_as(*lookup, "fogDensity"@, r.fog_density),
        resolved_as(*lookup, "fogMode"@, r.fog_mode),
        resolved_as(*lookup, "fogStart"@, r.fog_start),
        resolved_as(*lookup, "fogEnd"@, r.fog_end),
        resolved_as(*lookup, "alpha"@, r.alpha),
{
    GridUniforms {
        view: uniform_location_or_inactive(lookup, "view"),
        projection: uniform_location_or_inactive(lookup, "projection"),
        view_pos: uniform_location_or_inactive(lookup, "viewPos"),
        fog_enabled: uniform_location_or_inactive(lookup, "fogEnabled"),
        fog_color: uniform_location_or_inactive(lookup, "fogColor"),
        fog_density: uniform_location_or_inactive(lookup, "fogDensity"),
        fog_mode: uniform_location_or_inactive(lookup, "fogMode"),
        fog_start: uniform_location_or_inactive(lookup, "fogStart"),
        fog_end: uniform_location_or_inactive(lookup, "fogEnd"),
        alpha: uniform_location_or_inactive(lookup, "alpha"),
    }
}

/// Location of the MVP matrix of the depth-only shadow shader.
#[derive(Debug, Clone, Copy, PartialEq, Eq, Structural)]
pub struct DepthOnlyUniforms {
    /// `mvp`.
    pub mvp: i32,
}

/// Resolve the uniform location of the depth-only shadow shader.
pub fn resolve_depth_only_uniforms<F: Fn(&str) -> Option<i32>>(lookup: &F) -> (r: DepthOnlyUniforms)
    requires
        lookup_ready(*lookup),
    ensures
        resolved_as(*lookup, "mvp"@, r.mvp),
{
    DepthOnlyUniforms { mvp: uniform_location_or_inactive(lookup, "mvp") }
}

/// Uniform locations of the instanced skinned shader: its main uniforms
/// (bone matrices come from a storage buffer).
#[derive(Debug, Clone)]
pub struct InstancedSkinnedUniforms {
    /// The scene uniforms.
    pub main: MainUniforms,
}

/// Resolve the uniform locations of the instanced skinned shader.
pub fn resolve_instanced_skinned_uniforms<F: Fn(&str) -> Option<i32>>(lookup: &F) -> (r: InstancedSkinnedUniforms)
    requires
        lookup_ready(*lookup),
    ensures
        main_uniforms_resolved(*lookup, r.main),
{
    InstancedSkinnedUniforms { main: resolve_main_uniforms(lookup) }
}

/// The name of bone matrix slot `i`: `boneMatrices[{i}]`.
pub open spec fn bone_matrix_uniform_name(i: nat) -> Seq<char> {
    "boneMatrices["@ + decimal(i) + "]"@
}

/// The name `boneMatrices[{i}]`.
fn make_bone_matrix_uniform_name(i: usize) -> (r: String)
    ensures
        r@ == bone_matrix_uniform_name(i as nat),
{
    let mut s = String::from_str("boneMatrices[");
    push_decimal(&mut s, i);
    s.append("]");
    proof {
        assert(s@ =~= bone_matrix_uniform_name(i as nat));
    }
    s
}

/// Uniform locations of the skinned mesh shader.
#[derive(Debug, Clone)]
pub struct SkinnedUniforms {
    /// The scene uniforms.
    pub main: MainUniforms,
    /// `boneMatrices[i]`, one per bone slot.
    pub bone_matrices: Vec<i32>,
    /// `boneOffset`.
    pub bone_offset: i32,
}

/// Resolve the uniform locations of the skinned mesh shader.
pub fn resolve_skinned_uniforms<F: Fn(&str) -> Option<i32>>(lookup: &F) -> (r: SkinnedUniforms)
    requires
        lookup_ready(*lookup),
    ensures
        main_uniforms_resolved(*lookup, r.main),
        r.bone_matrices@.len() == MAX_BONES,
        forall|i: int| 0 <= i < MAX_BONES ==> resolved_as(*lookup, bone_matrix_uniform_name(i as nat), #[trigger] r.bone_matrices@[i]),
        resolved_as(*lookup, "boneOffset"@, r.bone_offset),
{
    let main = resolve_main_uniforms(lookup);
    let mut bone_matrices: Vec<i32> = Vec::new();
    let mut i: usize = 0;
    while i < MAX_BONES
        invariant
            lookup_ready(*lookup),
            i <= MAX_BONES,
            bone_matrices@.len() == i,
            forall|j: int| 0 <= j < i ==> resolved_as(*lookup, bone_matrix_uniform_name(j as nat), #[trigger] bone_matrices@[j]),
        decreases MAX_BONES - i,
    {
        let name = make_bone_matrix_uniform_name(i);
        bone_matrices.push(uniform_location_or_inactive(lookup, name.as_str()));
        i = i + 1;
    }
    let bone_offset = uniform_location_or_inactive(lookup, "boneOffset");
    SkinnedUniforms { main, bone_matrices, bone_offset }
}

} // verus!
