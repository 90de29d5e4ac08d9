//! Uniform location resolution against a shader whose active uniforms are
//! listed.
use goud_engine::uniforms::{
    resolve_depth_only_uniforms, resolve_grid_uniforms, resolve_instanced_skinned_uniforms, resolve_main_uniforms,
    resolve_skinned_uniforms, uniform_location_or_inactive, MAX_BONES, MAX_LIGHTS,
};

fn active() -> Vec<(String, i32)> {
    vec![
        ("model".to_string(), 3),
        ("view".to_string(), 4),
        ("lights[0].color".to_string(), 20),
        ("lights[7].spotAngle".to_string(), 77),
        ("boneMatrices[0]".to_string(), 100),
        ("boneMatrices[127]".to_string(), 227),
        ("boneOffset".to_string(), 9),
        ("mvp".to_string(), 1),
        ("alpha".to_string(), 5),
    ]
}

fn find(list: &[(String, i32)], name: &str) -> Option<i32> {
    list.iter().find(|(n, _)| n == name).map(|(_, l)| *l)
}

#[test]
fn inactive_uniforms_resolve_to_minus_one() {
    let list = active();
    let lookup = |name: &str| find(&list, name);
    assert_eq!(uniform_location_or_inactive(&lookup, "model"), 3);
    assert_eq!(uniform_location_or_inactive(&lookup, "missing"), -1);
}

#[test]
fn main_uniforms_resolve_every_name() {
    let list = active();
    let lookup = |name: &str| find(&list, name);
    let m = resolve_main_uniforms(&lookup);
    assert_eq!(m.model, 3);
    assert_eq!(m.view, 4);
    assert_eq!(m.projection, -1);
    assert_eq!(m.lights.len(), MAX_LIGHTS);
    assert_eq!(m.lights[0].color, 20);
    assert_eq!(m.lights[0].position, -1);
    assert_eq!(m.lights[7].spot_angle, 77);
    assert_eq!(m.primary_light_dir, -1);
}

#[test]
fn skinned_and_other_shaders() {
    let list = active();
    let lookup = |name: &str| find(&list, name);
    let sk = resolve_skinned_uniforms(&lookup);
    assert_eq!(sk.bone_matrices.len(), MAX_BONES);
    assert_eq!(sk.bone_matrices[0], 100);
    assert_eq!(sk.bone_matrices[1], -1);
    assert_eq!(sk.bone_matrices[127], 227);
    assert_eq!(sk.bone_offset, 9);
    assert_eq!(sk.main.model, 3);
    assert_eq!(resolve_instanced_skinned_uniforms(&lookup).main.view, 4);
    assert_eq!(resolve_depth_only_uniforms(&lookup).mvp, 1);
    let g = resolve_grid_uniforms(&lookup);
    assert_eq!(g.alpha, 5);
    assert_eq!(g.view, 4);
    assert_eq!(g.fog_end, -1);
}
