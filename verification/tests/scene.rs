//! Scenes and the scene registry.
use goud_engine::scene::{Scene3D, SceneRegistry};

#[test]
fn test_scene_new_has_empty_sets() {
    let scene = Scene3D::new("test".to_string());
    assert_eq!(scene.name, "test");
    assert!(scene.objects.is_empty());
    assert!(scene.models.is_empty());
    assert!(scene.lights.is_empty());
}

#[test]
fn test_scene_add_remove_objects() {
    let mut scene = Scene3D::new("s".to_string());
    assert!(scene.add_object(1));
    assert!(!scene.add_object(1)); // duplicate
    assert!(scene.contains_object(1));
    assert!(!scene.contains_object(2));
    assert!(scene.remove_object(1));
    assert!(!scene.remove_object(1)); // already removed
    assert!(!scene.contains_object(1));
}

#[test]
fn test_scene_add_remove_models() {
    let mut scene = Scene3D::new("s".to_string());
    assert!(scene.add_model(10));
    assert!(!scene.add_model(10));
    assert!(scene.contains_model(10));
    assert!(scene.remove_model(10));
    assert!(!scene.contains_model(10));
}

#[test]
fn test_scene_add_remove_lights() {
    let mut scene = Scene3D::new("s".to_string());
    assert!(scene.add_light(5));
    assert!(!scene.add_light(5));
    assert!(scene.contains_light(5));
    assert!(scene.remove_light(5));
    assert!(!scene.contains_light(5));
}

#[test]
fn test_scene_create_and_destroy() {
    let mut scenes = SceneRegistry::new();
    let s1 = scenes.create_scene("level1");
    let s2 = scenes.create_scene("level2");
    assert_ne!(s1, s2);
    assert!(scenes.destroy_scene(s1));
    assert!(!scenes.destroy_scene(s1)); // already destroyed
    assert!(scenes.destroy_scene(s2));
}

#[test]
fn test_scene_set_and_get_current() {
    let mut scenes = SceneRegistry::new();
    assert_eq!(scenes.get_current_scene(), None);
    let s = scenes.create_scene("main");
    assert!(scenes.set_current_scene(s));
    assert_eq!(scenes.get_current_scene(), Some(s));
    scenes.clear_current_scene();
    assert_eq!(scenes.get_current_scene(), None);
}

#[test]
fn test_scene_destroy_clears_current() {
    let mut scenes = SceneRegistry::new();
    let s = scenes.create_scene("temp");
    scenes.set_current_scene(s);
    scenes.destroy_scene(s);
    assert_eq!(scenes.get_current_scene(), None);
}

#[test]
fn test_scene_add_object_validates_existence() {
    let mut scenes = SceneRegistry::new();
    let s = scenes.create_scene("s");
    // Non-existent object should fail.
    assert!(!scenes.add_object_to_scene(s, 9999, false));
    // An existing object is added.
    let obj = 1;
    assert!(scenes.add_object_to_scene(s, obj, true));
    assert!(scenes.remove_object_from_scene(s, obj));
    assert!(!scenes.remove_object_from_scene(s, obj));
}

#[test]
fn test_scene_add_light_validates_existence() {
    let mut scenes = SceneRegistry::new();
    let s = scenes.create_scene("s");
    assert!(!scenes.add_light_to_scene(s, 9999, false));
    let l = 1;
    assert!(scenes.add_light_to_scene(s, l, true));
    assert!(scenes.remove_light_from_scene(s, l));
}

#[test]
fn test_scene_filtering_limits_rendered_objects() {
    let mut scenes = SceneRegistry::new();
    let (a, b) = (1, 2);
    // No scene: both objects rendered.
    assert!(scenes.object_visible(a) && scenes.object_visible(b));
    // Scene with only object `a`.
    let s = scenes.create_scene("filtered");
    scenes.add_object_to_scene(s, a, true);
    scenes.set_current_scene(s);
    assert!(scenes.object_visible(a));
    assert!(!scenes.object_visible(b));
    // Clear scene: both objects rendered again.
    scenes.clear_current_scene();
    assert!(scenes.object_visible(a) && scenes.object_visible(b));
}

#[test]
fn scene_ids_start_at_one_and_are_not_reused() {
    let mut scenes = SceneRegistry::new();
    let s1 = scenes.create_scene("a");
    assert_eq!(s1, 1);
    assert!(scenes.destroy_scene(s1));
    let s2 = scenes.create_scene("b");
    assert_eq!(s2, 2);
    assert_eq!(scenes.get_scene(s2).map(|s| s.name.clone()), Some("b".to_string()));
    assert!(scenes.get_scene(s1).is_none());
}

#[test]
fn set_current_to_missing_scene_fails() {
    let mut scenes = SceneRegistry::new();
    let s = scenes.create_scene("x");
    assert!(scenes.set_current_scene(s));
    assert!(!scenes.set_current_scene(s + 10));
    assert_eq!(scenes.get_current_scene(), Some(s));
}

#[test]
fn model_membership_carries_its_objects() {
    let mut scenes = SceneRegistry::new();
    let s = scenes.create_scene("m");
    let objs = vec![11, 12, 13];
    // Unknown model: nothing changes.
    assert!(!scenes.add_model_to_scene(s, 7, None));
    assert!(scenes.add_model_to_scene(s, 7, Some(&objs)));
    let scene = scenes.get_scene(s).unwrap();
    assert!(scene.contains_model(7));
    assert!(objs.iter().all(|o| scene.contains_object(*o)));
    assert!(scenes.remove_model_from_scene(s, 7, Some(&objs)));
    let scene = scenes.get_scene(s).unwrap();
    assert!(!scene.contains_model(7));
    assert!(objs.iter().all(|o| !scene.contains_object(*o)));
    // Removing again reports false.
    assert!(!scenes.remove_model_from_scene(s, 7, Some(&objs)));
}

#[test]
fn light_filter_follows_current_scene() {
    let mut scenes = SceneRegistry::new();
    let s = scenes.create_scene("l");
    scenes.add_light_to_scene(s, 3, true);
    scenes.set_current_scene(s);
    assert!(scenes.light_visible(3));
    assert!(!scenes.light_visible(4));
}

#[test]
fn purging_a_model_clears_it_from_every_scene() {
    let mut scenes = SceneRegistry::new();
    let a = scenes.create_scene("a");
    let b = scenes.create_scene("b");
    let objs = vec![1, 2];
    scenes.add_model_to_scene(a, 9, Some(&objs));
    scenes.add_model_to_scene(b, 9, Some(&objs));
    scenes.add_object_to_scene(b, 3, true);
    scenes.purge_model(9, &objs);
    for s in [a, b] {
        let scene = scenes.get_scene(s).unwrap();
        assert!(!scene.contains_model(9));
        assert!(!scene.contains_object(1) && !scene.contains_object(2));
    }
    assert!(scenes.get_scene(b).unwrap().contains_object(3));
}

#[test]
fn instances_join_the_scene_of_their_source() {
    let mut scenes = SceneRegistry::new();
    let s = scenes.create_scene("s");
    scenes.add_model_to_scene(s, 5, Some(&vec![50]));
    // No current scene: nothing joins.
    assert!(!scenes.adopt_instance(5, 6, &vec![60]));
    scenes.set_current_scene(s);
    assert!(scenes.adopt_instance(5, 6, &vec![60, 61]));
    let scene = scenes.get_scene(s).unwrap();
    assert!(scene.contains_model(6));
    assert!(scene.contains_object(60) && scene.contains_object(61));
    // A source outside the current scene: nothing joins.
    assert!(!scenes.adopt_instance(7, 8, &vec![80]));
    assert!(!scenes.get_scene(s).unwrap().contains_model(8));
}

#[test]
fn model_visibility_follows_the_current_scene() {
    let mut reg = SceneRegistry::new();
    assert!(reg.model_visible(5));
    let sid = reg.create_scene("level");
    let objs = vec![1, 2];
    assert!(reg.add_model_to_scene(sid, 5, Some(&objs)));
    assert!(reg.set_current_scene(sid));
    assert!(reg.model_visible(5));
    assert!(!reg.model_visible(6));
}
