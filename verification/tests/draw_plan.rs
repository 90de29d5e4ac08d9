//! Order, texture binds and counters of the main object pass.
use goud_engine::draw_plan::{plan_object_draws, render_candidates, DrawCommand};
use goud_engine::scene::SceneRegistry;

fn draw(object_id: u32, texture_id: u32, bind_texture: bool) -> DrawCommand {
    DrawCommand { object_id, texture_id, bind_texture }
}

#[test]
fn sorted_pass_groups_material_and_texture_and_skips_rebinds() {
    let visible = vec![(2, 5, 10), (1, 5, 11), (1, 0, 12), (1, 5, 13)];
    let (cmds, stats) = plan_object_draws(&visible, true, 6);
    assert_eq!(cmds, vec![draw(12, 0, false), draw(11, 5, true), draw(13, 5, false), draw(10, 5, false)]);
    assert_eq!(stats.total_objects, 6);
    assert_eq!(stats.visible_objects, 4);
    assert_eq!(stats.culled_objects, 2);
    assert_eq!(stats.texture_binds, 1);
    assert_eq!(stats.draw_calls, 4);
}

#[test]
fn unsorted_pass_keeps_order_and_rebinds_on_change() {
    let visible = vec![(0, 3, 1), (0, 0, 2), (0, 4, 3), (0, 3, 4)];
    let (cmds, stats) = plan_object_draws(&visible, false, 4);
    assert_eq!(cmds, vec![draw(1, 3, true), draw(2, 0, false), draw(3, 4, true), draw(4, 3, true)]);
    assert_eq!(stats.texture_binds, 3);
    assert_eq!(stats.culled_objects, 0);
}

#[test]
fn untextured_draw_does_not_forget_the_bound_texture() {
    let visible = vec![(0, 7, 1), (0, 0, 2), (0, 7, 3)];
    let (cmds, stats) = plan_object_draws(&visible, false, 3);
    assert_eq!(cmds, vec![draw(1, 7, true), draw(2, 0, false), draw(3, 7, false)]);
    assert_eq!(stats.texture_binds, 1);
}

#[test]
fn culled_count_never_goes_below_zero() {
    let (cmds, stats) = plan_object_draws(&vec![(0, 0, 1), (0, 0, 2)], true, 1);
    assert_eq!(cmds.len(), 2);
    assert_eq!(stats.culled_objects, 0);
    assert_eq!(stats.draw_calls, 2);
    let (none, empty) = plan_object_draws(&Vec::new(), true, 5);
    assert!(none.is_empty());
    assert_eq!(empty.culled_objects, 5);
    assert_eq!(empty.texture_binds, 0);
}

#[test]
fn candidates_skip_skinned_batched_and_out_of_scene_objects() {
    let mut scenes = SceneRegistry::new();
    let objects = vec![(1, false), (2, true), (3, false), (4, false)];
    let skinned = vec![3];
    assert_eq!(render_candidates(&objects, &skinned, true, &scenes), vec![1, 4]);
    assert_eq!(render_candidates(&objects, &skinned, false, &scenes), vec![1, 2, 4]);
    let sid = scenes.create_scene("level");
    assert!(scenes.add_object_to_scene(sid, 4, true));
    assert!(scenes.add_object_to_scene(sid, 2, true));
    assert!(scenes.set_current_scene(sid));
    assert_eq!(render_candidates(&objects, &skinned, false, &scenes), vec![2, 4]);
    assert_eq!(render_candidates(&objects, &skinned, true, &scenes), vec![4]);
}
