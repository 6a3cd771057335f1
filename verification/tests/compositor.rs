use sher_display::common::ObjectId;
use sher_display::compositor::Compositor;
use sher_display::scene::{NodeKind, Rect, SceneNode};
use sher_display::surfaces::SurfaceRole;
use std::time::Duration;

#[test]
fn first_tick_forces_full_redraw_even_without_damage() {
    let mut comp = Compositor::new();
    let output = ObjectId::from_raw(2_001);
    comp.register_output(output, 60);

    let reports = comp.tick(Duration::from_millis(17));
    assert_eq!(reports.len(), 1);
    assert!(reports[0].full_redraw);
}

#[test]
fn no_damage_after_first_frame_skips_subsequent_frames() {
    let mut comp = Compositor::new();
    let output = ObjectId::from_raw(2_002);
    comp.register_output(output, 60);
    comp.tick(Duration::from_millis(17));

    let reports = comp.tick(Duration::from_millis(17));
    assert!(reports.is_empty());
}

#[test]
fn committing_damaged_surface_produces_a_frame() {
    let mut comp = Compositor::new();
    let output = ObjectId::from_raw(2_003);
    comp.register_output(output, 60);
    comp.tick(Duration::from_millis(17));

    let client = ObjectId::from_raw(2_004);
    let surface_id = comp.surfaces_mut().create_surface(client, SurfaceRole::Toplevel);
    let mut node = SceneNode::new(NodeKind::Window);
    node.output_id = Some(output);
    let node_id = comp.scene_mut().insert(node);

    comp.surfaces_mut().damage(&surface_id, Rect::new(0, 0, 10, 10)).unwrap();
    comp.commit_surface(&surface_id, &node_id).unwrap();

    let reports = comp.tick(Duration::from_millis(17));
    assert_eq!(reports.len(), 1);
    assert!(!reports[0].full_redraw);
    assert_eq!(reports[0].damage.len(), 1);
}

#[test]
fn tick_before_refresh_interval_elapses_produces_nothing() {
    let mut comp = Compositor::new();
    let output = ObjectId::from_raw(2_005);
    comp.register_output(output, 60);
    comp.tick(Duration::from_millis(17));

    let reports = comp.tick(Duration::from_millis(2));
    assert!(reports.is_empty());
}

#[test]
fn elapsed_time_accumulates_across_short_ticks() {
    let mut comp = Compositor::new();
    let output = ObjectId::from_raw(2_006);
    comp.register_output(output, 60);
    comp.tick(Duration::from_millis(17));
    comp.request_full_redraw(&output);
    assert!(comp.tick(Duration::from_millis(10)).is_empty());
    let reports = comp.tick(Duration::from_millis(7));
    assert_eq!(reports.len(), 1);
    assert!(reports[0].full_redraw);
    assert_eq!(reports[0].frame_number, 2);
}

#[test]
fn advance_in_nanoseconds_matches_tick() {
    let mut comp = Compositor::new();
    let output = ObjectId::from_raw(2_007);
    comp.register_output(output, 60);
    assert!(comp.advance(16_000_000).is_empty());
    let reports = comp.advance(1_000_000);
    assert_eq!(reports.len(), 1);
    assert_eq!(reports[0].output_id, output);
    assert_eq!(reports[0].frame_number, 1);
}

#[test]
fn unregistered_output_produces_no_frames() {
    let mut comp = Compositor::new();
    let output = ObjectId::from_raw(2_008);
    comp.register_output(output, 60);
    comp.unregister_output(&output);
    assert!(comp.tick(Duration::from_millis(100)).is_empty());
}

#[test]
fn commit_of_missing_surface_errors() {
    let mut comp = Compositor::new();
    let node_id = comp.scene_mut().insert(SceneNode::new(NodeKind::Window));
    assert!(comp.commit_surface(&ObjectId::from_raw(2_999), &node_id).is_err());
}

#[test]
fn refresh_interval_rounds_to_the_nearest_nanosecond() {
    let mut comp = Compositor::new();
    let output = ObjectId::from_raw(2_009);
    comp.register_output(output, 60);
    assert!(comp.advance(16_666_666).is_empty());
    let reports = comp.advance(1);
    assert_eq!(reports.len(), 1);
    assert!(reports[0].full_redraw);
}

#[test]
fn frame_damage_follows_back_to_front_order_stable_for_equal_depth() {
    let mut comp = Compositor::new();
    let output = ObjectId::from_raw(2_010);
    comp.register_output(output, 60);
    comp.tick(Duration::from_millis(17));
    let mut first = SceneNode::new(NodeKind::Window);
    first.output_id = Some(output);
    first.z_order = 5;
    let first_id = comp.scene_mut().insert(first);
    let mut second = SceneNode::new(NodeKind::Window);
    second.output_id = Some(output);
    second.z_order = 5;
    let second_id = comp.scene_mut().insert(second);
    let mut back = SceneNode::new(NodeKind::Wallpaper);
    back.output_id = Some(output);
    back.z_order = 0;
    let back_id = comp.scene_mut().insert(back);
    comp.scene_mut().mark_damage(&second_id, Rect::new(2, 2, 1, 1)).unwrap();
    comp.scene_mut().mark_damage(&first_id, Rect::new(1, 1, 1, 1)).unwrap();
    comp.scene_mut().mark_damage(&back_id, Rect::new(0, 0, 1, 1)).unwrap();
    let reports = comp.tick(Duration::from_millis(17));
    assert_eq!(reports.len(), 1);
    assert_eq!(reports[0].composited_nodes, 3);
    assert_eq!(reports[0].damage, vec![Rect::new(0, 0, 1, 1), Rect::new(1, 1, 1, 1), Rect::new(2, 2, 1, 1)]);
    assert!(!comp.scene().has_damage(&output));
}

#[test]
fn an_exact_half_nanosecond_interval_rounds_to_even() {
    let mut comp = Compositor::new();
    let output = ObjectId::from_raw(2_011);
    comp.register_output(output, 1024);
    let reports = comp.advance(976_562);
    assert_eq!(reports.len(), 1);
    assert!(reports[0].full_redraw);
}
