use sher_display::common::ObjectId;
use sher_display::cursor::{CursorManager, CursorShape, RenderMode};

#[test]
fn accessibility_floor_clamps_small_sizes() {
    let mut mgr = CursorManager::new();
    mgr.set_size(4);
    assert_eq!(mgr.state().size_px, 16);
}

#[test]
fn setting_non_custom_shape_clears_custom_surface() {
    let mut mgr = CursorManager::new();
    mgr.set_custom(ObjectId::from_raw(12_001));
    assert!(mgr.state().custom_surface.is_some());

    mgr.set_shape(CursorShape::Pointer);
    assert!(mgr.state().custom_surface.is_none());
}

#[test]
fn falls_back_to_software_without_hardware_plane() {
    let mut mgr = CursorManager::new();
    mgr.negotiate_render_mode(false);
    assert_eq!(mgr.state().render_mode, RenderMode::Software);
}

#[test]
fn default_cursor_state() {
    let mgr = CursorManager::new();
    let s = mgr.state();
    assert_eq!(s.shape, CursorShape::Default);
    assert_eq!(s.theme, "sher-default");
    assert_eq!(s.size_px, 24);
    assert_eq!(s.position, (0, 0));
    assert!(s.visible);
    assert_eq!(s.render_mode, RenderMode::Hardware);
    assert!(s.custom_surface.is_none());
}

#[test]
fn sizes_at_or_above_the_floor_are_kept() {
    let mut mgr = CursorManager::new();
    mgr.set_size(16);
    assert_eq!(mgr.state().size_px, 16);
    mgr.set_size(48);
    assert_eq!(mgr.state().size_px, 48);
}

#[test]
fn custom_shape_keeps_its_surface_and_other_setters_touch_one_field() {
    let mut mgr = CursorManager::new();
    let surface = ObjectId::from_raw(12_002);
    mgr.set_custom(surface);
    mgr.set_shape(CursorShape::Custom);
    assert_eq!(mgr.state().custom_surface, Some(surface));
    mgr.move_to((-3, 40));
    mgr.set_theme("Adwaita");
    mgr.set_visible(false);
    let s = mgr.state();
    assert_eq!(s.position, (-3, 40));
    assert_eq!(s.theme, "Adwaita");
    assert!(!s.visible);
    assert_eq!(s.shape, CursorShape::Custom);
    mgr.negotiate_render_mode(true);
    assert_eq!(mgr.state().render_mode, RenderMode::Hardware);
}
