use sher_display::common::ObjectId;
use sher_display::compositor::Compositor;
use sher_display::scene::Rect;
use sher_display::surfaces::SurfaceRole;
use sher_display::wayland::WaylandBridge;
use sher_display::windows::WindowManager;
use std::time::Duration;

#[test]
fn full_surface_lifecycle_produces_a_frame() {
    let mut bridge = WaylandBridge::new();
    let mut compositor = Compositor::new();
    let mut windows = WindowManager::new();

    let output = ObjectId::from_raw(8_001);
    compositor.register_output(output, 60);
    compositor.tick(Duration::from_millis(17));

    let client = bridge.connect_client();
    let surface = bridge.create_surface(&mut compositor, client, output, SurfaceRole::Toplevel).unwrap();
    bridge.create_toplevel_window(&mut windows, surface, "org.sher.Terminal", "Terminal").unwrap();

    bridge.attach_buffer(&mut compositor, &surface, ObjectId::from_raw(8_002), 800, 600).unwrap();
    bridge.damage(&mut compositor, &surface, Rect::new(0, 0, 800, 600)).unwrap();
    bridge.commit(&mut compositor, &surface).unwrap();

    let reports = compositor.tick(Duration::from_millis(17));
    assert_eq!(reports.len(), 1);
    assert_eq!(reports[0].damage.len(), 1);
}

#[test]
fn disconnecting_client_leaves_no_orphaned_surfaces() {
    let mut bridge = WaylandBridge::new();
    let mut compositor = Compositor::new();
    let mut windows = WindowManager::new();
    let output = ObjectId::from_raw(8_003);

    let client = bridge.connect_client();
    let s1 = bridge.create_surface(&mut compositor, client, output, SurfaceRole::Toplevel).unwrap();
    let s2 = bridge.create_surface(&mut compositor, client, output, SurfaceRole::Popup).unwrap();
    bridge.create_toplevel_window(&mut windows, s1, "app", "Window").unwrap();

    assert_eq!(compositor.surfaces().len(), 2);

    bridge.disconnect_client(&mut compositor, &mut windows, &client).unwrap();

    assert_eq!(compositor.surfaces().len(), 0);
    assert!(compositor.scene().is_empty());
    assert!(bridge.node_for_surface(&s1).is_none());
    assert!(bridge.node_for_surface(&s2).is_none());
    assert!(bridge.window_for_surface(&s1).is_none());
}

#[test]
fn destroying_one_surface_does_not_touch_a_sibling() {
    let mut bridge = WaylandBridge::new();
    let mut compositor = Compositor::new();
    let mut windows = WindowManager::new();
    let output = ObjectId::from_raw(8_004);

    let client = bridge.connect_client();
    let s1 = bridge.create_surface(&mut compositor, client, output, SurfaceRole::Toplevel).unwrap();
    let s2 = bridge.create_surface(&mut compositor, client, output, SurfaceRole::Toplevel).unwrap();

    bridge.destroy_surface(&mut compositor, &mut windows, &s1).unwrap();

    assert!(compositor.surfaces().get(&s1).is_none());
    assert!(compositor.surfaces().get(&s2).is_some());
}

#[test]
fn creating_surface_for_unknown_client_fails() {
    let mut bridge = WaylandBridge::new();
    let mut compositor = Compositor::new();
    let bogus_client = ObjectId::from_raw(8_005);

    let result = bridge.create_surface(&mut compositor, bogus_client, ObjectId::from_raw(8_006), SurfaceRole::Toplevel);
    assert!(result.is_err());
}

#[test]
fn destroying_a_surface_removes_its_window_and_node() {
    let mut bridge = WaylandBridge::new();
    let mut compositor = Compositor::new();
    let mut windows = WindowManager::new();
    let client = bridge.connect_client();
    let s = bridge.create_surface(&mut compositor, client, ObjectId::from_raw(8_007), SurfaceRole::Toplevel).unwrap();
    let w = bridge.create_toplevel_window(&mut windows, s, "app", "Window").unwrap();
    assert_eq!(bridge.window_for_surface(&s), Some(w));
    assert!(bridge.node_for_surface(&s).is_some());
    bridge.destroy_surface(&mut compositor, &mut windows, &s).unwrap();
    assert!(windows.get(&w).is_none());
    assert!(bridge.node_for_surface(&s).is_none());
    assert!(compositor.scene().is_empty());
    assert!(bridge.destroy_surface(&mut compositor, &mut windows, &s).is_err());
}

#[test]
fn attach_buffer_resizes_the_surface() {
    let mut bridge = WaylandBridge::new();
    let mut compositor = Compositor::new();
    let client = bridge.connect_client();
    let s = bridge.create_surface(&mut compositor, client, ObjectId::from_raw(8_008), SurfaceRole::Toplevel).unwrap();
    let buffer = ObjectId::from_raw(8_009);
    assert_eq!(bridge.attach_buffer(&mut compositor, &s, buffer, 640, 480).unwrap(), buffer);
    let state = compositor.surfaces().get(&s).unwrap();
    assert_eq!((state.width, state.height), (640, 480));
    assert_eq!(state.buffer_id, Some(buffer));
    assert!(bridge.attach_buffer(&mut compositor, &ObjectId::from_raw(8_010), buffer, 1, 1).is_err());
}

#[test]
fn clients_get_distinct_handles_and_unknown_disconnect_errors() {
    let mut bridge = WaylandBridge::new();
    let mut compositor = Compositor::new();
    let mut windows = WindowManager::new();
    let a = bridge.connect_client();
    let b = bridge.connect_client();
    assert_ne!(a, b);
    bridge.disconnect_client(&mut compositor, &mut windows, &a).unwrap();
    assert!(bridge.disconnect_client(&mut compositor, &mut windows, &a).is_err());
}

#[test]
fn disconnect_after_destroying_a_surface_leaves_nothing_behind() {
    let mut bridge = WaylandBridge::new();
    let mut compositor = Compositor::new();
    let mut windows = WindowManager::new();
    let output = ObjectId::from_raw(8_011);
    let client = bridge.connect_client();
    let s1 = bridge.create_surface(&mut compositor, client, output, SurfaceRole::Toplevel).unwrap();
    let s2 = bridge.create_surface(&mut compositor, client, output, SurfaceRole::Popup).unwrap();
    bridge.create_toplevel_window(&mut windows, s2, "app", "Window").unwrap();
    bridge.destroy_surface(&mut compositor, &mut windows, &s1).unwrap();
    bridge.disconnect_client(&mut compositor, &mut windows, &client).unwrap();
    assert_eq!(compositor.surfaces().len(), 0);
    assert!(compositor.scene().is_empty());
    assert!(bridge.node_for_surface(&s2).is_none());
    assert!(bridge.window_for_surface(&s2).is_none());
    assert_eq!(windows.len(), 0);
}

#[test]
fn a_new_surface_has_no_window() {
    let mut bridge = WaylandBridge::new();
    let mut compositor = Compositor::new();
    let client = bridge.connect_client();
    let s = bridge.create_surface(&mut compositor, client, ObjectId::from_raw(8_012), SurfaceRole::Toplevel).unwrap();
    assert!(bridge.window_for_surface(&s).is_none());
    assert!(bridge.node_for_surface(&s).is_some());
}
