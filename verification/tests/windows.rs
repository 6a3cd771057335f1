use sher_display::common::ObjectId;
use sher_display::scene::{Point, Size};
use sher_display::windows::{LayoutMode, SnapEdge, WindowManager};

fn mgr_with_window() -> (WindowManager, ObjectId) {
    let mut mgr = WindowManager::new();
    let id = mgr.create_window(ObjectId::from_raw(3_001), "app.example", "Untitled");
    (mgr, id)
}

#[test]
fn activation_deactivates_previous_window() {
    let mut mgr = WindowManager::new();
    let a = mgr.create_window(ObjectId::from_raw(3_002), "a", "A");
    let b = mgr.create_window(ObjectId::from_raw(3_003), "b", "B");

    mgr.activate(&a).unwrap();
    assert!(mgr.get(&a).unwrap().active);

    mgr.activate(&b).unwrap();
    assert!(!mgr.get(&a).unwrap().active);
    assert!(mgr.get(&b).unwrap().active);
    assert_eq!(mgr.active_window(), Some(b));
}

#[test]
fn fullscreen_window_rejects_move() {
    let (mut mgr, id) = mgr_with_window();
    mgr.set_layout(&id, LayoutMode::Fullscreen).unwrap();
    assert!(mgr.move_to(&id, Point { x: 10, y: 10 }).is_err());
}

#[test]
fn snap_sets_tiled_layout_and_half_width() {
    let (mut mgr, id) = mgr_with_window();
    mgr.snap(&id, SnapEdge::Left, Size { width: 1920, height: 1080 }).unwrap();
    let w = mgr.get(&id).unwrap();
    assert_eq!(w.layout, LayoutMode::Tiled);
    assert_eq!(w.size.width, 960);
}

#[test]
fn destroying_active_window_clears_active_slot() {
    let (mut mgr, id) = mgr_with_window();
    mgr.activate(&id).unwrap();
    mgr.destroy_window(&id).unwrap();
    assert_eq!(mgr.active_window(), None);
}

#[test]
fn snap_right_places_the_window_on_the_right_half() {
    let (mut mgr, id) = mgr_with_window();
    mgr.snap(&id, SnapEdge::Right, Size { width: 1920, height: 1080 }).unwrap();
    let w = mgr.get(&id).unwrap();
    assert_eq!(w.position, Point { x: 960, y: 0 });
    assert_eq!(w.size, Size { width: 960, height: 1080 });
}

#[test]
fn only_one_window_is_ever_active() {
    let mut mgr = WindowManager::new();
    let a = mgr.create_window(ObjectId::from_raw(3_004), "a", "A");
    let b = mgr.create_window(ObjectId::from_raw(3_005), "b", "B");
    let c = mgr.create_window(ObjectId::from_raw(3_006), "c", "C");
    mgr.activate(&a).unwrap();
    mgr.activate(&c).unwrap();
    let active: Vec<bool> = [a, b, c].iter().map(|id| mgr.get(id).unwrap().active).collect();
    assert_eq!(active, vec![false, false, true]);
}

#[test]
fn operations_on_missing_window_error() {
    let mut mgr = WindowManager::new();
    let bogus = ObjectId::from_raw(3_999);
    assert!(mgr.activate(&bogus).is_err());
    assert!(mgr.minimize(&bogus).is_err());
    assert!(mgr.destroy_window(&bogus).is_err());
    assert!(mgr.move_to(&bogus, Point { x: 0, y: 0 }).is_err());
}

#[test]
fn minimize_and_restore_round_trip() {
    let (mut mgr, id) = mgr_with_window();
    mgr.minimize(&id).unwrap();
    assert!(mgr.get(&id).unwrap().minimized);
    mgr.restore(&id).unwrap();
    assert!(!mgr.get(&id).unwrap().minimized);
    assert_eq!(mgr.windows_for_app("app.example").len(), 1);
    assert_eq!(mgr.windows_for_app("other").len(), 0);
}
