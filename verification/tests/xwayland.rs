use sher_display::common::{Error, ObjectId};
use sher_display::xwayland::XWaylandBridge;

#[test]
fn mapping_is_bidirectional() {
    let mut bridge = XWaylandBridge::new();
    let surface = ObjectId::from_raw(11_001);
    bridge.map_window(42, surface).unwrap();

    assert_eq!(bridge.surface_for_window(42), Some(surface));
    assert_eq!(bridge.window_for_surface(&surface), Some(42));
}

#[test]
fn cannot_double_map_the_same_xid() {
    let mut bridge = XWaylandBridge::new();
    bridge.map_window(1, ObjectId::from_raw(11_002)).unwrap();
    assert!(bridge.map_window(1, ObjectId::from_raw(11_003)).is_err());
}

#[test]
fn unmapping_clears_both_directions() {
    let mut bridge = XWaylandBridge::new();
    let surface = ObjectId::from_raw(11_004);
    bridge.map_window(7, surface).unwrap();

    bridge.unmap_window(7).unwrap();

    assert!(bridge.surface_for_window(7).is_none());
    assert!(bridge.window_for_surface(&surface).is_none());
    assert!(bridge.is_empty());
}

#[test]
fn unmapping_unknown_window_errors() {
    let mut bridge = XWaylandBridge::new();
    assert!(bridge.unmap_window(999).is_err());
}

fn device_message(r: Result<(), Error>) -> String {
    match r {
        Err(Error::Device(m)) => m,
        other => panic!("expected a device error, got {:?}", other),
    }
}

#[test]
fn errors_name_the_window() {
    let mut bridge = XWaylandBridge::new();
    bridge.map_window(4_294_967_295, ObjectId::from_raw(11_005)).unwrap();
    assert_eq!(
        device_message(bridge.map_window(4_294_967_295, ObjectId::from_raw(11_006))),
        "X11 window 4294967295 is already mapped"
    );
    assert_eq!(device_message(bridge.unmap_window(0)), "X11 window 0 is not mapped");
    assert_eq!(bridge.surface_for_window(4_294_967_295), Some(ObjectId::from_raw(11_005)));
}

#[test]
fn len_counts_mapped_windows() {
    let mut bridge = XWaylandBridge::new();
    assert_eq!(bridge.len(), 0);
    bridge.map_window(10, ObjectId::from_raw(11_007)).unwrap();
    bridge.map_window(11, ObjectId::from_raw(11_008)).unwrap();
    assert_eq!(bridge.len(), 2);
    assert!(!bridge.is_empty());
    bridge.unmap_window(10).unwrap();
    assert_eq!(bridge.len(), 1);
    assert_eq!(bridge.window_for_surface(&ObjectId::from_raw(11_008)), Some(11));
}
