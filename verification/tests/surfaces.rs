use sher_display::common::ObjectId;
use sher_display::scene::Rect;
use sher_display::surfaces::{SurfaceManager, SurfaceRole};

#[test]
fn commit_drains_damage_and_arms_frame_callback() {
    let mut mgr = SurfaceManager::new();
    let client = ObjectId::from_raw(5_001);
    let id = mgr.create_surface(client, SurfaceRole::Toplevel);

    mgr.damage(&id, Rect::new(0, 0, 100, 100)).unwrap();
    let drained = mgr.commit(&id).unwrap();

    assert_eq!(drained.len(), 1);
    assert!(mgr.get(&id).unwrap().damage.is_empty());
    assert!(mgr.get(&id).unwrap().frame_callback_pending);
}

#[test]
fn destroying_client_drops_its_surfaces() {
    let mut mgr = SurfaceManager::new();
    let client = ObjectId::from_raw(5_002);
    mgr.create_surface(client, SurfaceRole::Toplevel);
    mgr.create_surface(client, SurfaceRole::Popup);
    assert_eq!(mgr.len(), 2);

    mgr.destroy_surfaces_for_client(&client);
    assert!(mgr.is_empty());
}

#[test]
fn operating_on_missing_surface_errors() {
    let mut mgr = SurfaceManager::new();
    let bogus = ObjectId::from_raw(5_003);
    assert!(mgr.resize(&bogus, 10, 10).is_err());
}

#[test]
fn opacity_is_clamped_to_the_unit_range() {
    let mut mgr = SurfaceManager::new();
    let id = mgr.create_surface(ObjectId::from_raw(5_004), SurfaceRole::Toplevel);
    mgr.set_opacity(&id, 1_500).unwrap();
    assert_eq!(mgr.get(&id).unwrap().opacity_milli, 1_000);
    mgr.set_opacity(&id, -20).unwrap();
    assert_eq!(mgr.get(&id).unwrap().opacity_milli, 0);
    mgr.set_opacity(&id, 250).unwrap();
    assert_eq!(mgr.get(&id).unwrap().opacity_milli, 250);
}

#[test]
fn destroying_one_client_keeps_the_others_surfaces() {
    let mut mgr = SurfaceManager::new();
    let a = ObjectId::from_raw(5_005);
    let b = ObjectId::from_raw(5_006);
    mgr.create_surface(a, SurfaceRole::Toplevel);
    let kept = mgr.create_surface(b, SurfaceRole::Toplevel);
    mgr.destroy_surfaces_for_client(&a);
    assert_eq!(mgr.len(), 1);
    assert_eq!(mgr.surfaces_for_client(&b).len(), 1);
    assert_eq!(mgr.get(&kept).unwrap().client_id, b);
    assert!(mgr.surfaces_for_client(&a).is_empty());
}

#[test]
fn frame_callback_ack_and_buffer_attach() {
    let mut mgr = SurfaceManager::new();
    let id = mgr.create_surface(ObjectId::from_raw(5_007), SurfaceRole::Toplevel);
    let buffer = ObjectId::from_raw(5_008);
    mgr.attach_buffer(&id, buffer).unwrap();
    assert_eq!(mgr.get(&id).unwrap().buffer_id, Some(buffer));
    mgr.commit(&id).unwrap();
    mgr.ack_frame_callback(&id).unwrap();
    assert!(!mgr.get(&id).unwrap().frame_callback_pending);
    mgr.destroy_surface(&id).unwrap();
    assert!(mgr.destroy_surface(&id).is_err());
}

#[test]
fn commit_clears_the_buffer_attachment() {
    let mut mgr = SurfaceManager::new();
    let id = mgr.create_surface(ObjectId::from_raw(5_009), SurfaceRole::Toplevel);
    mgr.attach_buffer(&id, ObjectId::from_raw(5_010)).unwrap();
    mgr.resize(&id, 64, 32).unwrap();
    mgr.commit(&id).unwrap();
    let s = mgr.get(&id).unwrap();
    assert_eq!(s.buffer_id, None);
    assert_eq!((s.width, s.height), (64, 32));
}
