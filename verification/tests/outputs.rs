use sher_display::common::ObjectId;
use sher_display::outputs::{Connector, ConnectorStatus, ConnectorType, DisplayMode, Orientation, OutputManager};

fn hdmi_connector(raw: u64) -> Connector {
    Connector {
        id: ObjectId::from_raw(raw),
        connector_type: ConnectorType::HDMI,
        status: ConnectorStatus::Connected,
        supported_modes: vec![DisplayMode { width: 1920, height: 1080, refresh_rate: 60, clock: 148500 }],
        current_mode: None,
    }
}

#[test]
fn starts_with_fallback_output_so_session_never_has_zero_outputs() {
    let mgr = OutputManager::new();
    assert_eq!(mgr.list().len(), 1);
    assert!(mgr.primary().is_some());
}

#[test]
fn observing_real_connector_drops_fallback_and_becomes_primary() {
    let mut mgr = OutputManager::new();
    let connector = hdmi_connector(6_001);
    let id = mgr.observe_connector(&connector);

    assert_eq!(mgr.list().len(), 1);
    assert_eq!(mgr.primary().unwrap().connector_id, id);
}

#[test]
fn disconnecting_primary_falls_back_to_next_or_virtual() {
    let mut mgr = OutputManager::new();
    let id = mgr.observe_connector(&hdmi_connector(6_002));

    mgr.handle_hotplug(&id, false).unwrap();

    assert_eq!(mgr.list().len(), 1);
    assert!(mgr.primary().is_some());
    assert_ne!(mgr.primary().unwrap().connector_id, id);
}

#[test]
fn outputs_can_have_independent_scale_and_position() {
    let mut mgr = OutputManager::new();
    let laptop = mgr.observe_connector(&hdmi_connector(6_003));
    let external = mgr.observe_connector(&hdmi_connector(6_004));

    mgr.set_scale(&laptop, 2_000).unwrap();
    mgr.set_position(&external, (1920, 0)).unwrap();

    assert_eq!(mgr.get(&laptop).unwrap().scale_milli, 2_000);
    assert_eq!(mgr.get(&external).unwrap().scale_milli, 1_000);
    assert_eq!(mgr.get(&external).unwrap().position, (1920, 0));
}

#[test]
fn connector_outputs_are_named_by_type_and_handle() {
    let mut mgr = OutputManager::new();
    let id = mgr.observe_connector(&hdmi_connector(6_005));
    assert_eq!(mgr.get(&id).unwrap().name, "HDMI-6005");
    assert_eq!(mgr.list().len(), 1);
    assert_eq!(ConnectorType::DisplayPort.name(), "DisplayPort");
}

#[test]
fn fallback_output_is_virtual_720p() {
    let mgr = OutputManager::new();
    let only = mgr.list()[0];
    assert_eq!(only.name, "fallback-virtual");
    assert!(only.primary);
    assert_eq!(only.mode, Some(DisplayMode { width: 1280, height: 720, refresh_rate: 60, clock: 74250 }));
}

#[test]
fn disconnecting_primary_promotes_the_next_output() {
    let mut mgr = OutputManager::new();
    let first = mgr.observe_connector(&hdmi_connector(6_006));
    let second = mgr.observe_connector(&hdmi_connector(6_007));
    assert_eq!(mgr.primary().unwrap().connector_id, first);
    mgr.handle_hotplug(&first, false).unwrap();
    assert_eq!(mgr.primary().unwrap().connector_id, second);
    assert_eq!(mgr.list().len(), 1);
}

#[test]
fn set_primary_moves_the_flag_and_missing_outputs_error() {
    let mut mgr = OutputManager::new();
    let first = mgr.observe_connector(&hdmi_connector(6_008));
    let second = mgr.observe_connector(&hdmi_connector(6_009));
    mgr.set_primary(&second).unwrap();
    assert!(!mgr.get(&first).unwrap().primary);
    assert!(mgr.get(&second).unwrap().primary);
    let bogus = ObjectId::from_raw(6_999);
    assert!(mgr.set_primary(&bogus).is_err());
    assert!(mgr.set_scale(&bogus, 1_000).is_err());
    assert!(mgr.set_orientation(&bogus, Orientation::Portrait).is_err());
    mgr.set_orientation(&first, Orientation::Portrait).unwrap();
    assert_eq!(mgr.get(&first).unwrap().orientation, Orientation::Portrait);
    mgr.mirror(&first, second).unwrap();
    assert_eq!(mgr.get(&first).unwrap().mirror_of, Some(second));
}

#[test]
fn fallback_after_unplugging_never_reuses_the_unplugged_handle() {
    let mut mgr = OutputManager::new();
    let fallback_handle = mgr.list()[0].connector_id;
    let id = mgr.observe_connector(&hdmi_connector(fallback_handle.raw() + 1));
    mgr.handle_hotplug(&id, false).unwrap();
    assert!(mgr.get(&id).is_none());
    let primary = mgr.primary().unwrap();
    assert_ne!(primary.connector_id, id);
    assert_eq!(primary.name, "fallback-virtual");
}
