use sher_display::common::ObjectId;
use sher_display::input::{EventKind, EventSummary, InputRouter, RouteDecision};

const LOGO: u32 = 1 << 3;
const KEY_A: u32 = 30;
const ARROW_RIGHT: u32 = 106;

fn key_down(modifiers: u32, key: u32) -> EventSummary {
    EventSummary { modifiers, kind: EventKind::Keyboard { key, key_down: true } }
}

#[test]
fn unfocused_key_events_are_dropped() {
    let router = InputRouter::new();
    assert_eq!(router.route(&key_down(0, KEY_A)), RouteDecision::Dropped);
}

#[test]
fn focused_surface_receives_its_keys() {
    let mut router = InputRouter::new();
    let surface = ObjectId::from_raw(13_001);
    router.set_keyboard_focus(Some(surface));
    assert_eq!(router.route(&key_down(0, KEY_A)), RouteDecision::Focused(surface));
}

#[test]
fn global_shortcut_intercepts_before_focus() {
    let mut router = InputRouter::new();
    router.set_keyboard_focus(Some(ObjectId::from_raw(13_002)));
    router.register_global_shortcut(LOGO, ARROW_RIGHT, "workspace.switch.next");
    assert_eq!(
        router.route(&key_down(LOGO, ARROW_RIGHT)),
        RouteDecision::Global("workspace.switch.next".to_string())
    );
    let release = EventSummary { modifiers: LOGO, kind: EventKind::Keyboard { key: ARROW_RIGHT, key_down: false } };
    assert_eq!(router.route(&release), RouteDecision::Focused(ObjectId::from_raw(13_002)));
    assert_eq!(router.route(&key_down(0, ARROW_RIGHT)), RouteDecision::Focused(ObjectId::from_raw(13_002)));
}

#[test]
fn earliest_registered_shortcut_wins() {
    let mut router = InputRouter::new();
    router.register_global_shortcut(LOGO, KEY_A, "first");
    router.register_global_shortcut(LOGO, KEY_A, "second");
    assert_eq!(router.route(&key_down(LOGO, KEY_A)), RouteDecision::Global("first".to_string()));
}

#[test]
fn pointer_motion_routes_to_pointer_over_not_keyboard_focus() {
    let mut router = InputRouter::new();
    let keyboard_target = ObjectId::from_raw(13_003);
    let pointer_target = ObjectId::from_raw(13_004);
    router.set_keyboard_focus(Some(keyboard_target));
    router.set_pointer_over(Some(pointer_target));
    for kind in [EventKind::Pointer, EventKind::Touch, EventKind::Tablet] {
        assert_eq!(router.route(&EventSummary { modifiers: 0, kind }), RouteDecision::Focused(pointer_target));
    }
    assert_eq!(
        router.route(&EventSummary { modifiers: 0, kind: EventKind::Gamepad }),
        RouteDecision::Focused(keyboard_target)
    );
}

#[test]
fn device_hotplug_reaches_no_surface() {
    let mut router = InputRouter::new();
    router.set_keyboard_focus(Some(ObjectId::from_raw(13_005)));
    router.set_pointer_over(Some(ObjectId::from_raw(13_006)));
    assert_eq!(router.route(&EventSummary { modifiers: 0, kind: EventKind::DeviceAdded }), RouteDecision::Dropped);
    assert_eq!(router.route(&EventSummary { modifiers: 0, kind: EventKind::DeviceRemoved }), RouteDecision::Dropped);
    assert_eq!(router.keyboard_focus(), Some(ObjectId::from_raw(13_005)));
    assert_eq!(router.pointer_over(), Some(ObjectId::from_raw(13_006)));
}
