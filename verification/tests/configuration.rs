use sher_display::configuration::{DisplayConfig, Orientation, OutputSettings};

#[test]
fn defaults_are_sensible() {
    let config = DisplayConfig::new();
    assert!(config.animation.enabled);
    assert!(!config.animation.reduced_motion);
    assert!(config.window_behavior.snap_enabled);
}

#[test]
fn default_settings_values() {
    let config = DisplayConfig::new();
    assert_eq!(config.window_behavior.default_layout, "floating");
    assert_eq!(config.cursor.theme, "sher-default");
    assert_eq!(config.cursor.size_px, 24);
    assert_eq!(config.animation.duration_scale_milli, 1_000);
    assert!(config.power_behavior.max_refresh_rate_on_battery.is_none());
    let o = OutputSettings::default();
    assert_eq!(o.resolution, (1920, 1080));
    assert_eq!(o.refresh_rate, 60);
    assert_eq!(o.scale_milli, 1_000);
    assert_eq!(o.orientation, Orientation::Landscape);
    assert!(!o.primary);
}

#[test]
fn output_settings_are_set_and_replaced_by_name() {
    let mut config = DisplayConfig::new();
    config.set_output("eDP-1", OutputSettings { resolution: (2560, 1600), scale_milli: 2_000, primary: true, ..Default::default() });
    assert_eq!(config.output("eDP-1").unwrap().resolution, (2560, 1600));
    assert_eq!(config.output("eDP-1").unwrap().scale_milli, 2_000);
    assert!(config.output("HDMI-1").is_none());
    config.set_output("eDP-1", OutputSettings::default());
    assert_eq!(config.outputs.len(), 1);
    assert_eq!(config.output("eDP-1").unwrap().scale_milli, 1_000);
}

#[test]
fn shortcuts_bind_by_action() {
    let mut config = DisplayConfig::new();
    config.bind_shortcut("workspace.switch.next", "Super+Right");
    config.bind_shortcut("workspace.switch.prev", "Super+Left");
    config.bind_shortcut("workspace.switch.next", "Ctrl+Alt+Right");
    assert_eq!(config.keyboard_shortcuts.len(), 2);
    assert_eq!(config.keyboard_shortcuts[0].0, "workspace.switch.next");
    assert_eq!(config.keyboard_shortcuts[0].1, "Ctrl+Alt+Right");
}
