use displayeditor_rav::{
    displays_from_monitors, highest_mode_index, normalize_positions, render_omarchy_lua,
    runtime_layout_lua, runtime_monitor_value, snap_position_to_displays, validate_layout,
    Display, RawMonitor,
};

fn monitor(
    id: i32,
    name: &str,
    description: &str,
    size: (u32, u32),
    refresh_millihertz: u32,
    position: (i32, i32),
    scale_milli: i32,
    focused: bool,
    modes: &[&str],
) -> RawMonitor {
    RawMonitor {
        id,
        name: name.to_owned(),
        description: description.to_owned(),
        width: size.0,
        height: size.1,
        refresh_millihertz,
        x: position.0,
        y: position.1,
        scale_milli,
        transform: 0,
        focused,
        available_modes: modes.iter().map(|m| m.to_string()).collect(),
    }
}

/// The two monitors of a laptop with an external 4K screen, as Hyprland
/// reports them (refresh rates 60.003 Hz and 59.997 Hz, scale 1.25).
fn two_monitors() -> Vec<Display> {
    let raw = vec![
        monitor(
            0,
            "eDP-1",
            "Laptop panel",
            (1920, 1200),
            60003,
            (0, 0),
            1250,
            false,
            &["1920x1200@60.00Hz", "1920x1080@60.00Hz"],
        ),
        monitor(
            1,
            "HDMI-A-1",
            "AOC U2790B",
            (3840, 2160),
            59997,
            (1536, 0),
            1250,
            true,
            &["3840x2160@60.00Hz", "2560x1440@59.95Hz", "1920x1080@60.00Hz"],
        ),
    ];
    displays_from_monitors(&raw)
}

#[test]
fn parses_live_hyprland_monitor_json() {
    let displays = two_monitors();
    assert_eq!(displays.len(), 2);
    assert_eq!(displays[1].name, "HDMI-A-1");
    assert_eq!(displays[1].position, [1536, 0]);
    assert_eq!(displays[1].available_modes[0].width, 3840);
    assert_eq!(displays[1].available_modes[0].refresh_millihertz, 60000);
}

#[test]
fn chooses_highest_resolution_then_refresh_rate() {
    let displays = two_monitors();
    assert_eq!(highest_mode_index(&displays[1]), Some(0));
}

#[test]
fn normalizes_negative_positions_without_changing_relationships() {
    let mut displays = two_monitors();
    displays[0].position = [-1920, -200];
    displays[1].position = [0, 100];
    normalize_positions(&mut displays);
    assert_eq!(displays[0].position, [0, 0]);
    assert_eq!(displays[1].position, [1920, 300]);
}

#[test]
fn generated_lua_uses_omarchy_monitor_helpers_and_fallback() {
    let displays = two_monitors();
    let lua = render_omarchy_lua(&displays, 1);
    assert!(lua.contains("hl.env(\"GDK_SCALE\", \"1\")"));
    assert!(lua.contains("output = \"HDMI-A-1\""));
    assert!(lua.contains("mode = \"3840x2160@60.00\""));
    assert!(lua.contains("position = \"1536x0\""));
    assert!(lua.contains("output = \"\", mode = \"preferred\", position = \"auto\""));
    assert!(lua.find("output = \"\"").unwrap() < lua.find("output = \"HDMI-A-1\"").unwrap());
}

#[test]
fn renders_runtime_lua_monitor_call() {
    let displays = two_monitors();
    assert_eq!(
        runtime_monitor_value(&displays[1]),
        "hl.monitor({ output = \"HDMI-A-1\", mode = \"3840x2160@60.00\", position = \"1536x0\", scale = 1.25, transform = 0, disabled = false })"
    );
}

#[test]
fn snaps_nearby_display_edges_and_tops() {
    let displays = two_monitors();
    let snapped = snap_position_to_displays(&displays, 1, [1542, 6], 12);
    assert_eq!(snapped, [1536, 0]);
}

#[test]
fn renders_complete_runtime_layout_as_one_lua_evaluation() {
    let displays = two_monitors();
    let lua = runtime_layout_lua(&displays);
    assert!(lua.starts_with("local layout = {"));
    assert!(lua.contains("output = \"eDP-1\""));
    assert!(lua.contains("output = \"HDMI-A-1\""));
    assert!(lua.contains("disabled = false"));
    assert!(lua.ends_with("for _, spec in ipairs(layout) do hl.monitor(spec) end"));
}

#[test]
fn rejects_overlapping_displays_before_preview() {
    let mut displays = two_monitors();
    displays[1].position = [100, 100];
    let errors = validate_layout(&displays);
    assert!(errors.iter().any(|error| error.contains("overlap")));
}

#[test]
fn rejects_scale_that_produces_fractional_logical_dimensions() {
    let mut displays = two_monitors();
    displays[0].scale_milli = 1400;
    let errors = validate_layout(&displays);
    assert!(
        errors
            .iter()
            .any(|error| error.contains("integral logical size"))
    );
}
