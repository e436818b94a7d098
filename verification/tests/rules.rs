use displayeditor_rav::{
    align_tops, anchor_display, hertz_text, backup_file_name, desktop_entry, displays_from_monitors, displays_overlap,
    gdk_scale_for, highest_mode_index, identify_summary, latest_backup_index, layout_shift_fits,
    lua_string, nearest_within, normalize_positions, overlapping_indices, parse_mode,
    render_omarchy_lua, runtime_layout_lua, runtime_matches, runtime_monitor_value,
    saved_layout_problem, snap, snap_fits_i32, snap_position_to_displays, snap_targets_fit,
    transform_label, validate_layout, Display, DisplayMode, RawMonitor,
};

fn raw(name: &str, size: (u32, u32), millihertz: u32, position: (i32, i32), scale_milli: i32, modes: &[&str]) -> RawMonitor {
    RawMonitor {
        id: 7,
        name: name.to_owned(),
        description: String::new(),
        width: size.0,
        height: size.1,
        refresh_millihertz: millihertz,
        x: position.0,
        y: position.1,
        scale_milli,
        transform: 0,
        focused: false,
        available_modes: modes.iter().map(|m| m.to_string()).collect(),
    }
}

fn two_monitors() -> Vec<Display> {
    displays_from_monitors(&[
        raw("eDP-1", (1920, 1200), 60003, (0, 0), 1250, &["1920x1200@60.00Hz", "1920x1080@60.00Hz"]),
        raw(
            "HDMI-A-1",
            (3840, 2160),
            59997,
            (1536, 0),
            1250,
            &["3840x2160@60.00Hz", "2560x1440@59.95Hz", "1920x1080@60.00Hz"],
        ),
    ])
}

fn mode(width: u32, height: u32, refresh_millihertz: u32) -> DisplayMode {
    DisplayMode { raw: String::new(), width, height, refresh_millihertz }
}

// ----- modes -----

#[test]
fn mode_text_reads_resolution_and_refresh() {
    let m = parse_mode("1920x1080@60.00Hz").unwrap();
    assert_eq!((m.width, m.height, m.refresh_millihertz), (1920, 1080, 60000));
    assert_eq!(m.raw, "1920x1080@60.00Hz");
    let m = parse_mode("2560x1440@59.951").unwrap();
    assert_eq!(m.refresh_millihertz, 59951);
    let m = parse_mode("+1920x+1080@144").unwrap();
    assert_eq!((m.width, m.height, m.refresh_millihertz), (1920, 1080, 144000));
    let m = parse_mode("800x600@.5").unwrap();
    assert_eq!(m.refresh_millihertz, 500);
    let m = parse_mode("800x600@75.").unwrap();
    assert_eq!(m.refresh_millihertz, 75000);
}

#[test]
fn refresh_beyond_millihertz_rounds_half_up() {
    assert_eq!(parse_mode("1x1@60.0005").unwrap().refresh_millihertz, 60001);
    assert_eq!(parse_mode("1x1@60.00049999").unwrap().refresh_millihertz, 60000);
    assert_eq!(parse_mode("1x1@59.9999").unwrap().refresh_millihertz, 60000);
}

#[test]
fn malformed_mode_texts_do_not_read() {
    for text in [
        "1920x1080", "1920x@60", "ax1080@60", "1920x1080@", "1920x1080@.", "1920x1080@6.0.0",
        "99999999999x1@60", "1x2x3@60", "1x2@3@60Hz", "-1x2@60", "1x2@-60", "x@", "1920x1080@60Hzz",
        "1x1@5000000",
    ] {
        assert!(parse_mode(text).is_none(), "{text}");
    }
}

#[test]
fn the_last_at_sign_starts_the_refresh_rate() {
    // The size part "1x2@3" does not read as a height.
    assert!(parse_mode("1x2@3@60").is_none());
    // Only one trailing "Hz" is stripped.
    assert!(parse_mode("1x2@60HzHz").is_none());
}

#[test]
fn config_value_writes_two_decimals() {
    assert_eq!(mode(3840, 2160, 59997).config_value(), "3840x2160@60.00");
    assert_eq!(mode(3840, 2160, 59994).config_value(), "3840x2160@59.99");
    assert_eq!(mode(3840, 2160, 59995).config_value(), "3840x2160@60.00");
    assert_eq!(mode(1280, 720, 144000).config_value(), "1280x720@144.00");
    assert_eq!(mode(0, 0, 0).config_value(), "0x0@0.00");
}

#[test]
fn written_modes_read_back_rounded_to_hundredths() {
    for (w, h, r, back_r) in [
        (3840, 2160, 59997, 60000),
        (1920, 1080, 60000, 60000),
        (1, 2, 5, 0),
        (1, 2, 15, 20),
        (4000000000, 7, 123456, 123460),
    ] {
        let text = mode(w, h, r).config_value();
        let back = parse_mode(&text).unwrap();
        assert_eq!((back.width, back.height), (w, h));
        assert_eq!(back.refresh_millihertz, back_r);
    }
}

// ----- displays from monitor records -----

#[test]
fn closest_mode_is_selected_and_unreadable_modes_dropped() {
    let displays = displays_from_monitors(&[raw(
        "DP-1",
        (2560, 1440),
        143912,
        (0, 0),
        1000,
        &["garbage", "2560x1440@59.95Hz", "2560x1440@143.91Hz", "1920x1080@60.00Hz"],
    )]);
    let d = &displays[0];
    assert_eq!(d.available_modes.len(), 3);
    assert_eq!(d.selected_mode, 1);
    assert_eq!(d.available_modes[1].raw, "2560x1440@143.91Hz");
}

#[test]
fn equally_close_modes_select_the_first() {
    let displays = displays_from_monitors(&[raw("DP-1", (1920, 1080), 60000, (0, 0), 1000, &["1920x1080@59.00", "1920x1080@61.00"])]);
    assert_eq!(displays[0].selected_mode, 0);
}

#[test]
fn no_readable_mode_selects_index_zero() {
    let displays = displays_from_monitors(&[raw("DP-1", (1920, 1080), 60000, (5, -3), 1500, &[])]);
    assert_eq!(displays[0].selected_mode, 0);
    assert!(displays[0].selected_mode().is_none());
    assert_eq!(displays[0].position, [5, -3]);
    assert_eq!(displays[0].scale_milli, 1500);
}

#[test]
fn highest_mode_prefers_pixels_then_refresh_and_the_last_tie() {
    let mut d = two_monitors().remove(0);
    d.available_modes = vec![mode(1920, 1080, 60000), mode(2560, 1440, 59950), mode(2560, 1440, 143910), mode(1440, 2560, 143910)];
    assert_eq!(highest_mode_index(&d), Some(3));
    d.available_modes = vec![mode(1920, 1080, 60000), mode(1920, 1080, 50000)];
    assert_eq!(highest_mode_index(&d), Some(0));
    d.available_modes.clear();
    assert_eq!(highest_mode_index(&d), None);
}

#[test]
fn logical_size_turns_and_scales() {
    let mut d = two_monitors().remove(1);
    let size = d.logical_size();
    assert_eq!((size.width_thousandths, size.height_thousandths, size.scale_milli), (3840000, 2160000, 1250));
    assert_eq!(d.rounded_logical_size(), [3072, 1728]);
    d.transform = 1;
    assert_eq!(d.rounded_logical_size(), [1728, 3072]);
    d.transform = 2;
    assert_eq!(d.rounded_logical_size(), [3072, 1728]);
    d.scale_milli = 100;
    assert_eq!(d.rounded_logical_size(), [38400, 21600]);
    d.scale_milli = 0;
    assert_eq!(d.logical_size().scale_milli, 250);
    d.scale_milli = 1500;
    d.selected_mode = 9;
    assert_eq!(d.rounded_logical_size(), [2560, 1440]);
}

#[test]
fn logical_size_is_exact() {
    let mut d = two_monitors().remove(0);
    d.scale_milli = 1400;
    let size = d.logical_size();
    // 1920 / 1.4 is about 1371.43: kept as 1920000 / 1400.
    assert_eq!((size.width_thousandths, size.height_thousandths, size.scale_milli), (1920000, 1200000, 1400));
    assert_eq!(d.rounded_logical_size(), [1371, 857]);
}

// ----- layout moves -----

#[test]
fn normalizing_twice_moves_nothing_more() {
    let mut displays = two_monitors();
    displays[0].position = [-300, 40];
    displays[1].position = [500, -60];
    normalize_positions(&mut displays);
    assert_eq!(displays[0].position, [0, 100]);
    assert_eq!(displays[1].position, [800, 0]);
    normalize_positions(&mut displays);
    assert_eq!(displays[0].position, [0, 100]);
    assert_eq!(displays[1].position, [800, 0]);
    let mut none: Vec<Display> = Vec::new();
    normalize_positions(&mut none);
    assert!(none.is_empty());
}

#[test]
fn anchoring_puts_the_display_at_the_origin() {
    let mut displays = two_monitors();
    anchor_display(&mut displays, 1);
    assert_eq!(displays[1].position, [0, 0]);
    assert_eq!(displays[0].position, [-1536, 0]);
    anchor_display(&mut displays, 5);
    assert_eq!(displays[0].position, [-1536, 0]);
}

#[test]
fn shifts_that_leave_the_range_are_detected() {
    let mut displays = two_monitors();
    assert!(layout_shift_fits(&displays, 1536, 0));
    displays[0].position = [i32::MIN, 0];
    assert!(!layout_shift_fits(&displays, 1536, 0));
}

// ----- snapping -----

#[test]
fn nearest_within_threshold() {
    assert_eq!(nearest_within(100, &[], 10), 100);
    assert_eq!(nearest_within(100, &[95, 105], 10), 95);
    assert_eq!(nearest_within(100, &[120, 108, 93], 10), 93);
    assert_eq!(nearest_within(100, &[111], 10), 100);
    assert_eq!(nearest_within(100, &[110], 10), 110);
    assert_eq!(nearest_within(100, &[5000], -1), 5000);
}

#[test]
fn snapping_far_from_every_edge_keeps_the_proposal() {
    let displays = two_monitors();
    assert_eq!(snap_position_to_displays(&displays, 1, [1700, 400], 12), [1700, 400]);
    assert_eq!(snap_position_to_displays(&displays, 9, [1, 2], 12), [1, 2]);
    assert!(snap_targets_fit(&displays, 1));
}

#[test]
fn snapping_aligns_far_edges() {
    let displays = two_monitors();
    // Moving the laptop panel: the external display spans x 1536..4608.
    assert_eq!(snap_position_to_displays(&displays, 0, [4600, 1735], 12), [4608, 1728]);
    // Flush to the left of it: 1536 - 1536 = 0.
    assert_eq!(snap_position_to_displays(&displays, 0, [5, -959], 12), [0, -960]);
}

#[test]
fn grid_snapping_rounds_halves_away_from_zero() {
    assert_eq!(snap(14, 10), 10);
    assert_eq!(snap(15, 10), 20);
    assert_eq!(snap(-14, 10), -10);
    assert_eq!(snap(-15, 10), -20);
    assert_eq!(snap(15, -10), 20);
    assert_eq!(snap(7, 0), 0);
    assert!(snap_fits_i32(i32::MAX - 10, 10));
    assert!(!snap_fits_i32(i32::MAX, 10));
}

// ----- validation -----

#[test]
fn empty_layout_is_rejected_with_one_message() {
    assert_eq!(validate_layout(&[]), vec!["At least one active display is required".to_owned()]);
}

#[test]
fn valid_layout_has_no_errors() {
    assert!(validate_layout(&two_monitors()).is_empty());
    assert!(overlapping_indices(&two_monitors()).is_empty());
}

#[test]
fn each_display_error_is_reported() {
    let mut displays = two_monitors();
    displays[0].selected_mode = 8;
    displays[1].scale_milli = 0;
    assert_eq!(
        validate_layout(&displays),
        vec!["eDP-1 has no selected mode".to_owned(), "HDMI-A-1 scale must be positive".to_owned()]
    );
}

#[test]
fn overlap_is_reported_by_name_and_marked_on_both() {
    let mut displays = two_monitors();
    displays[1].position = [100, 100];
    assert_eq!(
        validate_layout(&displays),
        vec!["eDP-1 and HDMI-A-1 overlap; active displays must not overlap".to_owned()]
    );
    assert_eq!(overlapping_indices(&displays), vec![0, 1]);
    assert!(displays_overlap(&displays[0], &displays[1]));
    assert!(displays_overlap(&displays[1], &displays[0]));
}

#[test]
fn touching_edges_do_not_overlap() {
    let displays = two_monitors();
    assert!(!displays_overlap(&displays[0], &displays[1]));
    let mut shifted = two_monitors();
    shifted[1].position = [1535, 0];
    assert!(displays_overlap(&shifted[0], &shifted[1]));
}

#[test]
fn fractional_scale_is_reported() {
    let mut displays = two_monitors();
    displays[0].scale_milli = 1400;
    assert_eq!(validate_layout(&displays), vec!["eDP-1 scale must produce an integral logical size".to_owned()]);
}

// ----- rendering -----

#[test]
fn lua_strings_escape_quotes_backslashes_and_breaks() {
    assert_eq!(lua_string("plain"), "\"plain\"");
    assert_eq!(lua_string("a\"b\\c\nd\re"), "\"a\\\"b\\\\c\\nd\\re\"");
    assert_eq!(lua_string(""), "\"\"");
}

#[test]
fn saved_configuration_is_exact() {
    let displays = two_monitors();
    let lua = render_omarchy_lua(&displays[..1], 2);
    assert_eq!(
        lua,
        "-- Generated by DisplayeditorRav. Manual edits may be replaced.\n\
         -- See https://wiki.hypr.land/Configuring/Basics/Monitors/\n\n\
         hl.env(\"GDK_SCALE\", \"2\")\n\n\
         -- Safe fallback for newly connected outputs.\n\
         hl.monitor({ output = \"\", mode = \"preferred\", position = \"auto\", scale = \"auto\" })\n\n\
         hl.monitor({ output = \"eDP-1\", mode = \"1920x1200@60.00\", position = \"0x0\", scale = 1.25, transform = 0 })\n"
    );
}

#[test]
fn saved_configuration_falls_back_to_reported_mode() {
    let mut displays = two_monitors();
    displays[1].selected_mode = 42;
    displays[1].position = [-1536, 20];
    let lua = render_omarchy_lua(&displays, 1);
    assert!(lua.ends_with("hl.monitor({ output = \"HDMI-A-1\", mode = \"3840x2160@60.00\", position = \"-1536x20\", scale = 1.25, transform = 0 })\n"));
}

#[test]
fn runtime_call_falls_back_to_preferred_and_quotes_names() {
    let mut displays = two_monitors();
    displays[0].selected_mode = 42;
    displays[0].name = "odd\"name".to_owned();
    displays[0].transform = 3;
    assert_eq!(
        runtime_monitor_value(&displays[0]),
        "hl.monitor({ output = \"odd\\\"name\", mode = \"preferred\", position = \"0x0\", scale = 1.25, transform = 3, disabled = false })"
    );
}

#[test]
fn layout_evaluation_holds_each_single_rule() {
    let displays = two_monitors();
    let layout = runtime_layout_lua(&displays);
    for display in &displays {
        let call = runtime_monitor_value(display);
        let table = &call["hl.monitor(".len()..call.len() - 1];
        assert!(layout.contains(&format!("{table},")));
    }
    assert_eq!(runtime_layout_lua(&[]), "local layout = {} for _, spec in ipairs(layout) do hl.monitor(spec) end");
}

#[test]
fn labels_and_small_texts() {
    assert_eq!(transform_label(0), "Landscape");
    assert_eq!(transform_label(1), "Portrait (90°)");
    assert_eq!(transform_label(2), "Landscape flipped");
    assert_eq!(transform_label(3), "Portrait (270°)");
    assert_eq!(transform_label(6), "Landscape");
    assert_eq!(identify_summary(&two_monitors()), "1: eDP-1  •  2: HDMI-A-1");
    assert_eq!(identify_summary(&[]), "");
    assert_eq!(backup_file_name("monitors.lua", 1700000000), "monitors.lua.bak.1700000000");
    let entry = desktop_entry("/usr/bin/displayeditor-rav");
    assert!(entry.starts_with("[Desktop Entry]\nType=Application\n"));
    assert!(entry.contains("\nExec=/usr/bin/displayeditor-rav\nIcon=displayeditor-rav\n"));
}

#[test]
fn latest_backup_is_the_greatest_backup_name() {
    let names: Vec<String> = ["monitors.lua", "monitors.lua.bak.1700000100", "other.lua.bak.9", "monitors.lua.bak.1700000200", "monitors.lua.bak.1700000050"]
        .iter()
        .map(|s| s.to_string())
        .collect();
    assert_eq!(latest_backup_index(&names, "monitors.lua"), Some(3));
    assert_eq!(latest_backup_index(&names[..1], "monitors.lua"), None);
}

// ----- session -----

#[test]
fn gdk_scale_doubles_for_large_scales() {
    let mut displays = two_monitors();
    assert_eq!(gdk_scale_for(&displays), 1);
    displays[1].scale_milli = 1750;
    assert_eq!(gdk_scale_for(&displays), 2);
}

#[test]
fn live_layout_must_show_what_was_asked() {
    let mut requested = two_monitors();
    let mut live = two_monitors();
    // Live displays run their selected mode.
    live[0].width = 1920;
    live[0].height = 1200;
    live[1].width = 3840;
    live[1].height = 2160;
    assert!(runtime_matches(&requested, &live));
    live[1].scale_milli = 1259;
    assert!(runtime_matches(&requested, &live));
    live[1].scale_milli = 1260;
    assert!(!runtime_matches(&requested, &live));
    live[1].scale_milli = 1250;
    live[1].position = [1537, 0];
    assert!(!runtime_matches(&requested, &live));
    live[1].position = [1536, 0];
    requested[1].name = "DP-9".to_owned();
    assert!(!runtime_matches(&requested, &live));
}

#[test]
fn saved_layout_verdicts() {
    assert_eq!(saved_layout_problem(true, true, true, "", true), None);
    assert_eq!(
        saved_layout_problem(true, true, true, "bad monitor rule", true),
        Some("Hyprland config error: bad monitor rule".to_owned())
    );
    assert_eq!(
        saved_layout_problem(false, true, false, "", true),
        Some("Hyprland did not realize the requested layout".to_owned())
    );
    assert_eq!(
        saved_layout_problem(true, true, true, "", false),
        Some("Hyprland did not realize the requested layout".to_owned())
    );
}

#[test]
fn aligning_tops_keeps_x() {
    let mut displays = two_monitors();
    displays[0].position = [-40, 300];
    displays[1].position = [1496, -25];
    align_tops(&mut displays);
    assert_eq!(displays[0].position, [-40, 0]);
    assert_eq!(displays[1].position, [1496, 0]);
}

#[test]
fn hertz_text_matches_written_modes() {
    assert_eq!(hertz_text(59995), "60.00");
    assert_eq!(hertz_text(59994), "59.99");
    assert_eq!(hertz_text(59985), "59.98");
    assert_eq!(hertz_text(1125), "1.12");
    assert_eq!(hertz_text(1135), "1.14");
    assert_eq!(hertz_text(143912), "143.91");
    assert_eq!(mode(1, 1, 59995).config_value(), format!("1x1@{}", hertz_text(59995)));
}

#[test]
fn quoted_length_counts_escapes() {
    let value = "a\"b\\c\nd\re";
    let escaped = value.chars().filter(|c| matches!(c, '\\' | '"' | '\n' | '\r')).count();
    assert_eq!(lua_string(value).chars().count(), value.chars().count() + 2 + escaped);
}

#[test]
fn only_overlap_messages_mention_overlap() {
    let mut displays = two_monitors();
    displays[0].selected_mode = 8;
    displays[1].scale_milli = 1400;
    let errors = validate_layout(&displays);
    assert_eq!(errors.len(), 2);
    assert!(!errors.iter().any(|e| e.contains("overlap")));
    assert!(overlapping_indices(&displays).is_empty());
    displays[1].position = [0, 0];
    let errors = validate_layout(&displays);
    assert!(errors.iter().any(|e| e.contains("overlap")));
    assert_eq!(overlapping_indices(&displays), vec![0, 1]);
}

#[test]
fn scale_ties_round_to_even() {
    let mut displays = two_monitors();
    displays[0].scale_milli = 1125;
    assert!(runtime_monitor_value(&displays[0]).contains("scale = 1.12,"));
    displays[0].scale_milli = 1375;
    assert!(render_omarchy_lua(&displays[..1], 1).contains("scale = 1.38,"));
}
