use displayeditor_rav::protocol::join_texts;
use displayeditor_rav::{
    displays_from_monitors, keep_and_save_step, preview_step, refresh_step, render_omarchy_lua,
    restore_step, revert_step, validate_layout, Display, PreviewAction, PreviewEvent, RawMonitor,
    ReloadReport, RevertAction, RevertEvent, SaveAction, SaveEvent, Session,
};

fn raw(name: &str, size: (u32, u32), position: (i32, i32), scale_milli: i32, modes: &[&str]) -> RawMonitor {
    RawMonitor {
        id: 1,
        name: name.to_owned(),
        description: String::new(),
        width: size.0,
        height: size.1,
        refresh_millihertz: 60000,
        x: position.0,
        y: position.1,
        scale_milli,
        transform: 0,
        focused: false,
        available_modes: modes.iter().map(|m| m.to_string()).collect(),
    }
}

fn live_layout() -> Vec<Display> {
    displays_from_monitors(&[
        raw("eDP-1", (1920, 1200), (0, 0), 1250, &["1920x1200@60.00Hz"]),
        raw("HDMI-A-1", (3840, 2160), (1536, 0), 1250, &["3840x2160@60.00Hz"]),
    ])
}

/// A session that read the live layout and then moved the second display.
fn edited_session() -> Session {
    let mut s = refresh_step(&Session::new(), &Ok(live_layout()), false);
    s.displays[1].position = [1536, 200];
    s
}

fn report(errors_text: &str, live: Result<Vec<Display>, String>, backup: Option<&str>) -> ReloadReport {
    ReloadReport {
        reload_ok: true,
        errors_ran: true,
        errors_ok: true,
        errors_text: errors_text.to_owned(),
        live,
        config: "/home/u/.config/hypr/monitors.lua".to_owned(),
        backup: backup.map(str::to_owned),
    }
}

/// A session whose edited layout runs as a preview started at 1000 ms.
fn previewing_session() -> Session {
    let (s, _) = preview_step(&edited_session(), &PreviewEvent::Applied(Ok(())), 1000);
    s
}

// ----- reading the live layout -----

#[test]
fn refresh_takes_the_live_layout() {
    let s = refresh_step(&Session::new(), &Ok(live_layout()), false);
    assert_eq!(s.displays, live_layout());
    assert_eq!(s.baseline, live_layout());
    assert_eq!(s.status, "2 connected displays");
    assert_eq!(s.gdk_scale, 1);
    assert_eq!(s.error, None);
}

#[test]
fn refresh_sets_gdk_scale_and_keeps_selection_in_range() {
    let mut s = Session::new();
    s.selected = 5;
    let big = displays_from_monitors(&[raw("DP-1", (3840, 2160), (0, 0), 2000, &["3840x2160@60.00Hz"])]);
    let s = refresh_step(&s, &Ok(big), false);
    assert_eq!(s.gdk_scale, 2);
    assert_eq!(s.selected, 0);
    assert_eq!(s.status, "1 connected displays");
}

#[test]
fn reset_discards_pending_changes() {
    let s = refresh_step(&edited_session(), &Ok(live_layout()), true);
    assert_eq!(s.displays, live_layout());
    assert_eq!(s.status, "Pending changes discarded");
}

#[test]
fn refresh_failures_only_set_the_error() {
    let before = edited_session();
    let s = refresh_step(&before, &Ok(Vec::new()), false);
    assert_eq!(s.error.as_deref(), Some("Hyprland reported no active displays."));
    assert_eq!(s.displays, before.displays);
    let s = refresh_step(&before, &Err("no hyprctl".to_owned()), false);
    assert_eq!(s.error.as_deref(), Some("no hyprctl"));
    assert_eq!(s.status, before.status);
}

#[test]
fn restoring_a_backup_takes_its_layout() {
    let mut before = edited_session();
    before.selected = 1;
    let one = displays_from_monitors(&[raw("eDP-1", (1920, 1200), (0, 0), 1000, &["1920x1200@60.00Hz"])]);
    let s = restore_step(&before, &Ok(one.clone()), "/b/monitors.lua.bak");
    assert_eq!(s.displays, one);
    assert_eq!(s.baseline, one);
    assert_eq!(s.selected, 0);
    assert_eq!(s.status, "Restored backup: /b/monitors.lua.bak");
    let s = restore_step(&before, &Err("copy failed".to_owned()), "/b");
    assert_eq!(s.error.as_deref(), Some("Backup restore failed: copy failed"));
    assert_eq!(s.displays, before.displays);
}

// ----- preview -----

#[test]
fn preview_arms_the_watchdog_with_the_baseline() {
    let s = edited_session();
    let (next, action) = preview_step(&s, &PreviewEvent::Requested, 0);
    assert!(matches!(action, PreviewAction::ArmWatchdog(ref l) if *l == live_layout()));
    assert_eq!(next.displays, s.displays);
    assert_eq!(next.error, None);
}

#[test]
fn invalid_layout_is_not_previewed() {
    let mut s = edited_session();
    s.displays[1].position = [100, 100];
    let (next, action) = preview_step(&s, &PreviewEvent::Requested, 0);
    assert!(matches!(action, PreviewAction::Nothing));
    let expected = validate_layout(&s.displays).join(" · ");
    assert!(expected.contains("overlap"));
    assert_eq!(next.error, Some(expected));
}

#[test]
fn preview_request_is_ignored_while_one_runs_or_without_displays() {
    let (_, action) = preview_step(&previewing_session(), &PreviewEvent::Requested, 2000);
    assert!(matches!(action, PreviewAction::Nothing));
    let (next, action) = preview_step(&Session::new(), &PreviewEvent::Requested, 0);
    assert!(matches!(action, PreviewAction::Nothing));
    assert_eq!(next.error, None);
}

#[test]
fn armed_watchdog_leads_to_applying_the_edited_layout() {
    let s = edited_session();
    let (_, action) = preview_step(&s, &PreviewEvent::Armed(Ok(())), 0);
    assert!(matches!(action, PreviewAction::Apply(ref l) if *l == s.displays));
    let (next, action) = preview_step(&s, &PreviewEvent::Armed(Err("no temp dir".to_owned())), 0);
    assert!(matches!(action, PreviewAction::Nothing));
    assert_eq!(next.error.as_deref(), Some("no temp dir"));
}

#[test]
fn applied_preview_runs_for_fifteen_seconds() {
    let s = edited_session();
    let (next, action) = preview_step(&s, &PreviewEvent::Applied(Ok(())), 1000);
    assert!(matches!(action, PreviewAction::ReadLive));
    let preview = next.preview.as_ref().unwrap();
    assert_eq!(preview.deadline_ms, 16000);
    assert_eq!(preview.original, live_layout());
    assert_eq!(next.status, "Preview active — confirm within 15 seconds");
    let (_, action) = preview_step(&s, &PreviewEvent::Applied(Ok(())), u64::MAX - 10);
    assert!(matches!(action, PreviewAction::ReadLive));
}

#[test]
fn refused_preview_stands_the_watchdog_down() {
    let s = edited_session();
    let (next, action) =
        preview_step(&s, &PreviewEvent::Applied(Err("Hyprland rejected the layout: x".to_owned())), 0);
    assert!(matches!(action, PreviewAction::AcknowledgeWatchdog));
    assert!(next.preview.is_none());
    assert_eq!(next.error.as_deref(), Some("Hyprland rejected the layout: x"));
}

#[test]
fn live_read_after_preview_is_judged() {
    let s = previewing_session();
    let (next, _) = preview_step(&s, &PreviewEvent::LiveRead(Ok(s.displays.clone())), 1100);
    assert_eq!(next.error, None);
    let (next, _) = preview_step(&s, &PreviewEvent::LiveRead(Ok(live_layout())), 1100);
    assert_eq!(
        next.error.as_deref(),
        Some("Hyprland did not realize the requested layout; revert or wait for rollback")
    );
    let (next, _) = preview_step(&s, &PreviewEvent::LiveRead(Err("gone".to_owned())), 1100);
    assert_eq!(next.error.as_deref(), Some("Could not read the live layout: gone"));
}

#[test]
fn preview_times_out_at_its_deadline() {
    let s = previewing_session();
    let (_, action) = preview_step(&s, &PreviewEvent::Tick, 15999);
    assert!(matches!(action, PreviewAction::Nothing));
    let (_, action) = preview_step(&s, &PreviewEvent::Tick, 16000);
    assert!(matches!(action, PreviewAction::RevertPreview(ref r) if r == "Preview timed out and was reverted"));
    let (_, action) = preview_step(&edited_session(), &PreviewEvent::Tick, u64::MAX);
    assert!(matches!(action, PreviewAction::Nothing));
}

// ----- revert -----

#[test]
fn revert_applies_the_layout_from_before_the_preview() {
    let s = previewing_session();
    let (_, action) = revert_step(&s, &RevertEvent::Requested("Preview reverted".to_owned()));
    assert!(matches!(action, RevertAction::Apply(ref l) if *l == live_layout()));
    let (next, action) =
        revert_step(&s, &RevertEvent::Applied("Preview reverted".to_owned(), Ok(())));
    assert!(matches!(action, RevertAction::AcknowledgeWatchdog));
    assert_eq!(next.displays, live_layout());
    assert_eq!(next.baseline, live_layout());
    assert!(next.preview.is_none());
    assert_eq!(next.status, "Preview reverted");
}

#[test]
fn failed_revert_leaves_the_watchdog_armed() {
    let s = previewing_session();
    let (next, action) =
        revert_step(&s, &RevertEvent::Applied("Preview reverted".to_owned(), Err("boom".to_owned())));
    assert!(matches!(action, RevertAction::ReleaseWatchdog));
    assert!(next.preview.is_none());
    assert_eq!(next.displays, s.displays);
    assert_eq!(
        next.error.as_deref(),
        Some("Could not restore display layout; watchdog remains armed: boom")
    );
}

#[test]
fn revert_without_preview_does_nothing() {
    let s = edited_session();
    let (next, action) = revert_step(&s, &RevertEvent::Requested("Preview reverted".to_owned()));
    assert!(matches!(action, RevertAction::Nothing));
    assert_eq!(next.displays, s.displays);
}

#[test]
fn timed_out_preview_goes_back_to_the_baseline() {
    let before = edited_session();
    let (running, _) = preview_step(&before, &PreviewEvent::Applied(Ok(())), 0);
    let (_, action) = preview_step(&running, &PreviewEvent::Tick, 20000);
    let PreviewAction::RevertPreview(reason) = action else { panic!("no revert") };
    let (done, _) = revert_step(&running, &RevertEvent::Applied(reason, Ok(())));
    assert_eq!(done.displays, before.baseline);
    assert_eq!(done.status, "Preview timed out and was reverted");
}

// ----- keep and save -----

#[test]
fn save_checks_then_writes_the_rendered_config() {
    let s = previewing_session();
    let lua = render_omarchy_lua(&s.displays, s.gdk_scale);
    let (_, action) = keep_and_save_step(&s, &SaveEvent::Requested);
    assert!(matches!(action, SaveAction::Preflight(ref t) if *t == lua));
    let (_, action) = keep_and_save_step(&s, &SaveEvent::PreflightPassed);
    assert!(matches!(action, SaveAction::Write(ref t) if *t == lua));
    let (_, action) = keep_and_save_step(&s, &SaveEvent::Written);
    assert!(matches!(action, SaveAction::ReloadAndCheck));
}

#[test]
fn failed_check_or_write_stops_the_save() {
    let s = previewing_session();
    let (next, action) = keep_and_save_step(&s, &SaveEvent::PreflightFailed("bad lua".to_owned()));
    assert!(matches!(action, SaveAction::Stop));
    assert_eq!(next.error.as_deref(), Some("bad lua"));
    assert!(next.preview.is_some());
    let (next, action) = keep_and_save_step(&s, &SaveEvent::WriteFailed("disk full".to_owned()));
    assert!(matches!(action, SaveAction::Stop));
    assert_eq!(next.error.as_deref(), Some("Could not save config: disk full"));
}

#[test]
fn successful_save_makes_the_layout_the_baseline() {
    let s = previewing_session();
    let live = Ok(s.displays.clone());
    let (next, action) =
        keep_and_save_step(&s, &SaveEvent::Reloaded(report("", live.clone(), Some("/b/old.bak"))));
    assert!(matches!(action, SaveAction::AcknowledgeWatchdog));
    assert_eq!(next.baseline, s.displays);
    assert!(next.preview.is_none());
    assert_eq!(next.status, "Saved; backup: /b/old.bak");
    assert_eq!(next.error, None);
    let (next, _) = keep_and_save_step(&s, &SaveEvent::Reloaded(report("", live, None)));
    assert_eq!(next.status, "Saved /home/u/.config/hypr/monitors.lua");
    let (again, action) = revert_step(&next, &RevertEvent::Requested("Preview reverted".to_owned()));
    assert!(matches!(action, RevertAction::Nothing));
    assert_eq!(again.displays, s.displays);
}

#[test]
fn failed_save_restores_config_and_reverts() {
    let s = previewing_session();
    let r = report("oops", Ok(s.displays.clone()), Some("/b/old.bak"));
    let (s1, action) = keep_and_save_step(&s, &SaveEvent::Reloaded(r));
    assert!(matches!(action, SaveAction::RestoreConfig(Some(ref b)) if b == "/b/old.bak"));
    assert_eq!(s1.save_problem.as_deref(), Some("Hyprland config error: oops"));
    let (s2, action) = keep_and_save_step(&s1, &SaveEvent::Restored(Ok(())));
    assert!(matches!(action, SaveAction::RevertPreview(ref r) if r == "Invalid saved layout reverted"));
    let expected = "Hyprland config error: oops; original configuration restored";
    assert_eq!(s2.error.as_deref(), Some(expected));
    let (s3, action) =
        revert_step(&s2, &RevertEvent::Applied("Invalid saved layout reverted".to_owned(), Ok(())));
    assert!(matches!(action, RevertAction::AcknowledgeWatchdog));
    assert_eq!(s3.error, None);
    let (s4, action) = keep_and_save_step(&s3, &SaveEvent::Reverted);
    assert!(matches!(action, SaveAction::Stop));
    assert_eq!(s4.error.as_deref(), Some(expected));
    assert_eq!(s4.save_problem, None);
    assert_eq!(s4.displays, live_layout());
    assert_eq!(s4.status, "Invalid saved layout reverted");
}

#[test]
fn unrealized_save_reports_restore_failure() {
    let s = previewing_session();
    let r = report("", Ok(live_layout()), None);
    let (s1, action) = keep_and_save_step(&s, &SaveEvent::Reloaded(r));
    assert!(matches!(action, SaveAction::RestoreConfig(None)));
    assert_eq!(s1.save_problem.as_deref(), Some("Hyprland did not realize the requested layout"));
    let (s2, _) = keep_and_save_step(&s1, &SaveEvent::Restored(Err("read-only".to_owned())));
    assert_eq!(
        s2.error.as_deref(),
        Some("Hyprland did not realize the requested layout; configuration restore failed: read-only")
    );
}

#[test]
fn failed_live_read_after_reload_is_unrealized() {
    let s = previewing_session();
    let r = report("", Err("gone".to_owned()), None);
    let (s1, _) = keep_and_save_step(&s, &SaveEvent::Reloaded(r));
    assert_eq!(s1.save_problem.as_deref(), Some("Hyprland did not realize the requested layout"));
}

#[test]
fn messages_are_joined_with_a_middle_dot() {
    let parts = vec!["a".to_owned(), "b c".to_owned(), "d".to_owned()];
    assert_eq!(join_texts(&parts, " · "), "a · b c · d");
    assert_eq!(join_texts(&vec!["only".to_owned()], " · "), "only");
    assert_eq!(join_texts(&Vec::new(), " · "), "");
}
