//! Verified core of a visual monitor-arrangement editor for Hyprland.
//!
//! Refresh rates are held in millihertz and scales in thousandths, so that
//! every rule of the layout model is integer arithmetic with a contract.

pub mod display;
pub mod layout;
pub mod mode;
pub mod numbers;
pub mod protocol;
pub mod render;
pub mod session;
pub mod snapping;
pub mod text;
pub mod validate;

pub use display::{displays_from_monitors, highest_mode_index, Display, LogicalSize, RawMonitor};
pub use layout::{align_tops, anchor_display, layout_shift_fits, normalize_positions};
pub use mode::{hertz_text, parse_mode, DisplayMode};
pub use protocol::{
    keep_and_save_step, preview_step, refresh_step, restore_step, revert_step, Preview,
    PreviewAction, PreviewEvent, ReloadReport, RevertAction, RevertEvent, SaveAction, SaveEvent,
    Session,
};
pub use render::{
    backup_file_name, desktop_entry, identify_summary, latest_backup_index, render_omarchy_lua,
    runtime_layout_lua, runtime_monitor_value, transform_label,
};
pub use session::{gdk_scale_for, runtime_matches, saved_layout_problem};
pub use snapping::{
    nearest_within, snap, snap_fits_i32, snap_position_to_displays, snap_targets_fit,
};
pub use text::lua_string;
pub use validate::{displays_overlap, overlapping_indices, validate_layout};
