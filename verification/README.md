# displayeditor-rav

A visual, safe monitor-arrangement editor for Omarchy/Hyprland. The layout
model and the decisions of the preview, revert and save protocols are a
Verus-verified library; the window, the `hyprctl` calls and the file
handling are an egui program that performs the actions the library asks
for and reports back what happened.

## Layout

- `src/` — the verified library. Refresh rates are held in millihertz and
  scales in thousandths, so every rule is integer arithmetic with a contract.
  - `text.rs` — character helpers, Lua string quoting (proved faithful), text order.
  - `numbers.rs` — decimal text of integers and reading digits back.
  - `mode.rs` — modes: reading `WxH@R[Hz]`, writing `WxH@R.RR` (proved to read back).
  - `display.rs` — displays, monitor records, logical size, closest and highest mode.
  - `layout.rs` — normalizing and anchoring positions.
  - `snapping.rs` — edge snapping and grid snapping.
  - `validate.rs` — overlap and layout validation.
  - `render.rs` — the saved configuration, the runtime evaluation, small texts, backups.
  - `session.rs` — checks made after a preview or a save.
  - `protocol.rs` — the editor session and the steps of previewing (with a
    15-second revert), reverting, keeping and saving (with a backup, and the
    old configuration put back when a saved layout fails), refreshing and
    restoring a backup.
- `app/` — the egui program: JSON reading (serde), `hyprctl`, files, the
  watchdog process, the window; it runs the protocol steps.
- `tests/` — tests of the library.
