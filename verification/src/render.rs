use vstd::prelude::*;
use vstd::string::*;

use crate::display::Display;
use crate::mode::{lemma_mode_text_roundtrip, mode_text, parse_mode_spec, push_mode_text};
use crate::numbers::{decimal, fixed2, hundredths, push_decimal, push_fixed2, push_signed_decimal, signed_decimal};
use crate::text::{
    chars_of, has_prefix, lemma_lex_total, lemma_lex_transitive, lex_less, lua_quoted, push_char,
    push_lua_string, starts_with, text_less,
};

verus! {

// ---------------------------------------------------------------------
// Texts of one display
// ---------------------------------------------------------------------

/// The mode written in the saved configuration: the selected mode, else the
/// reported resolution and refresh rate.
pub open spec fn saved_mode_text(d: Display) -> Seq<char> {
    if d.selected_mode < d.available_modes@.len() {
        let m = d.available_modes@[d.selected_mode as int];
        mode_text(m.width, m.height, m.refresh_millihertz)
    } else {
        mode_text(d.width, d.height, d.refresh_millihertz)
    }
}

/// The mode applied at runtime: the selected mode, else `preferred`.
pub open spec fn runtime_mode_text(d: Display) -> Seq<char> {
    if d.selected_mode < d.available_modes@.len() {
        let m = d.available_modes@[d.selected_mode as int];
        mode_text(m.width, m.height, m.refresh_millihertz)
    } else {
        "preferred"@
    }
}

/// Rounding to hundredths of a hertz moves a rate by at most 5 millihertz.
proof fn lemma_hundredths_close(r: u32)
    ensures
        -5 <= hundredths(r as nat) * 10 - r <= 5,
{
}

/// The mode saved for a display reads back as the mode in use: with a mode
/// selected, its resolution, and its refresh rate to within 5 millihertz
/// (rounded to hundredths of a hertz); with none, the reported resolution
/// and refresh rate likewise. Rates near the top of 32 bits are left out,
/// where the rounded rate no longer fits.
pub proof fn lemma_saved_mode_reads_back(d: Display)
    requires
        d.selected_mode < d.available_modes@.len() ==> d.available_modes@[d.selected_mode as int].refresh_millihertz
            <= 4294967285,
        d.selected_mode >= d.available_modes@.len() ==> d.refresh_millihertz <= 4294967285,
    ensures
        d.selected_mode < d.available_modes@.len() ==> ({
            let m = d.available_modes@[d.selected_mode as int];
            parse_mode_spec(saved_mode_text(d)) matches Some((w, h, r)) && w == m.width && h
                == m.height && -5 <= r - m.refresh_millihertz <= 5
        }),
        d.selected_mode >= d.available_modes@.len() ==> (parse_mode_spec(saved_mode_text(d)) matches Some(
            (w, h, r),
        ) && w == d.width && h == d.height && -5 <= r - d.refresh_millihertz <= 5),
{
    if d.selected_mode < d.available_modes@.len() {
        let m = d.available_modes@[d.selected_mode as int];
        lemma_hundredths_close(m.refresh_millihertz);
        lemma_mode_text_roundtrip(m.width, m.height, m.refresh_millihertz);
    } else {
        lemma_hundredths_close(d.refresh_millihertz);
        lemma_mode_text_roundtrip(d.width, d.height, d.refresh_millihertz);
    }
}

/// The mode applied at runtime reads back as the selected mode: its
/// resolution, and its refresh rate to within 5 millihertz; with no mode
/// selected the output is asked for its preferred mode.
pub proof fn lemma_runtime_mode_reads_back(d: Display)
    requires
        d.selected_mode < d.available_modes@.len() ==> d.available_modes@[d.selected_mode as int].refresh_millihertz
            <= 4294967285,
    ensures
        d.selected_mode < d.available_modes@.len() ==> ({
            let m = d.available_modes@[d.selected_mode as int];
            parse_mode_spec(runtime_mode_text(d)) matches Some((w, h, r)) && w == m.width && h
                == m.height && -5 <= r - m.refresh_millihertz <= 5
        }),
        d.selected_mode >= d.available_modes@.len() ==> runtime_mode_text(d) == "preferred"@,
{
    if d.selected_mode < d.available_modes@.len() {
        let m = d.available_modes@[d.selected_mode as int];
        lemma_hundredths_close(m.refresh_millihertz);
        lemma_mode_text_roundtrip(m.width, m.height, m.refresh_millihertz);
    }
}

/// The position written `<x>x<y>`.
pub open spec fn position_text(d: Display) -> Seq<char> {
    signed_decimal(d.position[0] as int) + seq!['x'] + signed_decimal(d.position[1] as int)
}

fn push_position(out: &mut String, d: &Display)
    ensures
        final(out)@ == old(out)@ + position_text(*d),
{
    push_signed_decimal(out, d.position[0] as i64);
    push_char(out, 'x');
    push_signed_decimal(out, d.position[1] as i64);
    assert(out@ =~= old(out)@ + position_text(*d));
}

fn push_saved_mode(out: &mut String, d: &Display)
    ensures
        final(out)@ == old(out)@ + saved_mode_text(*d),
{
    match d.selected_mode() {
        Some(m) => push_mode_text(out, m.width, m.height, m.refresh_millihertz),
        None => push_mode_text(out, d.width, d.height, d.refresh_millihertz),
    }
}

fn runtime_mode(d: &Display) -> (res: String)
    ensures
        res@ == runtime_mode_text(*d),
{
    match d.selected_mode() {
        Some(m) => m.config_value(),
        None => String::from_str("preferred"),
    }
}

// ---------------------------------------------------------------------
// The saved configuration
// ---------------------------------------------------------------------

/// The monitor rule of one display in the saved configuration.
pub open spec fn saved_rule(d: Display) -> Seq<char> {
    "hl.monitor({ output = \""@ + d.name@ + "\", mode = \""@ + saved_mode_text(d)
        + "\", position = \""@ + position_text(d) + "\", scale = "@ + fixed2(
        d.scale_milli as int,
    ) + ", transform = "@ + decimal(d.transform as nat) + " })\n"@
}

/// The opening of the saved configuration: a notice, the GDK scale, and a
/// catch-all rule for outputs that are not listed.
pub open spec fn config_preamble(gdk_scale: u8) -> Seq<char> {
    "-- Generated by DisplayeditorRav. Manual edits may be replaced.\n"@
        + "-- See https://wiki.hypr.land/Configuring/Basics/Monitors/\n\n"@
        + "hl.env(\"GDK_SCALE\", \""@ + decimal(gdk_scale as nat) + "\")\n\n"@
        + "-- Safe fallback for newly connected outputs.\n"@
        + "hl.monitor({ output = \"\", mode = \"preferred\", position = \"auto\", scale = \"auto\" })\n\n"@
}

/// The rules of `ds[..n]`, in order.
pub open spec fn saved_rules(ds: Seq<Display>, n: int) -> Seq<char>
    decreases n,
{
    if n <= 0 {
        Seq::empty()
    } else {
        saved_rules(ds, n - 1) + saved_rule(ds[n - 1])
    }
}

/// The saved monitor configuration for `ds`.
pub open spec fn omarchy_config(ds: Seq<Display>, gdk_scale: u8) -> Seq<char> {
    config_preamble(gdk_scale) + saved_rules(ds, ds.len() as int)
}

fn push_saved_rule(out: &mut String, d: &Display)
    ensures
        final(out)@ == old(out)@ + saved_rule(*d),
{
    out.append("hl.monitor({ output = \"");
    out.append(d.name.as_str());
    out.append("\", mode = \"");
    push_saved_mode(out, d);
    out.append("\", position = \"");
    push_position(out, d);
    out.append("\", scale = ");
    push_fixed2(out, d.scale_milli as i64);
    out.append(", transform = ");
    push_decimal(out, d.transform as u64);
    out.append(" })\n");
    assert(out@ =~= old(out)@ + saved_rule(*d));
}

/// The persistent monitor configuration (Lua): a notice, the GDK scale, a
/// catch-all rule for new outputs, then one rule per display, in order.
pub fn render_omarchy_lua(displays: &[Display], gdk_scale: u8) -> (res: String)
    ensures
        res@ == omarchy_config(displays@, gdk_scale),
{
    let mut out = String::new();
    out.append("-- Generated by DisplayeditorRav. Manual edits may be replaced.\n");
    out.append("-- See https://wiki.hypr.land/Configuring/Basics/Monitors/\n\n");
    out.append("hl.env(\"GDK_SCALE\", \"");
    push_decimal(&mut out, gdk_scale as u64);
    out.append("\")\n\n");
    out.append("-- Safe fallback for newly connected outputs.\n");
    out.append(
        "hl.monitor({ output = \"\", mode = \"preferred\", position = \"auto\", scale = \"auto\" })\n\n",
    );
    assert(out@ =~= config_preamble(gdk_scale));
    let ghost start = out@;
    let n = displays.len();
    let mut i: usize = 0;
    while i < n
        invariant
            n == displays@.len(),
            i <= n,
            out@ == start + saved_rules(displays@, i as int),
        decreases n - i,
    {
        push_saved_rule(&mut out, &displays[i]);
        i = i + 1;
        assert(out@ =~= start + saved_rules(displays@, i as int));
    }
    out
}

// ---------------------------------------------------------------------
// Runtime preview
// ---------------------------------------------------------------------

/// The rule table of one display for a runtime evaluation, e.g.
/// `{ output = "HDMI-A-1", mode = "3840x2160@60.00", position = "1536x0",
/// scale = 1.25, transform = 0, disabled = false }`.
pub open spec fn runtime_table(d: Display) -> Seq<char> {
    "{ output = "@ + lua_quoted(d.name@) + ", mode = "@ + lua_quoted(runtime_mode_text(d))
        + ", position = "@ + lua_quoted(position_text(d)) + ", scale = "@ + fixed2(
        d.scale_milli as int,
    ) + ", transform = "@ + decimal(d.transform as nat) + ", disabled = false }"@
}

/// One runtime call for one display.
pub open spec fn runtime_call(d: Display) -> Seq<char> {
    "hl.monitor("@ + runtime_table(d) + ")"@
}

/// The tables of `ds[..n]`, each followed by a comma.
pub open spec fn runtime_tables(ds: Seq<Display>, n: int) -> Seq<char>
    decreases n,
{
    if n <= 0 {
        Seq::empty()
    } else {
        runtime_tables(ds, n - 1) + runtime_table(ds[n - 1]) + ","@
    }
}

pub open spec fn layout_prefix() -> Seq<char> {
    "local layout = {"@
}

pub open spec fn layout_suffix() -> Seq<char> {
    "} for _, spec in ipairs(layout) do hl.monitor(spec) end"@
}

/// One Lua evaluation that applies the rules of every display of `ds`.
pub open spec fn runtime_layout(ds: Seq<Display>) -> Seq<char> {
    layout_prefix() + runtime_tables(ds, ds.len() as int) + layout_suffix()
}

fn push_runtime_table(out: &mut String, d: &Display)
    ensures
        final(out)@ == old(out)@ + runtime_table(*d),
{
    out.append("{ output = ");
    push_lua_string(out, d.name.as_str());
    out.append(", mode = ");
    let mode = runtime_mode(d);
    push_lua_string(out, mode.as_str());
    out.append(", position = ");
    let mut position = String::new();
    push_position(&mut position, d);
    assert(position@ =~= position_text(*d));
    push_lua_string(out, position.as_str());
    out.append(", scale = ");
    push_fixed2(out, d.scale_milli as i64);
    out.append(", transform = ");
    push_decimal(out, d.transform as u64);
    out.append(", disabled = false }");
    assert(out@ =~= old(out)@ + runtime_table(*d));
}

/// The runtime call that applies one display's rule, with every string
/// quoted for Lua.
pub fn runtime_monitor_value(display: &Display) -> (res: String)
    ensures
        res@ == runtime_call(*display),
{
    let mut out = String::new();
    out.append("hl.monitor(");
    push_runtime_table(&mut out, display);
    out.append(")");
    assert(out@ =~= runtime_call(*display));
    out
}

/// One Lua evaluation that applies the whole layout at once.
pub fn runtime_layout_lua(displays: &[Display]) -> (res: String)
    ensures
        res@ == runtime_layout(displays@),
{
    let mut out = String::new();
    out.append("local layout = {");
    let ghost start = out@;
    let n = displays.len();
    let mut i: usize = 0;
    while i < n
        invariant
            n == displays@.len(),
            i <= n,
            out@ == start + runtime_tables(displays@, i as int),
        decreases n - i,
    {
        push_runtime_table(&mut out, &displays[i]);
        out.append(",");
        i = i + 1;
        assert(out@ =~= start + runtime_tables(displays@, i as int));
    }
    out.append("} for _, spec in ipairs(layout) do hl.monitor(spec) end");
    assert(out@ =~= runtime_layout(displays@));
    out
}

proof fn lemma_runtime_tables_prefix(ds: Seq<Display>, i: int, n: int)
    requires
        0 <= i <= n,
    ensures
        runtime_tables(ds, n).len() >= runtime_tables(ds, i).len(),
        runtime_tables(ds, n).subrange(0, runtime_tables(ds, i).len() as int) == runtime_tables(
            ds,
            i,
        ),
    decreases n - i,
{
    if i < n {
        lemma_runtime_tables_prefix(ds, i, n - 1);
        let a = runtime_tables(ds, n - 1);
        let b = runtime_tables(ds, i);
        assert(runtime_tables(ds, n).subrange(0, b.len() as int) =~= a.subrange(
            0,
            b.len() as int,
        ));
    } else {
        assert(runtime_tables(ds, n).subrange(0, runtime_tables(ds, n).len() as int)
            =~= runtime_tables(ds, n));
    }
}

/// The one evaluation of a layout applies, for every display, exactly the
/// rule that `runtime_monitor_value` applies for it alone.
pub proof fn lemma_layout_applies_each_rule(ds: Seq<Display>, i: int)
    requires
        0 <= i < ds.len(),
    ensures
        exists|k: int|
            0 <= k && k + runtime_table(ds[i]).len() <= runtime_layout(ds).len()
                && #[trigger] runtime_layout(ds).subrange(k, k + runtime_table(ds[i]).len())
                == runtime_table(ds[i]),
        runtime_call(ds[i]) == "hl.monitor("@ + runtime_table(ds[i]) + ")"@,
{
    let t = runtime_table(ds[i]);
    let before = runtime_tables(ds, i);
    let k: int = (layout_prefix().len() + before.len()) as int;
    let tl: int = t.len() as int;
    lemma_runtime_tables_prefix(ds, i + 1, ds.len() as int);
    let upto = runtime_tables(ds, i + 1);
    let all = runtime_tables(ds, ds.len() as int);
    assert(upto == before + t + ","@);
    let layout = runtime_layout(ds);
    assert(layout.subrange(k, k + tl) =~= t) by {
        assert forall|j: int| 0 <= j < tl implies layout.subrange(k, k + tl)[j]
            == t[j] by {
            assert(layout[k + j] == all[before.len() + j]);
            assert(all.subrange(0, upto.len() as int)[before.len() + j] == upto[before.len()
                + j]);
            assert(upto[before.len() + j] == t[j]);
        }
    }
}

// ---------------------------------------------------------------------
// Labels and small texts
// ---------------------------------------------------------------------

/// The name of an orientation in the inspector.
pub fn transform_label(transform: u8) -> (res: &'static str)
    ensures
        transform == 1 ==> res@ == "Portrait (90°)"@,
        transform == 2 ==> res@ == "Landscape flipped"@,
        transform == 3 ==> res@ == "Portrait (270°)"@,
        transform != 1 && transform != 2 && transform != 3 ==> res@ == "Landscape"@,
{
    match transform {
        1 => "Portrait (90°)",
        2 => "Landscape flipped",
        3 => "Portrait (270°)",
        _ => "Landscape",
    }
}

/// One entry of the identify notice: `<number>: <name>`, numbered from 1.
pub open spec fn identify_entry(index: int, d: Display) -> Seq<char> {
    decimal((index + 1) as nat) + ": "@ + d.name@
}

/// The entries of `ds[..n]`, separated by `  •  `.
pub open spec fn identify_text(ds: Seq<Display>, n: int) -> Seq<char>
    decreases n,
{
    if n <= 0 {
        Seq::empty()
    } else if n == 1 {
        identify_entry(0, ds[0])
    } else {
        identify_text(ds, n - 1) + "  •  "@ + identify_entry(n - 1, ds[n - 1])
    }
}

/// The notice shown to identify the displays: each numbered from 1 with its
/// name, e.g. `1: eDP-1  •  2: HDMI-A-1`.
pub fn identify_summary(displays: &[Display]) -> (res: String)
    ensures
        res@ == identify_text(displays@, displays@.len() as int),
{
    let mut out = String::new();
    let n = displays.len();
    let mut i: usize = 0;
    while i < n
        invariant
            n == displays@.len(),
            i <= n,
            out@ == identify_text(displays@, i as int),
        decreases n - i,
    {
        if i > 0 {
            out.append("  •  ");
        }
        push_decimal(&mut out, i as u64 + 1);
        out.append(": ");
        out.append(displays[i].name.as_str());
        i = i + 1;
        assert(out@ =~= identify_text(displays@, i as int));
    }
    out
}

/// The name under which a configuration file is backed up.
pub open spec fn backup_name(file_name: Seq<char>, timestamp: u64) -> Seq<char> {
    file_name + ".bak."@ + decimal(timestamp as nat)
}

/// The backup name of `file_name` at `timestamp` (seconds since the epoch):
/// `<file_name>.bak.<timestamp>`.
pub fn backup_file_name(file_name: &str, timestamp: u64) -> (res: String)
    ensures
        res@ == backup_name(file_name@, timestamp),
{
    let mut out = String::from_str(file_name);
    out.append(".bak.");
    push_decimal(&mut out, timestamp);
    assert(out@ =~= backup_name(file_name@, timestamp));
    out
}

/// `name` is a backup name of `file_name`: it starts with `<file_name>.bak.`.
pub open spec fn is_backup_of(name: Seq<char>, file_name: Seq<char>) -> bool {
    has_prefix(name, file_name + ".bak."@)
}

/// `k` is the last of the backup names of `file_name` that come latest in
/// lexicographic order.
pub open spec fn is_latest_backup(names: Seq<String>, file_name: Seq<char>, k: int) -> bool {
    &&& 0 <= k < names.len()
    &&& is_backup_of(names[k]@, file_name)
    &&& forall|j: int|
        0 <= j < names.len() && is_backup_of(#[trigger] names[j]@, file_name) ==> !lex_less(
            names[k]@,
            names[j]@,
        )
    &&& forall|j: int|
        k < j < names.len() && is_backup_of(#[trigger] names[j]@, file_name) ==> lex_less(
            names[j]@,
            names[k]@,
        )
}

/// Among the file names of a directory, the index of the latest backup of
/// `file_name` (the greatest name that starts with `<file_name>.bak.`).
pub fn latest_backup_index(names: &[String], file_name: &str) -> (res: Option<usize>)
    ensures
        match res {
            Some(k) => is_latest_backup(names@, file_name@, k as int),
            None => forall|j: int|
                0 <= j < names@.len() ==> !is_backup_of(#[trigger] names@[j]@, file_name@),
        },
{
    let mut prefix_text = String::from_str(file_name);
    prefix_text.append(".bak.");
    let prefix = chars_of(prefix_text.as_str());
    let n = names.len();
    let mut best: Option<usize> = None;
    let mut i: usize = 0;
    while i < n
        invariant
            n == names@.len(),
            i <= n,
            prefix@ == file_name@ + ".bak."@,
            match best {
                Some(k) => {
                    &&& k < i
                    &&& is_backup_of(names@[k as int]@, file_name@)
                    &&& forall|j: int|
                        0 <= j < i && is_backup_of(#[trigger] names@[j]@, file_name@) ==> !lex_less(
                            names@[k as int]@,
                            names@[j]@,
                        )
                    &&& forall|j: int|
                        k < j < i && is_backup_of(#[trigger] names@[j]@, file_name@) ==> lex_less(
                            names@[j]@,
                            names@[k as int]@,
                        )
                },
                None => forall|j: int|
                    0 <= j < i ==> !is_backup_of(#[trigger] names@[j]@, file_name@),
            },
        decreases n - i,
    {
        let name = names[i].as_str();
        if starts_with(name, &prefix) {
            match best {
                Some(k) => {
                    if !text_less(name, names[k].as_str()) {
                        proof {
                            let nj = names@[i as int]@;
                            let nk = names@[k as int]@;
                            assert forall|j: int|
                                0 <= j < i + 1 && is_backup_of(#[trigger] names@[j]@, file_name@)
                                    implies !lex_less(nj, names@[j]@) by {
                                let nx = names@[j]@;
                                lemma_lex_total(nj, nx);
                                lemma_lex_total(nx, nk);
                                lemma_lex_total(nj, nk);
                                if j < i && lex_less(nj, nx) {
                                    if nx != nk {
                                        lemma_lex_transitive(nj, nx, nk);
                                    }
                                }
                            }
                        }
                        best = Some(i);
                    } else {
                        proof {
                            lemma_lex_total(names@[i as int]@, names@[k as int]@);
                        }
                    }
                },
                None => {
                    best = Some(i);
                    proof {
                        lemma_lex_total(names@[i as int]@, names@[i as int]@);
                    }
                },
            }
        }
        i = i + 1;
    }
    best
}

/// The desktop entry that puts the editor in the application launcher.
pub open spec fn desktop_entry_text(exec: Seq<char>) -> Seq<char> {
    "[Desktop Entry]\nType=Application\nName=DisplayeditorRav\nGenericName=Display Settings\nComment=Visual monitor layout editor for Omarchy\nExec="@
        + exec
        + "\nIcon=displayeditor-rav\nTerminal=false\nCategories=Settings;HardwareSettings;\nKeywords=display;monitor;hyprland;omarchy;settings;\nStartupNotify=true\n"@
}

/// The desktop entry for the executable at `exec`.
pub fn desktop_entry(exec: &str) -> (res: String)
    ensures
        res@ == desktop_entry_text(exec@),
{
    let mut out = String::from_str(
        "[Desktop Entry]\nType=Application\nName=DisplayeditorRav\nGenericName=Display Settings\nComment=Visual monitor layout editor for Omarchy\nExec=",
    );
    out.append(exec);
    out.append(
        "\nIcon=displayeditor-rav\nTerminal=false\nCategories=Settings;HardwareSettings;\nKeywords=display;monitor;hyprland;omarchy;settings;\nStartupNotify=true\n",
    );
    assert(out@ =~= desktop_entry_text(exec@));
    out
}

} // verus!
