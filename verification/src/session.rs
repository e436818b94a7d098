use vstd::prelude::*;
use vstd::string::*;

use crate::display::Display;

verus! {

/// The GDK scale for a layout: 2 when some display is scaled by 1.75 or
/// more, else 1.
pub open spec fn gdk_scale_spec(ds: Seq<Display>) -> u8 {
    if exists|i: int| 0 <= i < ds.len() && #[trigger] ds[i].scale_milli >= 1750 {
        2
    } else {
        1
    }
}

/// The GDK scale to write for a layout.
pub fn gdk_scale_for(displays: &[Display]) -> (res: u8)
    ensures
        res == gdk_scale_spec(displays@),
{
    let n = displays.len();
    let mut i: usize = 0;
    while i < n
        invariant
            n == displays@.len(),
            i <= n,
            forall|j: int| 0 <= j < i ==> #[trigger] displays@[j].scale_milli < 1750,
        decreases n - i,
    {
        if displays[i].scale_milli >= 1750 {
            return 2;
        }
        i = i + 1;
    }
    1
}

pub open spec fn within(a: int, b: int, tolerance: int) -> bool {
    -tolerance < a - b < tolerance
}

/// The live state `actual` shows what was asked of `wanted`: same position,
/// scale within 0.01, same transform, and, when a mode was selected, its
/// resolution with a refresh rate within 0.1 Hz.
pub open spec fn realized(wanted: Display, actual: Display) -> bool {
    &&& actual.position[0] == wanted.position[0]
    &&& actual.position[1] == wanted.position[1]
    &&& within(actual.scale_milli as int, wanted.scale_milli as int, 10)
    &&& actual.transform == wanted.transform
    &&& (wanted.selected_mode < wanted.available_modes@.len() ==> {
        let m = wanted.available_modes@[wanted.selected_mode as int];
        &&& actual.width == m.width
        &&& actual.height == m.height
        &&& within(actual.refresh_millihertz as int, m.refresh_millihertz as int, 100)
    })
}

/// The first live display with the name of `wanted` exists and shows it.
pub open spec fn realized_live(wanted: Display, live: Seq<Display>) -> bool {
    exists|k: int|
        0 <= k < live.len() && (#[trigger] live[k]).name@ == wanted.name@ && (forall|j: int|
            0 <= j < k ==> (#[trigger] live[j]).name@ != wanted.name@) && realized(
            wanted,
            live[k],
        )
}

fn realized_exec(wanted: &Display, actual: &Display) -> (res: bool)
    ensures
        res == realized(*wanted, *actual),
{
    if actual.position[0] != wanted.position[0] || actual.position[1] != wanted.position[1] {
        return false;
    }
    let ds: i64 = actual.scale_milli as i64 - wanted.scale_milli as i64;
    if !(-10 < ds && ds < 10) {
        return false;
    }
    if actual.transform != wanted.transform {
        return false;
    }
    match wanted.selected_mode() {
        Some(m) => {
            let dr: i64 = actual.refresh_millihertz as i64 - m.refresh_millihertz as i64;
            actual.width == m.width && actual.height == m.height && -100 < dr && dr < 100
        },
        None => true,
    }
}

/// Whether the live layout shows every requested display as asked: for
/// each, the first live display of the same name has its position, scale,
/// transform and selected mode.
pub fn runtime_matches(requested: &[Display], live: &[Display]) -> (res: bool)
    ensures
        res == forall|i: int|
            0 <= i < requested@.len() ==> realized_live(#[trigger] requested@[i], live@),
{
    let n = requested.len();
    let m = live.len();
    let mut i: usize = 0;
    while i < n
        invariant
            n == requested@.len(),
            m == live@.len(),
            i <= n,
            forall|x: int| 0 <= x < i ==> realized_live(#[trigger] requested@[x], live@),
        decreases n - i,
    {
        let wanted = &requested[i];
        let mut k: usize = 0;
        let mut found: Option<usize> = None;
        while k < m
            invariant_except_break
                found is None,
            invariant
                m == live@.len(),
                k <= m,
                forall|j: int| 0 <= j < k ==> (#[trigger] live@[j]).name@ != wanted.name@,
            ensures
                found matches Some(f) ==> f < m && live@[f as int].name@ == wanted.name@ && (
                forall|j: int| 0 <= j < f ==> (#[trigger] live@[j]).name@ != wanted.name@),
                found is None ==> forall|j: int|
                    0 <= j < m ==> (#[trigger] live@[j]).name@ != wanted.name@,
            decreases m - k,
        {
            if live[k].name == wanted.name {
                found = Some(k);
                break;
            }
            k = k + 1;
        }
        let ok = match found {
            Some(k) => realized_exec(wanted, &live[k]),
            None => false,
        };
        if !ok {
            proof {
                if realized_live(requested@[i as int], live@) {
                    let q = choose|q: int|
                        0 <= q < live@.len() && (#[trigger] live@[q]).name@ == wanted.name@ && (
                        forall|j: int| 0 <= j < q ==> (#[trigger] live@[j]).name@ != wanted.name@)
                            && realized(*wanted, live@[q]);
                    match found {
                        Some(k) => {
                            if q < k {
                                assert(live@[q].name@ != wanted.name@);
                            } else if q > k {
                                assert(live@[k as int].name@ != wanted.name@);
                            }
                        },
                        None => {
                            assert(live@[q].name@ != wanted.name@);
                        },
                    }
                }
            }
            return false;
        }
        i = i + 1;
    }
    true
}

/// The live display `a` has the name, position and transform of `w`, its
/// scale to within 0.01, and, when `w` has a mode selected, that mode's
/// resolution and its refresh rate to within 0.1 Hz.
pub open spec fn shows_as_asked(w: Display, a: Display) -> bool {
    &&& a.name@ == w.name@
    &&& a.position[0] == w.position[0]
    &&& a.position[1] == w.position[1]
    &&& a.transform == w.transform
    &&& -10 < a.scale_milli - w.scale_milli < 10
    &&& w.selected_mode < w.available_modes@.len() ==> {
        let m = w.available_modes@[w.selected_mode as int];
        &&& a.width == m.width
        &&& a.height == m.height
        &&& -100 < a.refresh_millihertz - m.refresh_millihertz < 100
    }
}

/// A requested display that the live layout realizes is shown as asked by
/// some live display: one with its name, position and transform, its scale
/// to within 0.01, and, when a mode was selected, that mode's resolution
/// and its refresh rate to within 0.1 Hz. So when `runtime_matches` holds,
/// every requested display is shown this way.
pub proof fn lemma_realized_display_shows_request(w: Display, live: Seq<Display>)
    requires
        realized_live(w, live),
    ensures
        exists|k: int| 0 <= k < live.len() && #[trigger] shows_as_asked(w, live[k]),
{
    let k = choose|k: int|
        0 <= k < live.len() && (#[trigger] live[k]).name@ == w.name@ && (forall|j: int|
            0 <= j < k ==> (#[trigger] live[j]).name@ != w.name@) && realized(w, live[k]);
    assert(shows_as_asked(w, live[k]));
}

/// What went wrong after a saved layout was reloaded, if anything. The
/// reload must have run and succeeded (`reload_ok`); the error check must
/// have run (`errors_ran`), succeeded (`errors_ok`) and printed nothing
/// (`errors_text`, trimmed); and the live layout must show what was asked
/// (`realized`).
pub open spec fn saved_layout_problem_spec(
    reload_ok: bool,
    errors_ran: bool,
    errors_ok: bool,
    errors_text: Seq<char>,
    realized: bool,
) -> Option<Seq<char>> {
    if reload_ok && errors_ran && errors_ok && errors_text.len() == 0 && realized {
        None
    } else if errors_ran && errors_text.len() > 0 {
        Some("Hyprland config error: "@ + errors_text)
    } else {
        Some("Hyprland did not realize the requested layout"@)
    }
}

/// The verdict on a saved and reloaded layout: `None` when it took effect,
/// else the message to show (Hyprland's own error text when it printed one).
pub fn saved_layout_problem(
    reload_ok: bool,
    errors_ran: bool,
    errors_ok: bool,
    errors_text: &str,
    realized: bool,
) -> (res: Option<String>)
    ensures
        match saved_layout_problem_spec(reload_ok, errors_ran, errors_ok, errors_text@, realized) {
            Some(e) => res matches Some(s) && s@ == e,
            None => res is None,
        },
{
    let empty = errors_text.is_empty();
    if reload_ok && errors_ran && errors_ok && empty && realized {
        None
    } else if errors_ran && !empty {
        let mut e = String::from_str("Hyprland config error: ");
        e.append(errors_text);
        Some(e)
    } else {
        Some(String::from_str("Hyprland did not realize the requested layout"))
    }
}

/// A live layout reads back as realizing itself when its display names are
/// distinct and each display runs its selected mode (as a layout read from
/// Hyprland does): `runtime_matches(ds, ds)` holds.
pub proof fn lemma_layout_realizes_itself(ds: Seq<Display>)
    requires
        forall|i: int|
            0 <= i < ds.len() && (#[trigger] ds[i]).selected_mode < ds[i].available_modes@.len()
                ==> ds[i].width == ds[i].available_modes@[ds[i].selected_mode as int].width
                && ds[i].height == ds[i].available_modes@[ds[i].selected_mode as int].height
                && within(
                ds[i].refresh_millihertz as int,
                ds[i].available_modes@[ds[i].selected_mode as int].refresh_millihertz as int,
                100,
            ),
        forall|i: int, j: int|
            0 <= i < ds.len() && 0 <= j < ds.len() && i != j ==> (#[trigger] ds[i]).name@
                != (#[trigger] ds[j]).name@,
    ensures
        forall|i: int| 0 <= i < ds.len() ==> realized_live(#[trigger] ds[i], ds),
{
    assert forall|i: int| 0 <= i < ds.len() implies realized_live(#[trigger] ds[i], ds) by {
        assert(forall|j: int| 0 <= j < i ==> (#[trigger] ds[j]).name@ != ds[i].name@);
        assert(realized(ds[i], ds[i]));
    }
}

} // verus!
