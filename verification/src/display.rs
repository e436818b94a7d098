use vstd::prelude::*;

use crate::mode::{parse_mode, parse_mode_spec, DisplayMode};

verus! {

/// The abstract content of a mode.
pub struct ModeView {
    pub raw: Seq<char>,
    pub width: u32,
    pub height: u32,
    pub refresh_millihertz: u32,
}

impl View for DisplayMode {
    type V = ModeView;

    open spec fn view(&self) -> ModeView {
        ModeView {
            raw: self.raw@,
            width: self.width,
            height: self.height,
            refresh_millihertz: self.refresh_millihertz,
        }
    }
}

/// One connected output as the editor holds it. The refresh rate is in
/// millihertz and the scale in thousandths (1.25 is 1250); `position` is the
/// logical top-left corner.
#[derive(Clone, Debug, PartialEq)]
pub struct Display {
    pub id: i32,
    pub name: String,
    pub description: String,
    pub width: u32,
    pub height: u32,
    pub refresh_millihertz: u32,
    pub position: [i32; 2],
    pub scale_milli: i32,
    pub transform: u8,
    pub focused: bool,
    pub available_modes: Vec<DisplayMode>,
    pub selected_mode: usize,
}

/// One monitor record as Hyprland reports it (`hyprctl monitors all -j`),
/// with the refresh rate in millihertz and the scale in thousandths.
#[derive(Clone, Debug, PartialEq)]
pub struct RawMonitor {
    pub id: i32,
    pub name: String,
    pub description: String,
    pub width: u32,
    pub height: u32,
    pub refresh_millihertz: u32,
    pub x: i32,
    pub y: i32,
    pub scale_milli: i32,
    pub transform: u8,
    pub focused: bool,
    pub available_modes: Vec<String>,
}

/// Transforms 1, 3, 5 and 7 turn the output by a quarter turn.
pub open spec fn is_rotated(transform: u8) -> bool {
    transform == 1 || transform == 3 || transform == 5 || transform == 7
}

/// The pixel size in use: that of the selected mode, else the reported one.
pub open spec fn pixel_size(d: Display) -> (u32, u32) {
    if d.selected_mode < d.available_modes@.len() {
        let m = d.available_modes@[d.selected_mode as int];
        (m.width, m.height)
    } else {
        (d.width, d.height)
    }
}

/// The pixel size as laid out: width and height swap for a quarter turn.
pub open spec fn oriented_size(d: Display) -> (u32, u32) {
    let (w, h) = pixel_size(d);
    if is_rotated(d.transform) {
        (h, w)
    } else {
        (w, h)
    }
}

/// The scale that divides pixels into logical units, in thousandths: the
/// display's scale when it is positive; a scale that is not positive (which
/// `validate_layout` rejects) counts as 0.25.
pub open spec fn layout_scale(d: Display) -> int {
    if d.scale_milli <= 0 {
        250
    } else {
        d.scale_milli as int
    }
}

/// An exact logical size: `width_thousandths / scale_milli` logical units
/// wide and `height_thousandths / scale_milli` high, where the numerators
/// are pixels times 1000 and `scale_milli` is the scale in thousandths.
#[derive(Clone, Copy, Debug, PartialEq, Eq)]
pub struct LogicalSize {
    pub width_thousandths: u64,
    pub height_thousandths: u64,
    pub scale_milli: u64,
}

/// `n / d` rounded to the nearest integer, ties away from zero (`n >= 0`, `d > 0`).
pub open spec fn div_round(n: int, d: int) -> int {
    (2 * n + d) / (2 * d)
}

/// A logical length (pixels divided by the layout scale), rounded, and held
/// at `i32::MAX` when larger.
pub open spec fn rounded_logical(pixels: u32, scale: int) -> i32 {
    let v = div_round(pixels * 1000, scale);
    if v > i32::MAX {
        i32::MAX
    } else {
        v as i32
    }
}

/// The logical width and height, rounded to whole units.
pub open spec fn rounded_size(d: Display) -> (i32, i32) {
    let (w, h) = oriented_size(d);
    (rounded_logical(w, layout_scale(d)), rounded_logical(h, layout_scale(d)))
}

fn rounded_logical_exec(pixels: u32, scale: i32) -> (res: i32)
    requires
        scale >= 1,
    ensures
        res == rounded_logical(pixels, scale as int),
{
    let n: u64 = pixels as u64 * 1000;
    let d: u64 = scale as u64;
    let v: u64 = (2 * n + d) / (2 * d);
    if v > 2147483647u64 {
        i32::MAX
    } else {
        v as i32
    }
}

impl Display {
    /// The selected mode, when `selected_mode` indexes one.
    pub fn selected_mode(&self) -> (res: Option<&DisplayMode>)
        ensures
            match res {
                Some(m) => self.selected_mode < self.available_modes@.len() && *m
                    == self.available_modes@[self.selected_mode as int],
                None => self.selected_mode >= self.available_modes@.len(),
            },
    {
        if self.selected_mode < self.available_modes.len() {
            Some(&self.available_modes[self.selected_mode])
        } else {
            None
        }
    }

    /// The pixel size of the selected mode (else the reported size), with
    /// width and height swapped for a quarter-turn transform.
    pub fn oriented_pixels(&self) -> (res: (u32, u32))
        ensures
            res == oriented_size(*self),
    {
        let (w, h) = match self.selected_mode() {
            Some(m) => (m.width, m.height),
            None => (self.width, self.height),
        };
        let t = self.transform;
        if t == 1 || t == 3 || t == 5 || t == 7 {
            (h, w)
        } else {
            (w, h)
        }
    }

    /// The scale that divides pixels into logical units, in thousandths.
    pub fn layout_scale_milli(&self) -> (res: i32)
        ensures
            res == layout_scale(*self),
            res >= 1,
    {
        if self.scale_milli <= 0 {
            250
        } else {
            self.scale_milli
        }
    }

    /// The exact logical size of the output on the layout: the pixels of the
    /// selected mode (else the reported ones), width and height swapped for a
    /// quarter-turn transform, divided by the scale.
    pub fn logical_size(&self) -> (res: LogicalSize)
        ensures
            res.width_thousandths == oriented_size(*self).0 as int * 1000,
            res.height_thousandths == oriented_size(*self).1 as int * 1000,
            res.scale_milli == layout_scale(*self),
    {
        let (w, h) = self.oriented_pixels();
        let s = self.layout_scale_milli();
        LogicalSize {
            width_thousandths: w as u64 * 1000,
            height_thousandths: h as u64 * 1000,
            scale_milli: s as u64,
        }
    }

    /// The logical size rounded to whole units (halves away from zero), each
    /// held at `i32::MAX` when larger; what edge snapping aligns to.
    pub fn rounded_logical_size(&self) -> (res: [i32; 2])
        ensures
            res[0] == rounded_size(*self).0,
            res[1] == rounded_size(*self).1,
    {
        let (w, h) = self.oriented_pixels();
        let s = self.layout_scale_milli();
        [rounded_logical_exec(w, s), rounded_logical_exec(h, s)]
    }
}

// ---------------------------------------------------------------------
// Modes from a monitor record
// ---------------------------------------------------------------------

/// The modes that read, in order, from the mode texts `texts`.
pub open spec fn parsed_modes(texts: Seq<Seq<char>>) -> Seq<ModeView>
    decreases texts.len(),
{
    if texts.len() == 0 {
        Seq::empty()
    } else {
        let rest = parsed_modes(texts.drop_last());
        match parse_mode_spec(texts.last()) {
            Some((w, h, r)) => rest.push(
                ModeView { raw: texts.last(), width: w, height: h, refresh_millihertz: r },
            ),
            None => rest,
        }
    }
}

pub open spec fn abs_diff(a: int, b: int) -> nat {
    if a >= b {
        (a - b) as nat
    } else {
        (b - a) as nat
    }
}

/// How far a mode is from a reported resolution and refresh rate: a pixel
/// counts as much as a thousand hertz.
pub open spec fn mode_distance(m: ModeView, width: u32, height: u32, refresh_millihertz: u32) -> nat {
    (abs_diff(m.width as int, width as int) + abs_diff(m.height as int, height as int))
        * 1_000_000 + abs_diff(m.refresh_millihertz as int, refresh_millihertz as int)
}

/// `i` is the first of the modes at the least distance.
pub open spec fn is_first_closest(
    modes: Seq<ModeView>,
    width: u32,
    height: u32,
    refresh_millihertz: u32,
    i: int,
) -> bool {
    &&& 0 <= i < modes.len()
    &&& forall|j: int|
        0 <= j < modes.len() ==> mode_distance(modes[i], width, height, refresh_millihertz)
            <= mode_distance(#[trigger] modes[j], width, height, refresh_millihertz)
    &&& forall|j: int|
        0 <= j < i ==> mode_distance(modes[i], width, height, refresh_millihertz)
            < mode_distance(#[trigger] modes[j], width, height, refresh_millihertz)
}

fn mode_distance_exec(m: &DisplayMode, width: u32, height: u32, refresh_millihertz: u32) -> (res:
    u64)
    ensures
        res == mode_distance(m@, width, height, refresh_millihertz),
{
    let dw: u64 = if m.width >= width {
        (m.width - width) as u64
    } else {
        (width - m.width) as u64
    };
    let dh: u64 = if m.height >= height {
        (m.height - height) as u64
    } else {
        (height - m.height) as u64
    };
    let dr: u64 = if m.refresh_millihertz >= refresh_millihertz {
        (m.refresh_millihertz - refresh_millihertz) as u64
    } else {
        (refresh_millihertz - m.refresh_millihertz) as u64
    };
    (dw + dh) * 1_000_000 + dr
}

/// The index of the first mode closest to the reported resolution and
/// refresh rate; 0 when there is no mode.
pub fn closest_mode_index(modes: &Vec<DisplayMode>, width: u32, height: u32, refresh_millihertz: u32) -> (res: usize)
    ensures
        modes@.len() == 0 ==> res == 0,
        modes@.len() > 0 ==> is_first_closest(
            modes@.map_values(|m: DisplayMode| m@),
            width,
            height,
            refresh_millihertz,
            res as int,
        ),
{
    let ghost views = modes@.map_values(|m: DisplayMode| m@);
    if modes.len() == 0 {
        return 0;
    }
    let mut best: usize = 0;
    let mut best_distance = mode_distance_exec(&modes[0], width, height, refresh_millihertz);
    let mut i: usize = 1;
    while i < modes.len()
        invariant
            1 <= i <= modes@.len(),
            views == modes@.map_values(|m: DisplayMode| m@),
            best < i,
            best_distance == mode_distance(views[best as int], width, height, refresh_millihertz),
            forall|j: int|
                0 <= j < i ==> best_distance <= mode_distance(
                    #[trigger] views[j],
                    width,
                    height,
                    refresh_millihertz,
                ),
            forall|j: int|
                0 <= j < best ==> best_distance < mode_distance(
                    #[trigger] views[j],
                    width,
                    height,
                    refresh_millihertz,
                ),
        decreases modes@.len() - i,
    {
        let d = mode_distance_exec(&modes[i], width, height, refresh_millihertz);
        assert(views[i as int] == modes@[i as int]@);
        if d < best_distance {
            best = i;
            best_distance = d;
        }
        i = i + 1;
    }
    best
}

/// Reads the modes of one monitor record, keeping those that read.
pub fn parse_modes(texts: &Vec<String>) -> (res: Vec<DisplayMode>)
    ensures
        res@.map_values(|m: DisplayMode| m@) == parsed_modes(
            texts@.map_values(|s: String| s@),
        ),
{
    let ghost all = texts@.map_values(|s: String| s@);
    let mut res: Vec<DisplayMode> = Vec::new();
    let mut j: usize = 0;
    while j < texts.len()
        invariant
            j <= texts@.len(),
            all == texts@.map_values(|s: String| s@),
            res@.map_values(|m: DisplayMode| m@) == parsed_modes(all.take(j as int)),
        decreases texts@.len() - j,
    {
        let parsed = parse_mode(texts[j].as_str());
        proof {
            assert(all.take(j + 1).drop_last() =~= all.take(j as int));
            assert(all.take(j + 1).last() == texts@[j as int]@);
        }
        match parsed {
            Some(m) => {
                res.push(m);
            },
            None => {},
        }
        j = j + 1;
        assert(res@.map_values(|m: DisplayMode| m@) =~= parsed_modes(all.take(j as int)));
    }
    assert(all.take(texts@.len() as int) =~= all);
    res
}

/// What the editor makes of one monitor record.
pub open spec fn display_from_monitor(d: Display, m: RawMonitor) -> bool {
    let modes = parsed_modes(m.available_modes@.map_values(|s: String| s@));
    &&& d.id == m.id
    &&& d.name@ == m.name@
    &&& d.description@ == m.description@
    &&& d.width == m.width
    &&& d.height == m.height
    &&& d.refresh_millihertz == m.refresh_millihertz
    &&& d.position@ == seq![m.x, m.y]
    &&& d.scale_milli == m.scale_milli
    &&& d.transform == m.transform
    &&& d.focused == m.focused
    &&& d.available_modes@.map_values(|x: DisplayMode| x@) == modes
    &&& (modes.len() == 0 ==> d.selected_mode == 0)
    &&& (modes.len() > 0 ==> is_first_closest(
        modes,
        m.width,
        m.height,
        m.refresh_millihertz,
        d.selected_mode as int,
    ))
}

/// Turns one monitor record into a display: the modes that read, and the
/// first of them closest to the reported resolution and refresh rate selected.
pub fn display_from_raw(m: &RawMonitor) -> (res: Display)
    ensures
        display_from_monitor(res, *m),
{
    let available_modes = parse_modes(&m.available_modes);
    let selected_mode = closest_mode_index(
        &available_modes,
        m.width,
        m.height,
        m.refresh_millihertz,
    );
    let res = Display {
        id: m.id,
        name: m.name.clone(),
        description: m.description.clone(),
        width: m.width,
        height: m.height,
        refresh_millihertz: m.refresh_millihertz,
        position: [m.x, m.y],
        scale_milli: m.scale_milli,
        transform: m.transform,
        focused: m.focused,
        available_modes,
        selected_mode,
    };
    assert(res.position@ =~= seq![m.x, m.y]);
    res
}

/// Turns the monitor records Hyprland reported into displays, in order.
pub fn displays_from_monitors(monitors: &[RawMonitor]) -> (res: Vec<Display>)
    ensures
        res@.len() == monitors@.len(),
        forall|i: int| 0 <= i < monitors@.len() ==> display_from_monitor(#[trigger] res@[i], monitors@[i]),
{
    let mut res: Vec<Display> = Vec::new();
    let mut i: usize = 0;
    while i < monitors.len()
        invariant
            i <= monitors@.len(),
            res@.len() == i,
            forall|k: int| 0 <= k < i ==> display_from_monitor(#[trigger] res@[k], monitors@[k]),
        decreases monitors@.len() - i,
    {
        let d = display_from_raw(&monitors[i]);
        res.push(d);
        i = i + 1;
    }
    res
}

// ---------------------------------------------------------------------
// The highest mode
// ---------------------------------------------------------------------

/// The ordering key of a mode: pixel count, then refresh rate.
pub open spec fn mode_key_less(a: ModeView, b: ModeView) -> bool {
    let pa = a.width as int * a.height as int;
    let pb = b.width as int * b.height as int;
    pa < pb || (pa == pb && a.refresh_millihertz < b.refresh_millihertz)
}

/// `i` is the last of the modes with the most pixels and, among those, the
/// highest refresh rate.
pub open spec fn is_last_highest(modes: Seq<ModeView>, i: int) -> bool {
    &&& 0 <= i < modes.len()
    &&& forall|j: int| 0 <= j < modes.len() ==> !mode_key_less(modes[i], #[trigger] modes[j])
    &&& forall|j: int| i < j < modes.len() ==> mode_key_less(#[trigger] modes[j], modes[i])
}

fn pixel_count(width: u32, height: u32) -> (res: u64)
    ensures
        res == width as int * height as int,
{
    assert(width as int * height as int <= u32::MAX as int * u32::MAX as int) by (nonlinear_arith);
    width as u64 * height as u64
}

/// The index of the mode with the highest resolution, and among equal
/// resolutions the highest refresh rate (the last such mode); `None` when
/// the display has no mode.
pub fn highest_mode_index(display: &Display) -> (res: Option<usize>)
    ensures
        ({
            let modes = display.available_modes@.map_values(|m: DisplayMode| m@);
            match res {
                Some(i) => is_last_highest(modes, i as int),
                None => modes.len() == 0,
            }
        }),
{
    let modes = &display.available_modes;
    let ghost views = modes@.map_values(|m: DisplayMode| m@);
    if modes.len() == 0 {
        return None;
    }
    let mut best: usize = 0;
    let mut best_pixels: u64 = pixel_count(modes[0].width, modes[0].height);
    let mut best_refresh: u32 = modes[0].refresh_millihertz;
    let mut i: usize = 1;
    while i < modes.len()
        invariant
            1 <= i <= modes@.len(),
            views == modes@.map_values(|m: DisplayMode| m@),
            best < i,
            best_pixels == views[best as int].width as int * views[best as int].height as int,
            best_refresh == views[best as int].refresh_millihertz,
            forall|j: int| 0 <= j < i ==> !mode_key_less(views[best as int], #[trigger] views[j]),
            forall|j: int| best < j < i ==> mode_key_less(#[trigger] views[j], views[best as int]),
        decreases modes@.len() - i,
    {
        let pixels: u64 = pixel_count(modes[i].width, modes[i].height);
        let refresh = modes[i].refresh_millihertz;
        assert(views[i as int] == modes@[i as int]@);
        if pixels > best_pixels || (pixels == best_pixels && refresh >= best_refresh) {
            best = i;
            best_pixels = pixels;
            best_refresh = refresh;
        }
        i = i + 1;
    }
    Some(best)
}

// ---------------------------------------------------------------------
// Abstract content and copies
// ---------------------------------------------------------------------

/// The abstract content of a display.
pub struct DisplayView {
    pub id: i32,
    pub name: Seq<char>,
    pub description: Seq<char>,
    pub width: u32,
    pub height: u32,
    pub refresh_millihertz: u32,
    pub position: [i32; 2],
    pub scale_milli: i32,
    pub transform: u8,
    pub focused: bool,
    pub available_modes: Seq<ModeView>,
    pub selected_mode: usize,
}

impl View for Display {
    type V = DisplayView;

    open spec fn view(&self) -> DisplayView {
        DisplayView {
            id: self.id,
            name: self.name@,
            description: self.description@,
            width: self.width,
            height: self.height,
            refresh_millihertz: self.refresh_millihertz,
            position: self.position,
            scale_milli: self.scale_milli,
            transform: self.transform,
            focused: self.focused,
            available_modes: self.available_modes@.map_values(|m: DisplayMode| m@),
            selected_mode: self.selected_mode,
        }
    }
}

/// The contents of a layout, display by display.
pub open spec fn layout_view(ds: Seq<Display>) -> Seq<DisplayView> {
    ds.map_values(|d: Display| d@)
}

/// A copy of a mode.
pub fn copy_mode(m: &DisplayMode) -> (res: DisplayMode)
    ensures
        res@ == m@,
{
    DisplayMode {
        raw: m.raw.clone(),
        width: m.width,
        height: m.height,
        refresh_millihertz: m.refresh_millihertz,
    }
}

/// A copy of a display.
pub fn copy_display(d: &Display) -> (res: Display)
    ensures
        res@ == d@,
{
    let mut modes: Vec<DisplayMode> = Vec::new();
    let n = d.available_modes.len();
    let mut i: usize = 0;
    while i < n
        invariant
            n == d.available_modes@.len(),
            i <= n,
            modes@.len() == i,
            forall|k: int| 0 <= k < i ==> (#[trigger] modes@[k])@ == d.available_modes@[k]@,
        decreases n - i,
    {
        let m = copy_mode(&d.available_modes[i]);
        modes.push(m);
        i = i + 1;
    }
    assert(modes@.map_values(|m: DisplayMode| m@) =~= d.available_modes@.map_values(
        |m: DisplayMode| m@,
    ));
    let res = Display {
        id: d.id,
        name: d.name.clone(),
        description: d.description.clone(),
        width: d.width,
        height: d.height,
        refresh_millihertz: d.refresh_millihertz,
        position: d.position,
        scale_milli: d.scale_milli,
        transform: d.transform,
        focused: d.focused,
        available_modes: modes,
        selected_mode: d.selected_mode,
    };
    assert(res@ =~= d@);
    res
}

/// A copy of a layout.
pub fn copy_layout(ds: &[Display]) -> (res: Vec<Display>)
    ensures
        layout_view(res@) == layout_view(ds@),
{
    let mut res: Vec<Display> = Vec::new();
    let n = ds.len();
    let mut i: usize = 0;
    while i < n
        invariant
            n == ds@.len(),
            i <= n,
            res@.len() == i,
            forall|k: int| 0 <= k < i ==> (#[trigger] res@[k])@ == ds@[k]@,
        decreases n - i,
    {
        let d = copy_display(&ds[i]);
        res.push(d);
        i = i + 1;
    }
    assert(layout_view(res@) =~= layout_view(ds@));
    res
}

} // verus!
