//! The editor's session and the decisions of its preview, revert and save
//! protocols. Each step takes the session and what the outside world
//! answered, and gives the next session and what to do next; the program
//! around the library performs that action and reports back.

use vstd::prelude::*;
use vstd::string::*;

use crate::display::{copy_layout, layout_view, Display, DisplayView};
use crate::numbers::{decimal, push_decimal};
use crate::render::{omarchy_config, render_omarchy_lua};
use crate::session::{
    gdk_scale_for, gdk_scale_spec, lemma_realized_display_shows_request, realized_live,
    runtime_matches, saved_layout_problem, saved_layout_problem_spec, shows_as_asked,
};
use crate::validate::{layout_errors, texts, validate_layout};

verus! {

// ---------------------------------------------------------------------
// The session
// ---------------------------------------------------------------------

/// A running preview: the layout to go back to, and the time (in
/// milliseconds on the caller's clock) at which it is reverted.
pub struct Preview {
    pub original: Vec<Display>,
    pub deadline_ms: u64,
}

/// The abstract content of a preview.
pub struct PreviewView {
    pub original: Seq<DisplayView>,
    pub deadline_ms: u64,
}

impl View for Preview {
    type V = PreviewView;

    open spec fn view(&self) -> PreviewView {
        PreviewView { original: layout_view(self.original@), deadline_ms: self.deadline_ms }
    }
}

/// What the editor holds: the layout being edited, the layout last known to
/// be live (`baseline`), the selected display, the running preview, the GDK
/// scale to save, the status line, the error line, and the problem of a
/// save that is being rolled back.
pub struct Session {
    pub displays: Vec<Display>,
    pub baseline: Vec<Display>,
    pub selected: usize,
    pub preview: Option<Preview>,
    pub gdk_scale: u8,
    pub status: String,
    pub error: Option<String>,
    pub save_problem: Option<String>,
}

/// The abstract content of a session, field by field.
pub struct SessionView {
    pub displays: Seq<DisplayView>,
    pub baseline: Seq<DisplayView>,
    pub selected: usize,
    pub preview: Option<PreviewView>,
    pub gdk_scale: u8,
    pub status: Seq<char>,
    pub error: Option<Seq<char>>,
    pub save_problem: Option<Seq<char>>,
}

/// The characters of an optional text.
pub open spec fn opt_text(o: Option<String>) -> Option<Seq<char>> {
    match o {
        Some(s) => Some(s@),
        None => None,
    }
}

/// The content of an optional preview.
pub open spec fn opt_preview(o: Option<Preview>) -> Option<PreviewView> {
    match o {
        Some(p) => Some(p@),
        None => None,
    }
}

impl View for Session {
    type V = SessionView;

    open spec fn view(&self) -> SessionView {
        SessionView {
            displays: layout_view(self.displays@),
            baseline: layout_view(self.baseline@),
            selected: self.selected,
            preview: opt_preview(self.preview),
            gdk_scale: self.gdk_scale,
            status: self.status@,
            error: opt_text(self.error),
            save_problem: opt_text(self.save_problem),
        }
    }
}

impl Session {
    /// A session with nothing read yet.
    pub fn new() -> (res: Session)
        ensures
            res@.displays.len() == 0,
            res@.baseline.len() == 0,
            res@.selected == 0,
            res@.preview is None,
            res@.gdk_scale == 1,
            res@.status == "Reading connected displays…"@,
            res@.error is None,
            res@.save_problem is None,
    {
        Session {
            displays: Vec::new(),
            baseline: Vec::new(),
            selected: 0,
            preview: None,
            gdk_scale: 1,
            status: String::from_str("Reading connected displays…"),
            error: None,
            save_problem: None,
        }
    }
}

/// The session `v` with another error line.
pub open spec fn with_error(v: SessionView, e: Option<Seq<char>>) -> SessionView {
    SessionView { error: e, ..v }
}

fn copy_text(o: &Option<String>) -> (res: Option<String>)
    ensures
        res == *o,
{
    match o {
        Some(s) => Some(s.clone()),
        None => None,
    }
}

fn copy_preview(o: &Option<Preview>) -> (res: Option<Preview>)
    ensures
        opt_preview(res) == opt_preview(*o),
{
    match o {
        Some(p) => Some(Preview { original: copy_layout(&p.original), deadline_ms: p.deadline_ms }),
        None => None,
    }
}

/// A copy of a session.
pub fn copy_session(s: &Session) -> (res: Session)
    ensures
        res@ == s@,
{
    Session {
        displays: copy_layout(&s.displays),
        baseline: copy_layout(&s.baseline),
        selected: s.selected,
        preview: copy_preview(&s.preview),
        gdk_scale: s.gdk_scale,
        status: s.status.clone(),
        error: copy_text(&s.error),
        save_problem: copy_text(&s.save_problem),
    }
}

// ---------------------------------------------------------------------
// Text helpers
// ---------------------------------------------------------------------

fn concat(a: &str, b: &str) -> (res: String)
    ensures
        res@ == a@ + b@,
{
    let mut out = String::from_str(a);
    out.append(b);
    out
}

/// `parts` written one after another with `sep` between each two.
pub open spec fn joined(parts: Seq<Seq<char>>, sep: Seq<char>) -> Seq<char>
    decreases parts.len(),
{
    if parts.len() == 0 {
        Seq::empty()
    } else if parts.len() == 1 {
        parts[0]
    } else {
        joined(parts.drop_last(), sep) + sep + parts.last()
    }
}

/// The messages of `parts`, joined by `sep`.
pub fn join_texts(parts: &Vec<String>, sep: &str) -> (res: String)
    ensures
        res@ == joined(texts(parts@), sep@),
{
    let n = parts.len();
    if n == 0 {
        return String::new();
    }
    let mut out = parts[0].clone();
    assert(texts(parts@).take(1).drop_last() =~= Seq::<Seq<char>>::empty());
    assert(out@ == joined(texts(parts@).take(1), sep@));
    let mut i: usize = 1;
    while i < n
        invariant
            n == parts@.len(),
            1 <= i <= n,
            out@ == joined(texts(parts@).take(i as int), sep@),
        decreases n - i,
    {
        out.append(sep);
        out.append(parts[i].as_str());
        assert(texts(parts@).take(i as int + 1).drop_last() =~= texts(parts@).take(i as int));
        i = i + 1;
    }
    assert(texts(parts@).take(n as int) =~= texts(parts@));
    out
}

// ---------------------------------------------------------------------
// Preview
// ---------------------------------------------------------------------

/// How long a preview runs before it is reverted, in milliseconds.
pub const PREVIEW_MILLIS: u64 = 15000;

/// What happened since the last preview step.
pub enum PreviewEvent {
    /// The user asked for a preview of the edited layout.
    Requested,
    /// The safety watchdog was started, or could not be.
    Armed(Result<(), String>),
    /// The edited layout was applied at runtime, or refused.
    Applied(Result<(), String>),
    /// The live layout was read back after the preview was applied.
    LiveRead(Result<Vec<Display>, String>),
    /// Time passed.
    Tick,
}

/// What to do next for a preview.
pub enum PreviewAction {
    Nothing,
    /// Start a watchdog that restores this layout unless acknowledged.
    ArmWatchdog(Vec<Display>),
    /// Apply this layout at runtime.
    Apply(Vec<Display>),
    /// Tell the watchdog to stand down and forget it.
    AcknowledgeWatchdog,
    /// Read the live layout.
    ReadLive,
    /// Revert the preview, with this status line.
    RevertPreview(String),
}

pub open spec fn preview_deadline(now_ms: u64) -> u64 {
    if now_ms + PREVIEW_MILLIS <= u64::MAX {
        (now_ms + PREVIEW_MILLIS) as u64
    } else {
        u64::MAX
    }
}

pub open spec fn preview_status() -> Seq<char> {
    "Preview active — confirm within 15 seconds"@
}

pub open spec fn unrealized_message() -> Seq<char> {
    "Hyprland did not realize the requested layout; revert or wait for rollback"@
}

pub open spec fn live_read_prefix() -> Seq<char> {
    "Could not read the live layout: "@
}

pub open spec fn timeout_reason() -> Seq<char> {
    "Preview timed out and was reverted"@
}

/// Every display of `requested` shows as asked in `live`.
pub open spec fn layout_realized(requested: Seq<Display>, live: Seq<Display>) -> bool {
    forall|i: int| 0 <= i < requested.len() ==> realized_live(#[trigger] requested[i], live)
}

/// The session once the edited layout runs as a preview: the baseline is
/// the layout to go back to, at `now_ms` + 15 s.
pub open spec fn previewing(v: SessionView, now_ms: u64) -> SessionView {
    SessionView {
        preview: Some(PreviewView { original: v.baseline, deadline_ms: preview_deadline(now_ms) }),
        status: preview_status(),
        error: None,
        ..v
    }
}

/// One step of the preview protocol.
///
/// A request is ignored while a preview runs or when there is no display;
/// a layout that fails validation only sets the error line to its messages
/// joined by " · ". Otherwise the watchdog is armed with the baseline, then
/// the edited layout is applied; once applied, the preview runs until
/// `now_ms` + 15 s with the baseline as the layout to go back to, and the
/// live layout is read back to check that it took effect. A tick at or
/// after the deadline asks for the preview to be reverted.
pub fn preview_step(s: &Session, ev: &PreviewEvent, now_ms: u64) -> (res: (Session, PreviewAction))
    ensures
        ev is Requested && (s.preview is Some || s.displays@.len() == 0) ==> res.0@ == s@
            && res.1 is Nothing,
        ev is Requested && s.preview is None && s.displays@.len() > 0 && layout_errors(
            s.displays@,
        ).len() > 0 ==> res.0@ == with_error(s@, Some(joined(layout_errors(s.displays@), " · "@)))
            && res.1 is Nothing,
        ev is Requested && s.preview is None && s.displays@.len() > 0 && layout_errors(
            s.displays@,
        ).len() == 0 ==> res.0@ == s@ && (res.1 matches PreviewAction::ArmWatchdog(l) && layout_view(
            l@,
        ) == s@.baseline),
        ev matches PreviewEvent::Armed(Err(e)) ==> res.0@ == with_error(s@, Some(e@)) && res.1 is Nothing,
        ev matches PreviewEvent::Armed(Ok(_)) ==> res.0@ == s@ && (res.1 matches PreviewAction::Apply(
            l,
        ) && layout_view(l@) == s@.displays),
        ev matches PreviewEvent::Applied(Err(e)) ==> res.0@ == with_error(s@, Some(e@))
            && res.1 is AcknowledgeWatchdog,
        ev matches PreviewEvent::Applied(Ok(_)) ==> res.0@ == previewing(s@, now_ms)
            && res.1 is ReadLive,
        ev matches PreviewEvent::LiveRead(Ok(live)) ==> res.0@ == with_error(
            s@,
            if layout_realized(s.displays@, live@) {
                None
            } else {
                Some(unrealized_message())
            },
        ) && res.1 is Nothing,
        ev matches PreviewEvent::LiveRead(Err(e)) ==> res.0@ == with_error(
            s@,
            Some(live_read_prefix() + e@),
        ) && res.1 is Nothing,
        ev is Tick ==> res.0@ == s@ && (if s.preview matches Some(p) && now_ms >= p.deadline_ms {
            res.1 matches PreviewAction::RevertPreview(r) && r@ == timeout_reason()
        } else {
            res.1 is Nothing
        }),
{
    let mut next = copy_session(s);
    match ev {
        PreviewEvent::Requested => {
            if s.preview.is_some() || s.displays.len() == 0 {
                return (next, PreviewAction::Nothing);
            }
            let errors = validate_layout(&s.displays);
            if errors.len() > 0 {
                next.error = Some(join_texts(&errors, " · "));
                return (next, PreviewAction::Nothing);
            }
            (next, PreviewAction::ArmWatchdog(copy_layout(&s.baseline)))
        },
        PreviewEvent::Armed(Err(e)) => {
            next.error = Some(e.clone());
            (next, PreviewAction::Nothing)
        },
        PreviewEvent::Armed(Ok(_)) => (next, PreviewAction::Apply(copy_layout(&s.displays))),
        PreviewEvent::Applied(Err(e)) => {
            next.error = Some(e.clone());
            (next, PreviewAction::AcknowledgeWatchdog)
        },
        PreviewEvent::Applied(Ok(_)) => {
            let deadline_ms = if now_ms <= u64::MAX - PREVIEW_MILLIS {
                now_ms + PREVIEW_MILLIS
            } else {
                u64::MAX
            };
            next.preview = Some(Preview { original: copy_layout(&s.baseline), deadline_ms });
            next.status = String::from_str("Preview active — confirm within 15 seconds");
            next.error = None;
            (next, PreviewAction::ReadLive)
        },
        PreviewEvent::LiveRead(Ok(live)) => {
            if runtime_matches(&s.displays, live) {
                next.error = None;
            } else {
                next.error = Some(
                    String::from_str(
                        "Hyprland did not realize the requested layout; revert or wait for rollback",
                    ),
                );
            }
            (next, PreviewAction::Nothing)
        },
        PreviewEvent::LiveRead(Err(e)) => {
            next.error = Some(concat("Could not read the live layout: ", e.as_str()));
            (next, PreviewAction::Nothing)
        },
        PreviewEvent::Tick => {
            match &s.preview {
                Some(p) => {
                    if now_ms >= p.deadline_ms {
                        return (
                            next,
                            PreviewAction::RevertPreview(
                                String::from_str("Preview timed out and was reverted"),
                            ),
                        );
                    }
                },
                None => {},
            }
            (next, PreviewAction::Nothing)
        },
    }
}

// ---------------------------------------------------------------------
// Revert
// ---------------------------------------------------------------------

/// What happened since the last revert step.
pub enum RevertEvent {
    /// The preview is to be reverted, with this status line.
    Requested(String),
    /// The layout to go back to was applied at runtime, or refused; the
    /// first field is the status line of the request.
    Applied(String, Result<(), String>),
}

/// What to do next for a revert.
pub enum RevertAction {
    Nothing,
    /// Apply this layout at runtime.
    Apply(Vec<Display>),
    /// Tell the watchdog to stand down and forget it.
    AcknowledgeWatchdog,
    /// Forget the watchdog and leave it armed, so that it restores the
    /// layout itself.
    ReleaseWatchdog,
}

pub open spec fn revert_failed_prefix() -> Seq<char> {
    "Could not restore display layout; watchdog remains armed: "@
}

/// The session once the layout from before the preview is live again:
/// it is both the edited and the baseline layout, the preview has ended,
/// and the status line is `reason`.
pub open spec fn reverted(v: SessionView, reason: Seq<char>) -> SessionView {
    match v.preview {
        Some(p) => SessionView {
            displays: p.original,
            baseline: p.original,
            preview: None,
            status: reason,
            error: None,
            ..v
        },
        None => v,
    }
}

/// Reverting a preview that was just started, whenever it happens and with
/// whatever status line, brings back exactly the layout that was live
/// before it, as both the edited and the baseline layout, and no preview
/// runs any more.
pub proof fn lemma_revert_undoes_preview(v: SessionView, now_ms: u64, reason: Seq<char>)
    ensures
        reverted(previewing(v, now_ms), reason).displays == v.baseline,
        reverted(previewing(v, now_ms), reason).baseline == v.baseline,
        reverted(previewing(v, now_ms), reason).preview is None,
        reverted(previewing(v, now_ms), reason).selected == v.selected,
        reverted(previewing(v, now_ms), reason).gdk_scale == v.gdk_scale,
{
}

/// One step of reverting a preview.
///
/// With no preview running nothing happens. Otherwise the layout from
/// before the preview is applied; once it is, it becomes both the edited
/// and the baseline layout, the preview ends, the status line is the
/// reason given and the watchdog is acknowledged. If it is refused, the
/// preview still ends and the watchdog is left armed to restore the layout
/// itself.
pub fn revert_step(s: &Session, ev: &RevertEvent) -> (res: (Session, RevertAction))
    ensures
        s.preview is None ==> res.0@ == s@ && res.1 is Nothing,
        s.preview matches Some(p) ==> (ev is Requested ==> res.0@ == s@ && (
        res.1 matches RevertAction::Apply(l) && layout_view(l@) == p@.original)),
        s.preview is Some ==> (ev matches RevertEvent::Applied(reason, Ok(_)) ==> res.0@
            == reverted(s@, reason@) && res.1 is AcknowledgeWatchdog),
        s.preview is Some ==> (ev matches RevertEvent::Applied(_, Err(e)) ==> res.0@ == (
        SessionView { preview: None, error: Some(revert_failed_prefix() + e@), ..s@ })
            && res.1 is ReleaseWatchdog),
{
    let mut next = copy_session(s);
    match &s.preview {
        None => (next, RevertAction::Nothing),
        Some(p) => match ev {
            RevertEvent::Requested(_) => (next, RevertAction::Apply(copy_layout(&p.original))),
            RevertEvent::Applied(reason, Ok(_)) => {
                next.displays = copy_layout(&p.original);
                next.baseline = copy_layout(&p.original);
                next.preview = None;
                next.status = reason.clone();
                next.error = None;
                (next, RevertAction::AcknowledgeWatchdog)
            },
            RevertEvent::Applied(_, Err(e)) => {
                next.preview = None;
                next.error = Some(
                    concat("Could not restore display layout; watchdog remains armed: ", e.as_str()),
                );
                (next, RevertAction::ReleaseWatchdog)
            },
        },
    }
}

// ---------------------------------------------------------------------
// Keep and save
// ---------------------------------------------------------------------

/// What the program saw when it reloaded Hyprland after writing the saved
/// layout: whether the reload ran and succeeded; whether the error check
/// ran, succeeded, and what it printed (trimmed); the live layout read back;
/// and where the layout was written and its backup, if one was made.
pub struct ReloadReport {
    pub reload_ok: bool,
    pub errors_ran: bool,
    pub errors_ok: bool,
    pub errors_text: String,
    pub live: Result<Vec<Display>, String>,
    pub config: String,
    pub backup: Option<String>,
}

/// What happened since the last save step.
pub enum SaveEvent {
    /// The user asked to keep the layout and save it.
    Requested,
    /// The configuration text passed Hyprland's check.
    PreflightPassed,
    /// The configuration text failed Hyprland's check, with this message.
    PreflightFailed(String),
    /// The configuration was written (with a backup of the old one).
    Written,
    /// The configuration could not be written, for this reason.
    WriteFailed(String),
    /// Hyprland was reloaded and checked.
    Reloaded(ReloadReport),
    /// The old configuration was put back and Hyprland reloaded; the result
    /// of putting it back.
    Restored(Result<(), String>),
    /// The preview was reverted after a failed save.
    Reverted,
}

/// What to do next for a save.
pub enum SaveAction {
    Stop,
    /// Check this configuration text with Hyprland.
    Preflight(String),
    /// Write this configuration text, keeping a backup of the old one.
    Write(String),
    /// Reload Hyprland, read its errors and the live layout.
    ReloadAndCheck,
    /// Tell the preview's watchdog to stand down and forget it.
    AcknowledgeWatchdog,
    /// Put back the configuration from this backup (or remove the written
    /// one when there was none), then reload Hyprland.
    RestoreConfig(Option<String>),
    /// Revert the preview, with this status line.
    RevertPreview(String),
}

pub open spec fn write_failed_prefix() -> Seq<char> {
    "Could not save config: "@
}

/// Whether the reloaded layout shows the edited one.
pub open spec fn report_realized(s: Session, r: ReloadReport) -> bool {
    r.live matches Ok(live) && layout_realized(s.displays@, live@)
}

/// What went wrong with a reloaded save, if anything.
pub open spec fn report_problem(s: Session, r: ReloadReport) -> Option<Seq<char>> {
    saved_layout_problem_spec(
        r.reload_ok,
        r.errors_ran,
        r.errors_ok,
        r.errors_text@,
        report_realized(s, r),
    )
}

/// The status line after a save.
pub open spec fn saved_status(r: ReloadReport) -> Seq<char> {
    match r.backup {
        Some(b) => "Saved; backup: "@ + b@,
        None => "Saved "@ + r.config@,
    }
}

/// The end of the error line after the old configuration was put back.
pub open spec fn restore_suffix(r: Result<(), String>) -> Seq<char> {
    match r {
        Ok(_) => "; original configuration restored"@,
        Err(e) => "; configuration restore failed: "@ + e@,
    }
}

pub open spec fn invalid_save_reason() -> Seq<char> {
    "Invalid saved layout reverted"@
}

fn problem_text(s: &Session, r: &ReloadReport) -> (res: Option<String>)
    ensures
        opt_text(res) == report_problem(*s, *r),
{
    let realized = match &r.live {
        Ok(live) => runtime_matches(&s.displays, live),
        Err(_) => false,
    };
    let res = saved_layout_problem(
        r.reload_ok,
        r.errors_ran,
        r.errors_ok,
        r.errors_text.as_str(),
        realized,
    );
    res
}

/// A save is only accepted when it took effect: if the reload report gives
/// no problem, the reload succeeded, Hyprland printed no error, and the
/// live layout was read and shows each edited display as asked (some live
/// display has its name, position, transform, scale, and selected mode).
pub proof fn lemma_accepted_save_took_effect(s: Session, r: ReloadReport, i: int)
    requires
        report_problem(s, r) is None,
        0 <= i < s.displays@.len(),
    ensures
        r.reload_ok,
        r.errors_ran && r.errors_ok && r.errors_text@.len() == 0,
        r.live matches Ok(live) && exists|k: int|
            0 <= k < live@.len() && #[trigger] shows_as_asked(s.displays@[i], live@[k]),
{
    match r.live {
        Ok(live) => {
            assert(realized_live(s.displays@[i], live@));
            lemma_realized_display_shows_request(s.displays@[i], live@);
        },
        Err(_) => {},
    }
}

/// The session once the edited layout was saved and took effect: it is the
/// baseline, no preview runs, and the status line is `status`.
pub open spec fn saved(v: SessionView, status: Seq<char>) -> SessionView {
    SessionView { baseline: v.displays, preview: None, status, error: None, ..v }
}

/// Once a save took effect the saved layout stays: a revert afterwards
/// changes nothing, and the baseline is the layout that was edited.
pub proof fn lemma_saved_layout_stays(v: SessionView, status: Seq<char>, reason: Seq<char>)
    ensures
        reverted(saved(v, status), reason) == saved(v, status),
        saved(v, status).baseline == v.displays,
        saved(v, status).displays == v.displays,
{
}

/// One step of keeping the edited layout and saving it.
///
/// The configuration text for the edited layout and GDK scale is checked
/// first, then written; a failure of either ends the save with its message
/// (a write failure after "Could not save config: "). Then Hyprland is
/// reloaded and checked. If the layout took effect, it becomes the
/// baseline, the preview ends (its watchdog is acknowledged) and the status
/// line names the backup, or the configuration when there was none.
/// Otherwise the old configuration is put back, the preview is reverted,
/// and the error line is the problem followed by how the restore went.
pub fn keep_and_save_step(s: &Session, ev: &SaveEvent) -> (res: (Session, SaveAction))
    ensures
        ev is Requested ==> res.0@ == s@ && (res.1 matches SaveAction::Preflight(lua) && lua@
            == omarchy_config(s.displays@, s.gdk_scale)),
        ev is PreflightPassed ==> res.0@ == s@ && (res.1 matches SaveAction::Write(lua) && lua@
            == omarchy_config(s.displays@, s.gdk_scale)),
        *ev matches SaveEvent::PreflightFailed(m) ==> res.0@ == with_error(s@, Some(m@))
            && res.1 is Stop,
        ev is Written ==> res.0@ == s@ && res.1 is ReloadAndCheck,
        *ev matches SaveEvent::WriteFailed(m) ==> res.0@ == with_error(
            s@,
            Some(write_failed_prefix() + m@),
        ) && res.1 is Stop,
        *ev matches SaveEvent::Reloaded(r) ==> (report_problem(*s, r) is None ==> res.0@ == saved(
            s@,
            saved_status(r),
        ) && (if s.preview is Some {
            res.1 is AcknowledgeWatchdog
        } else {
            res.1 is Stop
        })),
        *ev matches SaveEvent::Reloaded(r) ==> (report_problem(*s, r) matches Some(p) ==> res.0@
            == (SessionView { save_problem: Some(p), ..s@ }) && (res.1 matches SaveAction::RestoreConfig(
            b,
        ) && b == r.backup)),
        *ev matches SaveEvent::Restored(r) ==> (s.save_problem matches Some(p) ==> res.0@ == (
        SessionView {
            error: Some(p@ + restore_suffix(r)),
            save_problem: Some(p@ + restore_suffix(r)),
            ..s@
        }) && (res.1 matches SaveAction::RevertPreview(reason) && reason@ == invalid_save_reason())),
        ev is Restored && s.save_problem is None ==> res.0@ == s@ && res.1 is Stop,
        ev is Reverted ==> (if s.save_problem is Some {
            res.0@ == (SessionView { error: s@.save_problem, save_problem: None, ..s@ })
        } else {
            res.0@ == s@
        }) && res.1 is Stop,
{
    let mut next = copy_session(s);
    match ev {
        SaveEvent::Requested => {
            let lua = render_omarchy_lua(&s.displays, s.gdk_scale);
            (next, SaveAction::Preflight(lua))
        },
        SaveEvent::PreflightPassed => {
            let lua = render_omarchy_lua(&s.displays, s.gdk_scale);
            (next, SaveAction::Write(lua))
        },
        SaveEvent::PreflightFailed(m) => {
            next.error = Some(m.clone());
            (next, SaveAction::Stop)
        },
        SaveEvent::Written => (next, SaveAction::ReloadAndCheck),
        SaveEvent::WriteFailed(m) => {
            next.error = Some(concat("Could not save config: ", m.as_str()));
            (next, SaveAction::Stop)
        },
        SaveEvent::Reloaded(r) => {
            match problem_text(s, r) {
                None => {
                    next.baseline = copy_layout(&s.displays);
                    next.preview = None;
                    next.status = match &r.backup {
                        Some(b) => concat("Saved; backup: ", b.as_str()),
                        None => concat("Saved ", r.config.as_str()),
                    };
                    next.error = None;
                    if s.preview.is_some() {
                        (next, SaveAction::AcknowledgeWatchdog)
                    } else {
                        (next, SaveAction::Stop)
                    }
                },
                Some(p) => {
                    next.save_problem = Some(p);
                    (next, SaveAction::RestoreConfig(copy_text(&r.backup)))
                },
            }
        },
        SaveEvent::Restored(r) => {
            match &s.save_problem {
                Some(p) => {
                    let suffix = match r {
                        Ok(_) => String::from_str("; original configuration restored"),
                        Err(e) => concat("; configuration restore failed: ", e.as_str()),
                    };
                    let combined = concat(p.as_str(), suffix.as_str());
                    next.error = Some(combined.clone());
                    next.save_problem = Some(combined);
                    (
                        next,
                        SaveAction::RevertPreview(String::from_str("Invalid saved layout reverted")),
                    )
                },
                None => (next, SaveAction::Stop),
            }
        },
        SaveEvent::Reverted => {
            if s.save_problem.is_some() {
                next.error = copy_text(&s.save_problem);
                next.save_problem = None;
            }
            (next, SaveAction::Stop)
        },
    }
}

// ---------------------------------------------------------------------
// Reading the live layout and restoring a backup
// ---------------------------------------------------------------------

pub open spec fn no_displays_message() -> Seq<char> {
    "Hyprland reported no active displays."@
}

pub open spec fn discarded_status() -> Seq<char> {
    "Pending changes discarded"@
}

pub open spec fn connected_status(n: nat) -> Seq<char> {
    decimal(n) + " connected displays"@
}

/// The session after the live layout was read. A non-empty layout becomes
/// both the edited and the baseline layout, sets the GDK scale, keeps the
/// selection within range and clears the error; the status line counts the
/// displays, or, for a `reset`, says that pending changes were discarded.
/// An empty layout or a failed read only sets the error line.
pub fn refresh_step(s: &Session, live: &Result<Vec<Display>, String>, reset: bool) -> (res: Session)
    ensures
        *live matches Ok(ds) ==> (ds@.len() > 0 ==> res@ == (SessionView {
            displays: layout_view(ds@),
            baseline: layout_view(ds@),
            selected: if s.selected < ds@.len() {
                s.selected
            } else {
                (ds@.len() - 1) as usize
            },
            gdk_scale: gdk_scale_spec(ds@),
            status: if reset {
                discarded_status()
            } else {
                connected_status(ds@.len())
            },
            error: None,
            ..s@
        })),
        *live matches Ok(ds) && ds@.len() == 0 ==> res@ == with_error(s@, Some(no_displays_message())),
        *live matches Err(e) ==> res@ == with_error(s@, Some(e@)),
{
    let mut next = copy_session(s);
    match live {
        Ok(ds) => {
            let n = ds.len();
            if n == 0 {
                next.error = Some(String::from_str("Hyprland reported no active displays."));
                return next;
            }
            next.gdk_scale = gdk_scale_for(ds);
            next.baseline = copy_layout(ds);
            next.displays = copy_layout(ds);
            next.selected = if s.selected < n {
                s.selected
            } else {
                n - 1
            };
            if reset {
                next.status = String::from_str("Pending changes discarded");
            } else {
                let mut status = String::new();
                push_decimal(&mut status, n as u64);
                status.append(" connected displays");
                next.status = status;
            }
            next.error = None;
            next
        },
        Err(e) => {
            next.error = Some(e.clone());
            next
        },
    }
}

/// The session after a backup was put back and the live layout read
/// (`restored`), from the backup at `backup`. The layout read becomes both
/// the edited and the baseline layout, the selection stays within range
/// (0 for an empty layout), the status line names the backup and the error
/// line is cleared; a failure only sets the error line.
pub fn restore_step(s: &Session, restored: &Result<Vec<Display>, String>, backup: &str) -> (res: Session)
    ensures
        *restored matches Ok(ds) ==> res@ == (SessionView {
            displays: layout_view(ds@),
            baseline: layout_view(ds@),
            selected: if s.selected < ds@.len() {
                s.selected
            } else if ds@.len() == 0 {
                0
            } else {
                (ds@.len() - 1) as usize
            },
            status: "Restored backup: "@ + backup@,
            error: None,
            ..s@
        }),
        *restored matches Err(e) ==> res@ == with_error(s@, Some("Backup restore failed: "@ + e@)),
{
    let mut next = copy_session(s);
    match restored {
        Ok(ds) => {
            let n = ds.len();
            next.baseline = copy_layout(ds);
            next.displays = copy_layout(ds);
            next.selected = if s.selected < n {
                s.selected
            } else if n == 0 {
                0
            } else {
                n - 1
            };
            next.status = concat("Restored backup: ", backup);
            next.error = None;
            next
        },
        Err(e) => {
            next.error = Some(concat("Backup restore failed: ", e.as_str()));
            next
        },
    }
}

} // verus!
