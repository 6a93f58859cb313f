//! The application state behind the frontend's commands: the logged-in
//! session, the active playback and its picture-in-picture mode, and the
//! geometry rules that keep the video and HUD overlay in place.
use vstd::prelude::*;
use vstd::string::*;

use crate::jellyfin::Session;

verus! {

broadcast use vstd::string::group_string_axioms;

/// Just enough of the session for the frontend to build image and stream
/// URLs itself.
#[derive(Clone, Debug, PartialEq, Eq)]
pub struct SessionInfo {
    pub server_url: String,
    pub access_token: String,
}

/// The playback in progress: the native window hosting the video, the
/// session and item it plays, its play session id, and whether it is in
/// picture-in-picture mode with the PiP window's size as of the last
/// aspect-ratio correction. `resources` carries the process, IPC and task
/// handles that only the application shell touches.
pub struct PlaybackHandle<R> {
    pub host_hwnd: isize,
    pub session: Session,
    pub item_id: String,
    pub play_session_id: String,
    pub pip: bool,
    pub pip_size: (i32, i32),
    pub resources: R,
}

/// The application state: the session, if logged in, and the playback, if
/// any.
pub struct AppState<R> {
    pub session: Option<Session>,
    pub playback: Option<PlaybackHandle<R>>,
}

/// What the HUD overlay's move or resize in PiP mode asks of the shell: the
/// video window to glue to the HUD, and the size to snap the HUD to when
/// the aspect-ratio correction changed it.
#[derive(Clone, Copy, PartialEq, Eq, Debug)]
pub struct HudSync {
    pub host_hwnd: isize,
    pub set_size: Option<(u32, u32)>,
}

// ---------------------------------------------------------------------------
// PiP aspect ratio
// ---------------------------------------------------------------------------

pub open spec fn abs(x: int) -> int {
    if x < 0 {
        -x
    } else {
        x
    }
}

/// `n / d` rounded to the nearest integer, halves away from zero (`d > 0`),
/// as `f64::round` rounds.
pub open spec fn div_round(n: int, d: int) -> int {
    if n >= 0 {
        (2 * n + d) / (2 * d)
    } else {
        -((2 * (-n) + d) / (2 * d))
    }
}

/// `x` saturated to the range of `i32`, as a float-to-`i32` cast saturates.
pub open spec fn clamp_i32(x: int) -> int {
    if x > i32::MAX {
        i32::MAX as int
    } else if x < i32::MIN {
        i32::MIN as int
    } else {
        x
    }
}

/// The inputs on which `enforce_pip_aspect` is defined: both size changes
/// and their absolute values fit in an `i32`.
pub open spec fn pip_aspect_defined(current: (i32, i32), previous: (i32, i32)) -> bool {
    &&& i32::MIN < current.0 - previous.0 <= i32::MAX
    &&& i32::MIN < current.1 - previous.1 <= i32::MAX
}

/// A just-resized PiP window snapped back to 16:9: the dimension that moved
/// more since the last correction (width on a tie) is kept, and the other
/// one is recomputed from it.
pub open spec fn pip_aspect_spec(current: (i32, i32), previous: (i32, i32)) -> (int, int) {
    let (w, h) = current;
    let (pw, ph) = previous;
    if abs(w - pw) >= abs(h - ph) {
        (w as int, div_round(w * 9, 16))
    } else {
        (clamp_i32(div_round(h * 16, 9)), h as int)
    }
}

/// `n / d` rounded, halves away from zero, for `d` in 1..=18 and `n` of at
/// most 36 bits.
fn div_round_exec(n: i64, d: i64) -> (q: i64)
    requires
        1 <= d <= 18,
        -0x10_0000_0000 <= n <= 0x10_0000_0000,
    ensures
        q == div_round(n as int, d as int),
{
    if n >= 0 {
        (2 * n + d) / (2 * d)
    } else {
        -((2 * (-n) + d) / (2 * d))
    }
}

/// Snaps a just-resized PiP window back to a fixed 16:9 aspect ratio,
/// guessing from the change since the last correction which dimension the
/// user dragged (see `pip_aspect_spec`). The other dimension is the exactly
/// rounded quotient of integer products, so no ratio is ever approximated.
pub fn enforce_pip_aspect(current: (i32, i32), previous: (i32, i32)) -> (r: (i32, i32))
    requires
        pip_aspect_defined(current, previous),
    ensures
        (r.0 as int, r.1 as int) == pip_aspect_spec(current, previous),
{
    let (width, height) = current;
    let (prev_width, prev_height) = previous;
    let dw = width as i64 - prev_width as i64;
    let dh = height as i64 - prev_height as i64;
    let adw = if dw < 0 {
        -dw
    } else {
        dw
    };
    let adh = if dh < 0 {
        -dh
    } else {
        dh
    };
    if adw >= adh {
        let h = div_round_exec(width as i64 * 9, 16);
        proof {
            lemma_div_round_bound(width as int * 9, 16);
        }
        (width, h as i32)
    } else {
        let w = div_round_exec(height as i64 * 16, 9);
        let clamped = if w > i32::MAX as i64 {
            i32::MAX
        } else if w < i32::MIN as i64 {
            i32::MIN
        } else {
            w as i32
        };
        (clamped, height)
    }
}

/// Rounding `n / d` moves it by at most a half.
pub proof fn lemma_div_round_bound(n: int, d: int)
    requires
        d > 0,
    ensures
        2 * abs(d * div_round(n, d) - n) <= d,
{
    if n >= 0 {
        let q = (2 * n + d) / (2 * d);
        let r = (2 * n + d) % (2 * d);
        assert(2 * n + d == 2 * d * q + r && 0 <= r < 2 * d) by (nonlinear_arith)
            requires
                d > 0,
                q == (2 * n + d) / (2 * d),
                r == (2 * n + d) % (2 * d),
        ;
        assert(2 * abs(d * q - n) <= d) by (nonlinear_arith)
            requires
                2 * n + d == 2 * d * q + r,
                0 <= r < 2 * d,
        ;
    } else {
        let m = -n;
        let q = (2 * m + d) / (2 * d);
        let r = (2 * m + d) % (2 * d);
        assert(2 * m + d == 2 * d * q + r && 0 <= r < 2 * d) by (nonlinear_arith)
            requires
                d > 0,
                q == (2 * m + d) / (2 * d),
                r == (2 * m + d) % (2 * d),
        ;
        assert(2 * abs(d * (-q) - n) <= d) by (nonlinear_arith)
            requires
                2 * m + d == 2 * d * q + r,
                0 <= r < 2 * d,
                m == -n,
        ;
    }
}

/// Rounding `n / d` is to the nearest integer with halves away from zero:
/// `d * q - n` lies in `(-d/2, d/2]` for `n >= 0` and in `[-d/2, d/2)` for
/// `n < 0`.
pub proof fn lemma_div_round_half_away(n: int, d: int)
    requires
        d > 0,
    ensures
        n >= 0 ==> -d < 2 * (d * div_round(n, d) - n) <= d,
        n < 0 ==> -d <= 2 * (d * div_round(n, d) - n) < d,
{
    if n >= 0 {
        let q = (2 * n + d) / (2 * d);
        let r = (2 * n + d) % (2 * d);
        assert(2 * n + d == 2 * d * q + r && 0 <= r < 2 * d) by (nonlinear_arith)
            requires
                d > 0,
                q == (2 * n + d) / (2 * d),
                r == (2 * n + d) % (2 * d),
        ;
        assert(-d < 2 * (d * q - n) <= d) by (nonlinear_arith)
            requires
                2 * n + d == 2 * d * q + r,
                0 <= r < 2 * d,
        ;
    } else {
        let m = -n;
        let q = (2 * m + d) / (2 * d);
        let r = (2 * m + d) % (2 * d);
        assert(2 * m + d == 2 * d * q + r && 0 <= r < 2 * d) by (nonlinear_arith)
            requires
                d > 0,
                q == (2 * m + d) / (2 * d),
                r == (2 * m + d) % (2 * d),
        ;
        assert(-d <= 2 * (d * (-q) - n) < d) by (nonlinear_arith)
            requires
                2 * m + d == 2 * d * q + r,
                0 <= r < 2 * d,
                m == -n,
        ;
    }
}

/// The corrected side is the other side times 9/16 (or 16/9), rounded to
/// the nearest integer with halves away from zero, as `f64::round` rounds;
/// a recomputed width beyond the range of `i32` saturates to its bound.
pub proof fn law_pip_aspect_rounding(current: (i32, i32), previous: (i32, i32))
    requires
        pip_aspect_defined(current, previous),
    ensures
        ({
            let (w, h) = current;
            let (pw, ph) = previous;
            let r = pip_aspect_spec(current, previous);
            &&& abs(w - pw) >= abs(h - ph) ==> {
                &&& r.0 == w
                &&& w >= 0 ==> -8 < 16 * r.1 - 9 * w <= 8
                &&& w < 0 ==> -8 <= 16 * r.1 - 9 * w < 8
            }
            &&& abs(w - pw) < abs(h - ph) ==> {
                &&& r.1 == h
                &&& i32::MIN <= r.0 <= i32::MAX
                &&& (-4 <= 9 * r.0 - 16 * h <= 4 || (r.0 == i32::MAX && 16 * h > 9 * i32::MAX
                    + 4) || (r.0 == i32::MIN && 16 * h < 9 * i32::MIN - 4))
            }
        }),
{
    let (w, h) = current;
    lemma_div_round_half_away(w * 9, 16);
    lemma_div_round_half_away(h * 16, 9);
}

/// An integer within less than a half of `n / d` is its rounding.
pub proof fn lemma_div_round_unique(n: int, d: int, q: int)
    requires
        d > 0,
        2 * abs(d * q - n) < d,
    ensures
        div_round(n, d) == q,
{
    lemma_div_round_bound(n, d);
    let p = div_round(n, d);
    assert(p == q) by (nonlinear_arith)
        requires
            d > 0,
            2 * abs(d * q - n) < d,
            2 * abs(d * p - n) <= d,
    {
        assert(2 * abs(d * (p - q)) < 2 * d);
        if p > q {
            assert(d * (p - q) >= d);
        } else if p < q {
            assert(d * (q - p) >= d);
        }
    }
}


/// Whether the correction of `current` against `previous` saturated the
/// recomputed width (only a height beyond about 1.2e9 pixels does).
pub open spec fn pip_aspect_saturates(current: (i32, i32), previous: (i32, i32)) -> bool {
    let (w, h) = current;
    let (pw, ph) = previous;
    abs(w - pw) < abs(h - ph) && clamp_i32(div_round(h * 16, 9)) != div_round(h * 16, 9)
}

/// The corrected PiP size is 16:9 up to rounding: nine times the width and
/// sixteen times the height differ by at most 8 (unless the width
/// saturated).
pub proof fn law_pip_aspect_ratio(current: (i32, i32), previous: (i32, i32))
    requires
        pip_aspect_defined(current, previous),
        !pip_aspect_saturates(current, previous),
    ensures
        ({
            let r = pip_aspect_spec(current, previous);
            abs(9 * r.0 - 16 * r.1) <= 8
        }),
{
    let (w, h) = current;
    let (pw, ph) = previous;
    if abs(w - pw) >= abs(h - ph) {
        lemma_div_round_bound(w * 9, 16);
    } else {
        lemma_div_round_bound(h * 16, 9);
    }
}

/// The correction keeps the dimension the user dragged more (the width on a
/// tie) exactly as it is.
pub proof fn law_pip_aspect_keeps_dragged_side(current: (i32, i32), previous: (i32, i32))
    requires
        pip_aspect_defined(current, previous),
    ensures
        abs(current.0 - previous.0) >= abs(current.1 - previous.1) ==> pip_aspect_spec(
            current,
            previous,
        ).0 == current.0,
        abs(current.0 - previous.0) < abs(current.1 - previous.1) ==> pip_aspect_spec(
            current,
            previous,
        ).1 == current.1,
{
}

/// The correction settles: a corrected size, reported back unchanged by the
/// resize event that applying it causes, is corrected to itself, so
/// snapping the window never feeds another resize (unless the width
/// saturated).
pub proof fn law_pip_aspect_stable(current: (i32, i32), previous: (i32, i32))
    requires
        pip_aspect_defined(current, previous),
        !pip_aspect_saturates(current, previous),
    ensures
        ({
            let r = pip_aspect_spec(current, previous);
            let size = (r.0 as i32, r.1 as i32);
            &&& r.0 == size.0 && r.1 == size.1
            &&& pip_aspect_defined(size, size)
            &&& pip_aspect_spec(size, size) == r
        }),
{
    let (w, h) = current;
    let (pw, ph) = previous;
    if abs(w - pw) >= abs(h - ph) {
        lemma_div_round_bound(w * 9, 16);
    } else {
        let big_w = div_round(h * 16, 9);
        lemma_div_round_bound(h * 16, 9);
        assert(2 * abs(9 * big_w - h * 16) <= 9);
        assert(2 * abs(16 * (h as int) - big_w * 9) < 16);
        lemma_div_round_unique(big_w * 9, 16, h as int);
    }
}


// ---------------------------------------------------------------------------
// Application state
// ---------------------------------------------------------------------------

/// The state with picture-in-picture turned on for the active playback;
/// unchanged when there is none or it is already in PiP.
pub open spec fn pip_entered<R>(state: AppState<R>) -> AppState<R> {
    match state.playback {
        Some(h) => AppState {
            session: state.session,
            playback: Some(PlaybackHandle { pip: true, ..h }),
        },
        None => state,
    }
}

/// The state with picture-in-picture turned off; unchanged when there is no
/// playback.
pub open spec fn pip_left<R>(state: AppState<R>) -> AppState<R> {
    match state.playback {
        Some(h) => AppState {
            session: state.session,
            playback: Some(PlaybackHandle { pip: false, ..h }),
        },
        None => state,
    }
}

pub open spec fn pip_active_spec<R>(state: AppState<R>) -> bool {
    state.playback matches Some(h) && h.pip
}

/// The video window that follows the main window's client rect: that of
/// the active playback, unless it is in PiP.
pub open spec fn overlay_host_spec<R>(state: AppState<R>) -> Option<isize> {
    match state.playback {
        Some(h) => if h.pip {
            None
        } else {
            Some(h.host_hwnd)
        },
        None => None,
    }
}

/// A HUD move or resize, and the state after it: ignored unless PiP is
/// active; in PiP, a resize (`resized_to`, the HUD's new size when it could
/// be read) is snapped to 16:9 against the last corrected size, which it
/// then replaces, and either event has the video glued to the HUD.
pub open spec fn hud_event_spec<R>(state: AppState<R>, resized_to: Option<(i32, i32)>) -> (
    AppState<R>,
    Option<HudSync>,
) {
    match state.playback {
        Some(h) => if !h.pip {
            (state, None)
        } else {
            match resized_to {
                Some(current) => {
                    let c = pip_aspect_spec(current, h.pip_size);
                    let corrected = (c.0 as i32, c.1 as i32);
                    let set_size = if corrected != current {
                        Some(
                            (
                                (if corrected.0 > 1 { corrected.0 } else { 1i32 }) as u32,
                                (if corrected.1 > 1 { corrected.1 } else { 1i32 }) as u32,
                            ),
                        )
                    } else {
                        None
                    };
                    (
                        AppState {
                            session: state.session,
                            playback: Some(PlaybackHandle { pip_size: corrected, ..h }),
                        },
                        Some(HudSync { host_hwnd: h.host_hwnd, set_size }),
                    )
                },
                None => (state, Some(HudSync { host_hwnd: h.host_hwnd, set_size: None })),
            }
        },
        None => (state, None),
    }
}

/// Whether a HUD event is one the size arithmetic is defined on: in PiP, a
/// reported size whose change against the last corrected size fits in an
/// `i32`.
pub open spec fn hud_event_defined<R>(state: AppState<R>, resized_to: Option<(i32, i32)>) -> bool {
    match (state.playback, resized_to) {
        (Some(h), Some(current)) => h.pip ==> pip_aspect_defined(current, h.pip_size),
        _ => true,
    }
}

/// The state after logging in (or restoring) `session`.
pub open spec fn logged_in<R>(state: AppState<R>, session: Session) -> AppState<R> {
    AppState { session: Some(session), playback: state.playback }
}

/// The state after logging out.
pub open spec fn logged_out<R>(state: AppState<R>) -> AppState<R> {
    AppState { session: None, playback: state.playback }
}

/// What asking for the session gives: the session, or the "not logged in"
/// error.
pub open spec fn session_lookup<R>(state: AppState<R>) -> Result<Session, Seq<char>> {
    match state.session {
        Some(s) => Ok(s),
        None => Err("Not logged in"@),
    }
}

/// The state after the active playback is stopped.
pub open spec fn playback_stopped<R>(state: AppState<R>) -> AppState<R> {
    AppState { session: state.session, playback: None }
}

/// The view of a result whose error is a string.
pub open spec fn result_view<T>(r: Result<T, String>) -> Result<T, Seq<char>> {
    match r {
        Ok(v) => Ok(v),
        Err(e) => Err(e@),
    }
}

impl<R> AppState<R> {
    /// No session and no playback.
    pub fn new() -> (state: Self)
        ensures
            state.session is None,
            state.playback is None,
    {
        AppState { session: None, playback: None }
    }

    /// The session, or the "not logged in" error.
    pub fn require_session(&self) -> (r: Result<Session, String>)
        ensures
            result_view(r) == session_lookup(*self),
    {
        match &self.session {
            Some(s) => Ok(s.duplicate()),
            None => Err("Not logged in".to_owned()),
        }
    }

    /// The server URL and access token of the session, or the "not logged
    /// in" error.
    pub fn session_info(&self) -> (r: Result<SessionInfo, String>)
        ensures
            match self.session {
                Some(s) => r matches Ok(info) && info.server_url == s.server_url
                    && info.access_token == s.access_token,
                None => r matches Err(e) && e@ == "Not logged in"@,
            },
    {
        let session = self.require_session()?;
        Ok(SessionInfo { server_url: session.server_url, access_token: session.access_token })
    }

    /// Logs in (or restores) `session`.
    pub fn set_session(&mut self, session: Session)
        ensures
            *final(self) == logged_in(*old(self), session),
    {
        self.session = Some(session);
    }

    /// Logs out.
    pub fn clear_session(&mut self)
        ensures
            *final(self) == logged_out(*old(self)),
    {
        self.session = None;
    }

    /// Makes `handle` the active playback.
    pub fn set_playback(&mut self, handle: PlaybackHandle<R>)
        ensures
            final(self).session == old(self).session,
            final(self).playback == Some(handle),
    {
        self.playback = Some(handle);
    }

    /// Ends the active playback, handing it back for teardown.
    pub fn take_playback(&mut self) -> (taken: Option<PlaybackHandle<R>>)
        ensures
            taken == old(self).playback,
            *final(self) == playback_stopped(*old(self)),
    {
        self.playback.take()
    }

    /// The active playback, or the "no active playback" error.
    pub fn active_playback(&self) -> (r: Result<&PlaybackHandle<R>, String>)
        ensures
            match self.playback {
                Some(h) => r matches Ok(p) && *p == h,
                None => r matches Err(e) && e@ == "No active playback"@,
            },
    {
        match &self.playback {
            Some(h) => Ok(h),
            None => Err("No active playback".to_owned()),
        }
    }

    /// Whether the active playback is in PiP mode.
    pub fn pip_active(&self) -> (active: bool)
        ensures
            active == pip_active_spec(*self),
    {
        match &self.playback {
            Some(h) => h.pip,
            None => false,
        }
    }

    /// Turns PiP on: fails without a playback, does nothing (`None`) when
    /// PiP is already on, and otherwise gives the video window to float.
    pub fn begin_pip(&mut self) -> (r: Result<Option<isize>, String>)
        ensures
            *final(self) == pip_entered(*old(self)),
            match old(self).playback {
                Some(h) => r == Ok::<Option<isize>, String>(
                    if h.pip {
                        None
                    } else {
                        Some(h.host_hwnd)
                    },
                ),
                None => r matches Err(e) && e@ == "No active playback"@,
            },
    {
        match &mut self.playback {
            Some(h) => {
                if h.pip {
                    Ok(None)
                } else {
                    h.pip = true;
                    Ok(Some(h.host_hwnd))
                }
            },
            None => Err("No active playback".to_owned()),
        }
    }

    /// Records the PiP window's size as placed.
    pub fn record_pip_size(&mut self, size: (i32, i32))
        ensures
            final(self).session == old(self).session,
            match old(self).playback {
                Some(h) => final(self).playback == Some(PlaybackHandle { pip_size: size, ..h }),
                None => final(self).playback is None,
            },
    {
        if let Some(h) = &mut self.playback {
            h.pip_size = size;
        }
    }

    /// Turns PiP off when it is on, giving the video window to re-attach;
    /// otherwise does nothing.
    pub fn end_pip(&mut self) -> (r: Option<isize>)
        ensures
            pip_active_spec(*old(self)) ==> *final(self) == pip_left(*old(self)) && r == Some(
                old(self).playback->0.host_hwnd,
            ),
            !pip_active_spec(*old(self)) ==> *final(self) == *old(self) && r is None,
    {
        match &mut self.playback {
            Some(h) => {
                if h.pip {
                    h.pip = false;
                    Some(h.host_hwnd)
                } else {
                    None
                }
            },
            None => None,
        }
    }

    /// The video window to keep glued to the main window's client rect.
    pub fn overlay_host(&self) -> (r: Option<isize>)
        ensures
            r == overlay_host_spec(*self),
    {
        match &self.playback {
            Some(h) => if h.pip {
                None
            } else {
                Some(h.host_hwnd)
            },
            None => None,
        }
    }

    /// Handles a move or resize of the HUD overlay; see `hud_event_spec`.
    pub fn hud_event(&mut self, resized_to: Option<(i32, i32)>) -> (r: Option<HudSync>)
        requires
            hud_event_defined(*old(self), resized_to),
        ensures
            (*final(self), r) == hud_event_spec(*old(self), resized_to),
    {
        match &mut self.playback {
            Some(h) => {
                if !h.pip {
                    return None;
                }
                match resized_to {
                    Some(current) => {
                        let corrected = enforce_pip_aspect(current, h.pip_size);
                        let set_size = if corrected.0 != current.0 || corrected.1 != current.1 {
                            let w: i32 = if corrected.0 > 1 {
                                corrected.0
                            } else {
                                1
                            };
                            let ht: i32 = if corrected.1 > 1 {
                                corrected.1
                            } else {
                                1
                            };
                            Some((w as u32, ht as u32))
                        } else {
                            None
                        };
                        h.pip_size = corrected;
                        Some(HudSync { host_hwnd: h.host_hwnd, set_size })
                    },
                    None => Some(HudSync { host_hwnd: h.host_hwnd, set_size: None }),
                }
            },
            None => None,
        }
    }
}

/// The steps of starting playback that can fail after something was
/// already created.
#[derive(Clone, Copy, PartialEq, Eq, Debug)]
pub enum StartStep {
    /// Spawning mpv, after the video host window was created.
    SpawnMpv,
    /// Creating the HUD window, after mpv was spawned.
    CreateHud,
}

/// What is torn down when starting playback fails at a step.
#[derive(Clone, Copy, PartialEq, Eq, Debug)]
pub struct StartCleanup {
    pub kill_mpv: bool,
    pub destroy_host_window: bool,
}

/// A failed spawn destroys the host window; a failed HUD also kills mpv.
pub open spec fn start_cleanup_spec(step: StartStep) -> StartCleanup {
    match step {
        StartStep::SpawnMpv => StartCleanup { kill_mpv: false, destroy_host_window: true },
        StartStep::CreateHud => StartCleanup { kill_mpv: true, destroy_host_window: true },
    }
}

/// Whatever step of starting playback fails, the host window is destroyed;
/// mpv is killed exactly when it was already running, that is when the
/// HUD step failed after mpv was spawned.
pub proof fn law_start_cleanup(step: StartStep)
    ensures
        start_cleanup_spec(step).destroy_host_window,
        start_cleanup_spec(step).kill_mpv <==> step == StartStep::CreateHud,
{
}

pub fn start_cleanup(step: StartStep) -> (c: StartCleanup)
    ensures
        c == start_cleanup_spec(step),
{
    match step {
        StartStep::SpawnMpv => StartCleanup { kill_mpv: false, destroy_host_window: true },
        StartStep::CreateHud => StartCleanup { kill_mpv: true, destroy_host_window: true },
    }
}

/// What the main window gaining or losing focus asks of the shell.
#[derive(Clone, Copy, PartialEq, Eq, Debug)]
pub struct FocusAction {
    /// Show (`true`) or hide (`false`) the HUD overlay, so that the
    /// always-on-top overlay only floats above this app's own windows;
    /// `None` while PiP is active, when the HUD carries the floating video's
    /// controls and must stay visible.
    pub hud_visible: Option<bool>,
    /// Whether to leave PiP if it is active: restoring the main window is
    /// the way out of PiP.
    pub leave_pip: bool,
}

impl<R> AppState<R> {
    pub fn main_focus_changed(&self, focused: bool) -> (action: FocusAction)
        ensures
            action.hud_visible == (if pip_active_spec(*self) {
                None
            } else {
                Some(focused)
            }),
            action.leave_pip == focused,
    {
        let hud_visible = if self.pip_active() {
            None
        } else {
            Some(focused)
        };
        FocusAction { hud_visible, leave_pip: focused }
    }
}

/// The main window's client rect, client-relative: the origin and its
/// inner size.
pub fn full_client_rect(width: u32, height: u32) -> (r: (i32, i32, i32, i32))
    ensures
        r == (0i32, 0i32, width as i32, height as i32),
{
    (0, 0, width as i32, height as i32)
}


// ---------------------------------------------------------------------------
// Laws of the session and playback state
// ---------------------------------------------------------------------------

/// Logging in makes the session available to every later command, and
/// leaves the playback as it was.
pub proof fn law_login_then_session<R>(state: AppState<R>, session: Session)
    ensures
        session_lookup(logged_in(state, session)) == Ok::<Session, Seq<char>>(session),
        logged_in(state, session).playback == state.playback,
{
}

/// After logging out, every command that needs a session answers "Not
/// logged in".
pub proof fn law_logout_then_not_logged_in<R>(state: AppState<R>)
    ensures
        session_lookup(logged_out(state)) == Err::<Session, Seq<char>>("Not logged in"@),
{
}

/// Once playback is stopped, PiP cannot be entered, there is nothing to
/// leave, and no video is kept over the main window.
pub proof fn law_stopped_playback_is_inert<R>(state: AppState<R>)
    ensures
        pip_entered(playback_stopped(state)) == playback_stopped(state),
        !pip_active_spec(playback_stopped(state)),
        overlay_host_spec(playback_stopped(state)) is None,
        playback_stopped(state).session == state.session,
{
}

// ---------------------------------------------------------------------------
// Laws of the PiP state
// ---------------------------------------------------------------------------

/// Entering PiP and leaving it again restores the state as it was.
pub proof fn law_pip_round_trip<R>(state: AppState<R>)
    requires
        !pip_active_spec(state),
    ensures
        pip_left(pip_entered(state)) == state,
{
}

/// Entering PiP twice is entering it once.
pub proof fn law_pip_enter_idempotent<R>(state: AppState<R>)
    ensures
        pip_entered(pip_entered(state)) == pip_entered(state),
{
}

/// While PiP is active the video is never snapped back over the main
/// window; outside PiP, an active playback's video always is.
pub proof fn law_no_overlay_sync_in_pip<R>(state: AppState<R>)
    ensures
        pip_active_spec(state) ==> overlay_host_spec(state) is None,
        state.playback is Some && !pip_active_spec(state) ==> overlay_host_spec(state) == Some(
            state.playback->0.host_hwnd,
        ),
{
}

/// Outside PiP, moving or resizing the HUD changes nothing and asks for
/// nothing.
pub proof fn law_hud_ignored_outside_pip<R>(state: AppState<R>, resized_to: Option<(i32, i32)>)
    requires
        !pip_active_spec(state),
    ensures
        hud_event_spec(state, resized_to) == (state, None::<HudSync>),
{
}

/// In PiP, a HUD resize to `current` records the 16:9 correction of
/// `current` as the PiP size and glues the video to the HUD; the HUD is
/// asked to take the corrected size (at least one pixel each way) exactly
/// when that differs from `current` in either dimension. A move, or a
/// resize whose size could not be read, changes nothing and only glues the
/// video.
pub proof fn law_hud_resize_snaps<R>(state: AppState<R>, current: (i32, i32))
    requires
        pip_active_spec(state),
    ensures
        ({
            let h = state.playback->0;
            let c = pip_aspect_spec(current, h.pip_size);
            let (after, sync) = hud_event_spec(state, Some(current));
            &&& after.session == state.session
            &&& after.playback == Some(
                PlaybackHandle { pip_size: (c.0 as i32, c.1 as i32), ..h },
            )
            &&& c.0 == (c.0 as i32) && c.1 == (c.1 as i32)
            &&& sync matches Some(sy) && sy.host_hwnd == h.host_hwnd
            &&& (sync->0.set_size is Some <==> (c.0 != current.0 || c.1 != current.1))
            &&& (sync->0.set_size matches Some(size) ==> size == (
                (if c.0 > 1 {
                    c.0
                } else {
                    1
                }) as u32,
                (if c.1 > 1 {
                    c.1
                } else {
                    1
                }) as u32,
            ))
        }),
        hud_event_spec(state, None) == (state, Some(
            HudSync { host_hwnd: state.playback->0.host_hwnd, set_size: None },
        )),
{
    let h = state.playback->0;
    let (w, ht) = current;
    let (pw, ph) = h.pip_size;
    if abs(w - pw) >= abs(ht - ph) {
        lemma_div_round_bound(w * 9, 16);
    }
}

/// In PiP, snapping the HUD to its corrected size settles: the resize event
/// that snapping causes reports the corrected size, which changes neither
/// the state nor the window again (given a corrected size of at least one
/// pixel each way and a width that did not saturate).
pub proof fn law_hud_resize_settles<R>(state: AppState<R>, current: (i32, i32))
    requires
        pip_active_spec(state),
        pip_aspect_defined(current, state.playback->0.pip_size),
        !pip_aspect_saturates(current, state.playback->0.pip_size),
        pip_aspect_spec(current, state.playback->0.pip_size).0 >= 1,
        pip_aspect_spec(current, state.playback->0.pip_size).1 >= 1,
    ensures
        ({
            let (after, sync) = hud_event_spec(state, Some(current));
            let corrected = after.playback->0.pip_size;
            &&& sync matches Some(s) && (s.set_size matches Some(size) ==> size == (
                corrected.0 as u32,
                corrected.1 as u32,
            ))
            &&& hud_event_defined(after, Some(corrected))
            &&& hud_event_spec(after, Some(corrected)).0 == after
            &&& hud_event_spec(after, Some(corrected)).1 matches Some(s2) && s2.set_size is None
        }),
{
    law_pip_aspect_stable(current, state.playback->0.pip_size);
}

} // verus!
