use fastfin::commands::{
    enforce_pip_aspect, full_client_rect, start_cleanup, AppState, FocusAction, HudSync, PlaybackHandle,
    StartCleanup, StartStep,
};
use fastfin::jellyfin::Session;

fn session() -> Session {
    Session {
        server_url: "http://dell:8096".to_string(),
        user_id: "u1".to_string(),
        access_token: "tok".to_string(),
        device_id: "dev".to_string(),
    }
}

fn playing(state: &mut AppState<u8>) {
    state.set_playback(PlaybackHandle {
        host_hwnd: 77,
        session: session(),
        item_id: "i9".to_string(),
        play_session_id: "ps".to_string(),
        pip: false,
        pip_size: (0, 0),
        resources: 5,
    });
}

#[test]
fn pip_aspect_keeps_the_dragged_side() {
    assert_eq!(enforce_pip_aspect((400, 214), (380, 214)), (400, 225));
    assert_eq!(enforce_pip_aspect((380, 300), (380, 214)), (533, 300));
    assert_eq!(enforce_pip_aspect((640, 400), (380, 214)), (640, 360));
}

#[test]
fn pip_aspect_rounds_halves_away_from_zero() {
    assert_eq!(enforce_pip_aspect((8, 0), (0, 0)), (8, 5));
    assert_eq!(enforce_pip_aspect((-8, 0), (0, 0)), (-8, -5));
    assert_eq!(enforce_pip_aspect((24, 0), (0, 0)), (24, 14));
}

#[test]
fn pip_aspect_saturates_huge_widths() {
    assert_eq!(enforce_pip_aspect((0, 2_000_000_000), (0, 0)), (i32::MAX, 2_000_000_000));
    assert_eq!(enforce_pip_aspect((0, -2_000_000_000), (0, 0)), (i32::MIN, -2_000_000_000));
}

#[test]
fn pip_aspect_settles_on_its_own_output() {
    for (current, previous) in [((400, 214), (380, 214)), ((380, 301), (380, 214)), ((1000, 7), (3, 5))] {
        let corrected = enforce_pip_aspect(current, previous);
        assert_eq!(enforce_pip_aspect(corrected, corrected), corrected);
    }
}

#[test]
fn session_login_and_logout() {
    let mut state: AppState<u8> = AppState::new();
    assert_eq!(state.require_session(), Err("Not logged in".to_string()));
    state.set_session(session());
    assert_eq!(state.require_session(), Ok(session()));
    let info = state.session_info().unwrap();
    assert_eq!(info.server_url, "http://dell:8096");
    assert_eq!(info.access_token, "tok");
    state.clear_session();
    assert_eq!(state.require_session(), Err("Not logged in".to_string()));
    assert!(state.session_info().is_err());
}

#[test]
fn commands_without_playback_fail() {
    let mut state: AppState<u8> = AppState::new();
    assert_eq!(state.active_playback().err(), Some("No active playback".to_string()));
    assert_eq!(state.begin_pip(), Err("No active playback".to_string()));
    assert_eq!(state.end_pip(), None);
    assert_eq!(state.overlay_host(), None);
    assert_eq!(state.hud_event(Some((10, 10))), None);
}

#[test]
fn pip_enter_and_leave() {
    let mut state: AppState<u8> = AppState::new();
    playing(&mut state);
    assert_eq!(state.overlay_host(), Some(77));
    assert_eq!(state.hud_event(Some((500, 500))), None);
    assert_eq!(state.begin_pip(), Ok(Some(77)));
    assert!(state.pip_active());
    assert_eq!(state.overlay_host(), None);
    assert_eq!(state.begin_pip(), Ok(None));
    state.record_pip_size((380, 214));
    assert_eq!(state.hud_event(None), Some(HudSync { host_hwnd: 77, set_size: None }));
    assert_eq!(state.hud_event(Some((380, 214))), Some(HudSync { host_hwnd: 77, set_size: None }));
    assert_eq!(state.hud_event(Some((420, 214))), Some(HudSync { host_hwnd: 77, set_size: Some((420, 236)) }));
    assert_eq!(state.active_playback().unwrap().pip_size, (420, 236));
    assert_eq!(state.hud_event(Some((420, 236))), Some(HudSync { host_hwnd: 77, set_size: None }));
    assert_eq!(state.end_pip(), Some(77));
    assert!(!state.pip_active());
    assert_eq!(state.end_pip(), None);
    assert_eq!(state.overlay_host(), Some(77));
    let taken = state.take_playback().unwrap();
    assert_eq!(taken.resources, 5);
    assert_eq!(taken.item_id, "i9");
    assert!(state.take_playback().is_none());
}

#[test]
fn hud_resize_to_degenerate_size_is_clamped_to_one_pixel() {
    let mut state: AppState<u8> = AppState::new();
    playing(&mut state);
    state.begin_pip().unwrap();
    state.record_pip_size((380, 214));
    assert_eq!(state.hud_event(Some((1, 214))), Some(HudSync { host_hwnd: 77, set_size: Some((1, 1)) }));
}

#[test]
fn client_rect_is_origin_anchored() {
    assert_eq!(full_client_rect(1280, 720), (0, 0, 1280, 720));
}

#[test]
fn focus_shows_or_hides_hud_outside_pip_only() {
    let mut state: AppState<u8> = AppState::new();
    assert_eq!(state.main_focus_changed(false), FocusAction { hud_visible: Some(false), leave_pip: false });
    playing(&mut state);
    assert_eq!(state.main_focus_changed(true), FocusAction { hud_visible: Some(true), leave_pip: true });
    state.begin_pip().unwrap();
    assert_eq!(state.main_focus_changed(false), FocusAction { hud_visible: None, leave_pip: false });
    assert_eq!(state.main_focus_changed(true), FocusAction { hud_visible: None, leave_pip: true });
}

#[test]
fn failed_start_cleanup() {
    assert_eq!(start_cleanup(StartStep::SpawnMpv), StartCleanup { kill_mpv: false, destroy_host_window: true });
    assert_eq!(start_cleanup(StartStep::CreateHud), StartCleanup { kill_mpv: true, destroy_host_window: true });
}
