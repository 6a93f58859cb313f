use fastfin::player::{
    classify_mpv_message, hud_url, mpv_args, mpv_pipe_name, observed_property, pip_rect, subtitle_choice,
    take_start_seek, to_wide, MpvMessage, ObservedProperty, PipeConnect, SubtitleChoice, PIPE_CONNECT_ATTEMPTS,
    PIPE_RETRY_DELAY_MS,
};

#[test]
fn pip_rect_anchors_bottom_right() {
    assert_eq!(pip_rect(1920, 1080), (1516, 810, 380, 214));
    assert_eq!(pip_rect(0, 0), (-404, -270, 380, 214));
}

#[test]
fn hud_and_pipe_names() {
    assert_eq!(hud_url("abc"), "player/abc/hud");
    assert_eq!(mpv_pipe_name("1234"), r"\\.\pipe\fastfin-mpv-1234");
}

#[test]
fn mpv_command_line() {
    let args = mpv_args(0x1234, r"\\.\pipe\p");
    assert_eq!(
        args,
        vec![
            "--wid=4660",
            r"--input-ipc-server=\\.\pipe\p",
            "--idle=yes",
            "--no-input-default-bindings",
            "--no-osc",
            "--keep-open=yes",
            "--no-config",
            "--target-colorspace-hint=yes",
            "--demuxer-max-bytes=32MiB",
            "--demuxer-max-back-bytes=8MiB",
            "--vd-lavc-threads=4",
        ]
    );
}

#[test]
fn mpv_window_id_is_unsigned() {
    assert_eq!(mpv_args(-1, "p")[0], "--wid=4294967295");
    assert_eq!(mpv_args(0, "p")[0], "--wid=0");
    assert_eq!(mpv_args(10, "p")[0], "--wid=10");
}

#[test]
fn wide_strings_are_nul_terminated_utf16() {
    assert_eq!(to_wide("FastFinMpvHost").len(), 15);
    assert_eq!(to_wide("a\u{20AC}\u{1F600}"), vec![0x61, 0x20AC, 0xD83D, 0xDE00, 0]);
    assert_eq!(to_wide(""), vec![0]);
}

#[test]
fn subtitle_choice_off_or_track() {
    assert_eq!(subtitle_choice(None), SubtitleChoice::Off);
    assert_eq!(subtitle_choice(Some(3)), SubtitleChoice::Track(3));
}

#[test]
fn wide_strings_decode_back() {
    for s in ["", "FastFinMpvHost", "a\u{20AC}\u{1F600}z", "\u{10FFFF}\u{E000}\u{D7FF}"] {
        let w = to_wide(s);
        assert_eq!(*w.last().unwrap(), 0);
        assert_eq!(w.len(), s.encode_utf16().count() + 1);
        assert_eq!(String::from_utf16(&w[..w.len() - 1]).unwrap(), s);
    }
}

#[test]
fn pipe_connect_gives_up_after_fifty_failures() {
    let mut c = PipeConnect::new();
    let mut tries = 0;
    while c.may_attempt() {
        tries += 1;
        c.failed(format!("busy {tries}"));
    }
    assert_eq!(tries, PIPE_CONNECT_ATTEMPTS);
    assert_eq!(PIPE_RETRY_DELAY_MS, 100);
    assert_eq!(c.give_up_error(), "Could not connect to mpv IPC pipe: busy 50");
}

#[test]
fn mpv_messages_are_routed() {
    assert_eq!(classify_mpv_message(Some(7), true), MpvMessage::Reply(7));
    assert_eq!(classify_mpv_message(Some(7), false), MpvMessage::Reply(7));
    assert_eq!(classify_mpv_message(None, true), MpvMessage::PropertyChange);
    assert_eq!(classify_mpv_message(None, false), MpvMessage::Other);
    assert_eq!(observed_property("time-pos"), ObservedProperty::TimePos);
    assert_eq!(observed_property("pause"), ObservedProperty::Pause);
    assert_eq!(observed_property("duration"), ObservedProperty::Duration);
    assert_eq!(observed_property("eof-reached"), ObservedProperty::Other);
}

#[test]
fn resume_seek_applied_once_on_positive_duration() {
    let mut pending = Some(42u32);
    assert_eq!(take_start_seek(&mut pending, ObservedProperty::TimePos, true), None);
    assert_eq!(take_start_seek(&mut pending, ObservedProperty::Duration, false), None);
    assert_eq!(pending, Some(42));
    assert_eq!(take_start_seek(&mut pending, ObservedProperty::Duration, true), Some(42));
    assert_eq!(take_start_seek(&mut pending, ObservedProperty::Duration, true), None);
    assert_eq!(pending, None);
}
