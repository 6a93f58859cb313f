//! The player's own rules: where the picture-in-picture window goes, how
//! the mpv process is invoked and named, which page the HUD overlay shows,
//! and how strings are handed to Win32.
use vstd::prelude::*;
use vstd::string::*;

use crate::commands::{div_round, pip_aspect_spec};
use crate::text::{
    chars_of, decimal, decimal_u64, lemma_utf16_round_trip, utf16, utf16_decode, utf16_of_char,
};

verus! {

broadcast use vstd::string::group_string_axioms;

/// One audio, video or subtitle track as mpv lists it.
#[derive(Clone, Debug, PartialEq, Eq)]
pub struct Track {
    pub id: i64,
    pub track_type: String,
    pub lang: Option<String>,
    pub title: Option<String>,
    pub selected: bool,
}

/// The PiP window's width.
pub const PIP_WIDTH: i32 = 380;
/// The PiP window's height.
pub const PIP_HEIGHT: i32 = 214;
/// The gap between the PiP window and the screen's right edge.
pub const PIP_MARGIN_X: i32 = 24;
/// The gap between the PiP window and the screen's bottom edge.
pub const PIP_MARGIN_Y: i32 = 56;

/// The PiP window's rect on a primary monitor of the given size: a fixed
/// 380x214 box anchored to the bottom-right corner, 24 pixels from the
/// right edge and 56 from the bottom.
pub fn pip_rect(screen_w: i32, screen_h: i32) -> (r: (i32, i32, i32, i32))
    requires
        screen_w - PIP_WIDTH - PIP_MARGIN_X >= i32::MIN,
        screen_h - PIP_HEIGHT - PIP_MARGIN_Y >= i32::MIN,
    ensures
        r.0 == screen_w - PIP_WIDTH - PIP_MARGIN_X,
        r.1 == screen_h - PIP_HEIGHT - PIP_MARGIN_Y,
        r.2 == PIP_WIDTH,
        r.3 == PIP_HEIGHT,
{
    (screen_w - PIP_WIDTH - PIP_MARGIN_X, screen_h - PIP_HEIGHT - PIP_MARGIN_Y, PIP_WIDTH, PIP_HEIGHT)
}

/// The PiP window starts at a size that the 16:9 correction leaves as it
/// is, so the HUD resize event that entering PiP causes snaps nothing.
pub proof fn law_pip_start_size_settled()
    ensures
        pip_aspect_spec((PIP_WIDTH, PIP_HEIGHT), (PIP_WIDTH, PIP_HEIGHT)) == (
            PIP_WIDTH as int,
            PIP_HEIGHT as int,
        ),
{
    assert((2 * 3420 + 16) / 32 == 214);
}

/// The page the HUD overlay window loads for an item.
pub fn hud_url(item_id: &str) -> (url: String)
    ensures
        url@ == "player/"@ + item_id@ + "/hud"@,
{
    let mut url = "player/".to_owned();
    url.append(item_id);
    url.append("/hud");
    url
}

/// The named pipe mpv serves its JSON IPC on, made unique by `unique`.
pub fn mpv_pipe_name(unique: &str) -> (name: String)
    ensures
        name@ == "\\\\.\\pipe\\fastfin-mpv-"@ + unique@,
{
    let mut name = "\\\\.\\pipe\\fastfin-mpv-".to_owned();
    name.append(unique);
    name
}

/// The views of a sequence of strings.
pub open spec fn string_views(v: Seq<String>) -> Seq<Seq<char>> {
    v.map_values(|s: String| s@)
}

/// mpv's command line: embedded in the window `hwnd` (passed as an unsigned
/// 32-bit value, as mpv's win32 embedding expects), serving IPC on `pipe`,
/// idle until a file is loaded, with its own bindings, OSC and config files
/// off, matching the display's colorspace, and with bounded demuxer caches
/// and decode threads.
pub open spec fn mpv_args_spec(hwnd: isize, pipe: Seq<char>) -> Seq<Seq<char>> {
    seq![
        "--wid="@ + decimal((hwnd as u32) as nat),
        "--input-ipc-server="@ + pipe,
        "--idle=yes"@,
        "--no-input-default-bindings"@,
        "--no-osc"@,
        "--keep-open=yes"@,
        "--no-config"@,
        "--target-colorspace-hint=yes"@,
        "--demuxer-max-bytes=32MiB"@,
        "--demuxer-max-back-bytes=8MiB"@,
        "--vd-lavc-threads=4"@,
    ]
}

pub fn mpv_args(hwnd: isize, pipe_name: &str) -> (args: Vec<String>)
    ensures
        string_views(args@) == mpv_args_spec(hwnd, pipe_name@),
{
    let hwnd_u32 = hwnd as u32;
    let mut wid = "--wid=".to_owned();
    let digits = decimal_u64(hwnd_u32 as u64);
    wid.append(digits.as_str());
    let mut ipc = "--input-ipc-server=".to_owned();
    ipc.append(pipe_name);
    let mut args: Vec<String> = Vec::new();
    args.push(wid);
    args.push(ipc);
    args.push("--idle=yes".to_owned());
    args.push("--no-input-default-bindings".to_owned());
    args.push("--no-osc".to_owned());
    args.push("--keep-open=yes".to_owned());
    args.push("--no-config".to_owned());
    args.push("--target-colorspace-hint=yes".to_owned());
    args.push("--demuxer-max-bytes=32MiB".to_owned());
    args.push("--demuxer-max-back-bytes=8MiB".to_owned());
    args.push("--vd-lavc-threads=4".to_owned());
    assert(string_views(args@) =~= mpv_args_spec(hwnd, pipe_name@));
    args
}

/// What mpv's `sid` property is set to for a subtitle choice: the track id,
/// or `no` to turn subtitles off.
#[derive(Clone, Debug, PartialEq, Eq)]
pub enum SubtitleChoice {
    Track(i64),
    Off,
}

pub fn subtitle_choice(track_id: Option<i64>) -> (c: SubtitleChoice)
    ensures
        match track_id {
            Some(id) => c == SubtitleChoice::Track(id),
            None => c == SubtitleChoice::Off,
        },
{
    match track_id {
        Some(id) => SubtitleChoice::Track(id),
        None => SubtitleChoice::Off,
    }
}

/// The UTF-16 code units of `c`, appended to `out`.
fn push_utf16(out: &mut Vec<u16>, c: char)
    ensures
        final(out)@ == old(out)@ + utf16_of_char(c),
{
    let u = c as u32;
    if u < 0x10000 {
        out.push(u as u16);
        assert(old(out)@.push(u as u16) == old(out)@ + seq![u as u16]);
    } else {
        let v = u - 0x10000;
        let hi = (0xD800 + v / 0x400) as u16;
        let lo = (0xDC00 + v % 0x400) as u16;
        out.push(hi);
        out.push(lo);
        assert(old(out)@.push(hi).push(lo) == old(out)@ + seq![hi, lo]);
    }
}

/// `s` encoded as UTF-16 and terminated by a NUL code unit, as Win32 wide
/// string parameters expect.
pub fn to_wide(s: &str) -> (w: Vec<u16>)
    ensures
        w@ == utf16(s@).push(0u16),
{
    let v = chars_of(s);
    let mut w: Vec<u16> = Vec::new();
    let mut i: usize = 0;
    while i < v.len()
        invariant
            i <= v@.len(),
            w@ == utf16(v@.take(i as int)),
        decreases v@.len() - i,
    {
        push_utf16(&mut w, v[i]);
        assert(v@.take(i + 1).drop_last() == v@.take(i as int));
        i = i + 1;
    }
    assert(v@.take(v@.len() as int) == v@);
    w.push(0u16);
    w
}

/// A wide string made by `to_wide` is NUL-terminated, and the units before
/// the NUL decode back to the string.
pub proof fn law_to_wide_round_trip(s: Seq<char>)
    ensures
        ({
            let w = utf16(s).push(0u16);
            &&& w.last() == 0u16
            &&& w.drop_last() == utf16(s)
            &&& utf16_decode(w.drop_last()) == Some(s)
        }),
{
    lemma_utf16_round_trip(s);
    assert(utf16(s).push(0u16).drop_last() == utf16(s));
}


// ---------------------------------------------------------------------------
// mpv's IPC pipe
// ---------------------------------------------------------------------------

/// How many times opening mpv's IPC pipe is tried before giving up.
pub const PIPE_CONNECT_ATTEMPTS: u32 = 50;

/// How long to wait after each failed attempt, in milliseconds.
pub const PIPE_RETRY_DELAY_MS: u64 = 100;

/// Connecting to mpv's IPC pipe, which mpv creates a moment after it
/// starts: the failed attempts so far and the last error seen.
pub struct PipeConnect {
    pub attempts: u32,
    pub last_error: String,
}

impl PipeConnect {
    pub fn new() -> (c: PipeConnect)
        ensures
            c.attempts == 0,
            c.last_error@ == Seq::<char>::empty(),
    {
        PipeConnect { attempts: 0, last_error: String::new() }
    }

    /// Whether another attempt is due.
    pub fn may_attempt(&self) -> (r: bool)
        ensures
            r == (self.attempts < PIPE_CONNECT_ATTEMPTS),
    {
        self.attempts < PIPE_CONNECT_ATTEMPTS
    }

    /// Records a failed attempt; the caller waits `PIPE_RETRY_DELAY_MS`
    /// before asking `may_attempt` again.
    pub fn failed(&mut self, error: String)
        requires
            old(self).attempts < PIPE_CONNECT_ATTEMPTS,
        ensures
            final(self).attempts == old(self).attempts + 1,
            final(self).last_error == error,
    {
        self.attempts = self.attempts + 1;
        self.last_error = error;
    }

    /// The error reported once every attempt failed.
    pub fn give_up_error(&self) -> (e: String)
        ensures
            e@ == "Could not connect to mpv IPC pipe: "@ + self.last_error@,
    {
        let mut e = "Could not connect to mpv IPC pipe: ".to_owned();
        e.append(self.last_error.as_str());
        e
    }
}

/// A line mpv sends on its IPC pipe: a reply to a request tagged with
/// `request_id`, which goes to whoever awaits it; a change of an observed
/// property; or anything else, which is ignored.
#[derive(Clone, Copy, PartialEq, Eq, Debug)]
pub enum MpvMessage {
    Reply(u64),
    PropertyChange,
    Other,
}

/// Classifies a message by its `request_id` (when it is an unsigned
/// integer) and whether it has both a `name` and a `data` field; a reply
/// takes precedence.
pub fn classify_mpv_message(request_id: Option<u64>, has_name_and_data: bool) -> (m: MpvMessage)
    ensures
        m == (match request_id {
            Some(id) => MpvMessage::Reply(id),
            None => if has_name_and_data {
                MpvMessage::PropertyChange
            } else {
                MpvMessage::Other
            },
        }),
{
    match request_id {
        Some(id) => MpvMessage::Reply(id),
        None => if has_name_and_data {
            MpvMessage::PropertyChange
        } else {
            MpvMessage::Other
        },
    }
}

/// The observed properties the player reacts to.
#[derive(Clone, Copy, PartialEq, Eq, Debug)]
pub enum ObservedProperty {
    TimePos,
    Pause,
    Duration,
    Other,
}

pub open spec fn observed_property_spec(name: Seq<char>) -> ObservedProperty {
    if name == "time-pos"@ {
        ObservedProperty::TimePos
    } else if name == "pause"@ {
        ObservedProperty::Pause
    } else if name == "duration"@ {
        ObservedProperty::Duration
    } else {
        ObservedProperty::Other
    }
}

pub fn observed_property(name: &str) -> (p: ObservedProperty)
    ensures
        p == observed_property_spec(name@),
{
    let name = name.to_owned();
    let time_pos = "time-pos".to_owned();
    let pause = "pause".to_owned();
    let duration = "duration".to_owned();
    if name == time_pos {
        ObservedProperty::TimePos
    } else if name == pause {
        ObservedProperty::Pause
    } else if name == duration {
        ObservedProperty::Duration
    } else {
        ObservedProperty::Other
    }
}

/// The player reacts to exactly three property names, each to its own
/// kind: `time-pos`, `pause` and `duration`; every other name is ignored.
pub proof fn law_observed_property_names(name: Seq<char>)
    ensures
        (observed_property_spec(name) == ObservedProperty::TimePos) <==> name == "time-pos"@,
        (observed_property_spec(name) == ObservedProperty::Pause) <==> name == "pause"@,
        (observed_property_spec(name) == ObservedProperty::Duration) <==> name == "duration"@,
        (observed_property_spec(name) == ObservedProperty::Other) <==> (name != "time-pos"@
            && name != "pause"@ && name != "duration"@),
{
    reveal_strlit("time-pos");
    reveal_strlit("pause");
    reveal_strlit("duration");
    assert("pause"@.len() != "time-pos"@.len());
    assert("duration"@[0] != "time-pos"@[0]);
    assert("pause"@.len() != "duration"@.len());
}

pub open spec fn is_duration(property: ObservedProperty) -> bool {
    property matches ObservedProperty::Duration
}

/// The resume position to seek to now, and what stays pending: once the
/// loaded file's duration is known to be positive, mpv can seek, and the
/// pending position is taken; any other property change leaves it pending.
pub open spec fn start_seek_step<T>(pending: Option<T>, property: ObservedProperty, duration_positive: bool) -> (Option<T>, Option<T>) {
    if is_duration(property) && duration_positive {
        (pending, None)
    } else {
        (None, pending)
    }
}

pub fn take_start_seek<T>(pending: &mut Option<T>, property: ObservedProperty, duration_positive: bool) -> (seek: Option<T>)
    ensures
        (seek, *final(pending)) == start_seek_step(*old(pending), property, duration_positive),
{
    let due = match property {
        ObservedProperty::Duration => duration_positive,
        _ => false,
    };
    if due {
        pending.take()
    } else {
        None
    }
}

/// The resume seek happens at most once: after one event took the pending
/// position, no later event finds anything to seek to.
pub proof fn law_start_seek_at_most_once<T>(
    pending: Option<T>,
    first: ObservedProperty,
    first_positive: bool,
    later: ObservedProperty,
    later_positive: bool,
)
    requires
        start_seek_step(pending, first, first_positive).0 is Some,
    ensures
        start_seek_step(start_seek_step(pending, first, first_positive).1, later, later_positive).0 is None,
{
}

/// The resume seek is due exactly on a positive duration: it then takes the
/// pending position, and any other property change leaves it pending.
pub proof fn law_start_seek_when_due<T>(pending: Option<T>, property: ObservedProperty, positive: bool)
    ensures
        property == ObservedProperty::Duration && positive ==> start_seek_step(
            pending,
            property,
            positive,
        ) == (pending, None::<T>),
        !(property == ObservedProperty::Duration && positive) ==> start_seek_step(
            pending,
            property,
            positive,
        ) == (None::<T>, pending),
{
}

} // verus!
