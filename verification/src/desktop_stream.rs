//! Streaming a virtual display as a sequence of JPEG frames.
//!
//! The caller captures the root window and writes to the socket; this module
//! holds the stream's state: the cadence, the quality, whether it is paused,
//! and what each client command does to them.

use crate::json::{json_str_field, json_u64_field, str_field, u64_field};
use crate::text::{
    chars_of, contains, contains_exec, decimal, decimal_exec, extend_chars, extend_str, join2,
    push_arg, str_eq, string_of, trim, trim_exec, view_opt, view_strs,
};
use vstd::prelude::*;

verus! {

/// Frames per second where the client names none.
pub const DEFAULT_FPS: u32 = 10;

/// The least and the greatest cadence, in frames per second.
pub const MIN_FPS: u32 = 1;

pub const MAX_FPS: u32 = 30;

/// JPEG quality where the client names none.
pub const DEFAULT_QUALITY: u32 = 70;

/// The least and the greatest JPEG quality.
pub const MIN_QUALITY: u32 = 10;

pub const MAX_QUALITY: u32 = 100;

/// How long a paused stream sleeps before it looks for commands again, in
/// milliseconds.
pub const PAUSE_POLL_MS: u64 = 100;

/// How long the stream waits after a failed capture, in milliseconds.
pub const CAPTURE_RETRY_MS: u64 = 500;

/// The query of the stream endpoint.
#[derive(Debug, Clone, PartialEq, Eq)]
pub struct StreamParams {
    /// The display, such as `:99`.
    pub display: String,
    /// Frames per second asked for.
    pub fps: Option<u32>,
    /// JPEG quality asked for.
    pub quality: Option<u32>,
}

/// `value` brought into the range from `low` to `high`.
pub open spec fn clamped(value: u32, low: u32, high: u32) -> u32 {
    if value < low {
        low
    } else if value > high {
        high
    } else {
        value
    }
}

/// The cadence used for a requested one: at least 1 and at most 30 frames
/// per second.
pub fn clamp_fps(fps: u32) -> (r: u32)
    ensures
        r == clamped(fps, MIN_FPS, MAX_FPS),
        MIN_FPS <= r <= MAX_FPS,
{
    if fps < MIN_FPS {
        MIN_FPS
    } else if fps > MAX_FPS {
        MAX_FPS
    } else {
        fps
    }
}

/// The quality used for a requested one: at least 10 and at most 100.
pub fn clamp_quality(quality: u32) -> (r: u32)
    ensures
        r == clamped(quality, MIN_QUALITY, MAX_QUALITY),
        MIN_QUALITY <= r <= MAX_QUALITY,
{
    if quality < MIN_QUALITY {
        MIN_QUALITY
    } else if quality > MAX_QUALITY {
        MAX_QUALITY
    } else {
        quality
    }
}

/// Whether a display identifier has the form the stream accepts: it begins
/// with a colon. Anything else is turned down with status 400.
pub fn display_is_valid(display: &str) -> (r: bool)
    ensures
        r == (display@.len() > 0 && display@[0] == ':'),
{
    let d = chars_of(display);
    d.len() > 0 && d[0] == ':'
}

/// A command by which the client steers the stream.
#[derive(Debug, Clone, Copy, PartialEq, Eq)]
pub enum ClientCommand {
    Pause,
    Resume,
    SetFps { fps: u32 },
    SetQuality { quality: u32 },
}

/// The command that the fields of a JSON object stand for, by its tag:
/// `pause`, `resume`, `fps` with a number `fps`, `quality` with a number
/// `quality`; the numbers must fit 32 bits.
pub open spec fn command_of_fields(
    tag: Option<Seq<char>>,
    fps: Option<u64>,
    quality: Option<u64>,
) -> Option<ClientCommand> {
    if tag == Some("pause"@) {
        Some(ClientCommand::Pause)
    } else if tag == Some("resume"@) {
        Some(ClientCommand::Resume)
    } else if tag == Some("fps"@) {
        match fps {
            Some(n) => if n <= 0xffff_ffff {
                Some(ClientCommand::SetFps { fps: n as u32 })
            } else {
                None
            },
            None => None,
        }
    } else if tag == Some("quality"@) {
        match quality {
            Some(n) => if n <= 0xffff_ffff {
                Some(ClientCommand::SetQuality { quality: n as u32 })
            } else {
                None
            },
            None => None,
        }
    } else {
        None
    }
}

/// Builds a command from the fields read out of a JSON object.
pub fn client_command_from_fields(tag: Option<String>, fps: Option<u64>, quality: Option<u64>) -> (r:
    Option<ClientCommand>)
    ensures
        r == command_of_fields(view_opt(tag), fps, quality),
{
    let t = match tag {
        Some(t) => t,
        None => {
            return None;
        },
    };
    if str_eq(t.as_str(), "pause") {
        Some(ClientCommand::Pause)
    } else if str_eq(t.as_str(), "resume") {
        Some(ClientCommand::Resume)
    } else if str_eq(t.as_str(), "fps") {
        match fps {
            Some(n) => if n <= 0xffff_ffff {
                Some(ClientCommand::SetFps { fps: n as u32 })
            } else {
                None
            },
            None => None,
        }
    } else if str_eq(t.as_str(), "quality") {
        match quality {
            Some(n) => if n <= 0xffff_ffff {
                Some(ClientCommand::SetQuality { quality: n as u32 })
            } else {
                None
            },
            None => None,
        }
    } else {
        None
    }
}

/// Reads a command from the text of a socket message; text that holds none
/// is dropped by the caller.
pub fn parse_client_command(text: &str) -> (r: Option<ClientCommand>)
    ensures
        r == command_of_fields(
            json_str_field(text@, "t"@),
            json_u64_field(text@, "fps"@),
            json_u64_field(text@, "quality"@),
        ),
{
    let tag = str_field(text, "t");
    let fps = u64_field(text, "fps");
    let quality = u64_field(text, "quality");
    client_command_from_fields(tag, fps, quality)
}

/// The state of a running stream.
#[derive(Debug, Clone, Copy, PartialEq, Eq)]
pub struct StreamState {
    pub paused: bool,
    /// The JPEG quality of the next capture.
    pub quality: u32,
    /// The time between two frames, in milliseconds.
    pub frame_interval_ms: u64,
}

/// The time between two frames at `fps` frames per second, in whole
/// milliseconds.
pub open spec fn interval_of(fps: u32) -> u64 {
    (1000int / (clamped(fps, MIN_FPS, MAX_FPS) as int)) as u64
}

/// Computes the time between two frames for a requested cadence.
pub fn frame_interval(fps: u32) -> (r: u64)
    ensures
        r == interval_of(fps),
        33 <= r <= 1000,
{
    let f: u64 = clamp_fps(fps) as u64;
    assert(33 <= 1000int / (f as int) <= 1000) by (nonlinear_arith)
        requires
            1 <= f <= 30,
    ;
    1000 / f
}

impl StreamState {
    /// The quality is within its range, and the interval is that of a cadence
    /// within its range.
    pub open spec fn wf(self) -> bool {
        &&& MIN_QUALITY <= self.quality <= MAX_QUALITY
        &&& 33 <= self.frame_interval_ms <= 1000
    }

    /// The state in which a stream starts.
    pub open spec fn initial(fps: Option<u32>, quality: Option<u32>) -> StreamState {
        StreamState {
            paused: false,
            quality: clamped(
                match quality {
                    Some(q) => q,
                    None => DEFAULT_QUALITY,
                },
                MIN_QUALITY,
                MAX_QUALITY,
            ),
            frame_interval_ms: interval_of(
                match fps {
                    Some(f) => f,
                    None => DEFAULT_FPS,
                },
            ),
        }
    }

    /// The state after a command.
    pub open spec fn after(self, command: ClientCommand) -> StreamState {
        match command {
            ClientCommand::Pause => StreamState { paused: true, ..self },
            ClientCommand::Resume => StreamState { paused: false, ..self },
            ClientCommand::SetFps { fps } => StreamState {
                frame_interval_ms: interval_of(fps),
                ..self
            },
            ClientCommand::SetQuality { quality } => StreamState {
                quality: clamped(quality, MIN_QUALITY, MAX_QUALITY),
                ..self
            },
        }
    }

    /// Starts a stream with the cadence and quality the client asked for,
    /// each brought into its range, and not paused.
    pub fn new(params: &StreamParams) -> (s: StreamState)
        ensures
            s == StreamState::initial(params.fps, params.quality),
            s.wf(),
    {
        let interval = frame_interval(
            match params.fps {
                Some(f) => f,
                None => DEFAULT_FPS,
            },
        );
        let quality = clamp_quality(
            match params.quality {
                Some(q) => q,
                None => DEFAULT_QUALITY,
            },
        );
        StreamState { paused: false, quality, frame_interval_ms: interval }
    }

    /// Applies one client command.
    pub fn apply(&mut self, command: ClientCommand)
        requires
            old(self).wf(),
        ensures
            *final(self) == old(self).after(command),
            final(self).wf(),
    {
        match command {
            ClientCommand::Pause => {
                self.paused = true;
            },
            ClientCommand::Resume => {
                self.paused = false;
            },
            ClientCommand::SetFps { fps } => {
                self.frame_interval_ms = frame_interval(fps);
            },
            ClientCommand::SetQuality { quality } => {
                self.quality = clamp_quality(quality);
            },
        }
    }

    /// What the capture loop does next.
    pub fn next_step(&self) -> (r: StreamStep)
        ensures
            r == (if self.paused {
                StreamStep::Sleep { ms: PAUSE_POLL_MS }
            } else {
                StreamStep::Capture { quality: self.quality }
            }),
    {
        if self.paused {
            StreamStep::Sleep { ms: PAUSE_POLL_MS }
        } else {
            StreamStep::Capture { quality: self.quality }
        }
    }

    /// What the capture loop does once a capture has been tried and its
    /// result, the frame or the error message, has been written to the
    /// socket. A socket that no longer takes messages ends the stream; a
    /// failed capture costs the retry delay on top of the frame interval.
    pub fn after_capture(&self, captured: bool, sent: bool) -> (r: Option<u64>)
        requires
            self.wf(),
        ensures
            r == (if !sent {
                None::<u64>
            } else if captured {
                Some(self.frame_interval_ms)
            } else {
                Some((CAPTURE_RETRY_MS + self.frame_interval_ms) as u64)
            }),
    {
        if !sent {
            None
        } else if captured {
            Some(self.frame_interval_ms)
        } else {
            Some(CAPTURE_RETRY_MS + self.frame_interval_ms)
        }
    }
}

/// One step of the capture loop.
#[derive(Debug, Clone, Copy, PartialEq, Eq)]
pub enum StreamStep {
    /// Sleep for so many milliseconds, then look for commands again.
    Sleep { ms: u64 },
    /// Capture a frame at this quality and send it.
    Capture { quality: u32 },
}

/// The arguments of the `import` program that writes the root window as JPEG
/// of the given quality to its standard output.
pub fn capture_args(quality: u32) -> (r: Vec<String>)
    ensures
        view_strs(r@) == seq![
            "-window"@,
            "root"@,
            "-quality"@,
            decimal(quality as nat),
            "jpeg:-"@,
        ],
{
    let mut args: Vec<String> = Vec::new();
    assert(view_strs(args@) =~= Seq::<Seq<char>>::empty());
    push_arg(&mut args, "-window");
    push_arg(&mut args, "root");
    push_arg(&mut args, "-quality");
    let q = string_of(&decimal_exec(quality as u64));
    push_arg(&mut args, q.as_str());
    push_arg(&mut args, "jpeg:-");
    assert(view_strs(args@) =~= seq![
        "-window"@,
        "root"@,
        "-quality"@,
        decimal(quality as nat),
        "jpeg:-"@,
    ]);
    args
}

/// The message for a capture that ended with a failure status, read off the
/// capture program's standard error.
pub open spec fn capture_failure(display: Seq<char>, stderr: Seq<char>) -> Seq<char> {
    if contains(stderr, "unable to open X server"@) {
        "Display "@ + display
            + " is no longer available. The desktop session may have been closed."@
    } else if contains(stderr, "Can't open display"@) || contains(
        stderr,
        "cannot open display"@,
    ) {
        "Cannot connect to display "@ + display + ". The session may have ended."@
    } else {
        "Screenshot failed: "@ + trim(stderr)
    }
}

/// Turns the standard error of a failed capture into a message for the
/// client: a vanished display is reported as such, anything else verbatim.
pub fn capture_failure_message(display: &str, stderr: &str) -> (r: String)
    ensures
        r@ == capture_failure(display@, stderr@),
{
    let e = chars_of(stderr);
    let gone = chars_of("unable to open X server");
    let cant = chars_of("Can't open display");
    let cannot = chars_of("cannot open display");
    if contains_exec(&e, &gone) {
        let mut out = chars_of("Display ");
        extend_str(&mut out, display);
        extend_str(
            &mut out,
            " is no longer available. The desktop session may have been closed.",
        );
        string_of(&out)
    } else if contains_exec(&e, &cant) || contains_exec(&e, &cannot) {
        let mut out = chars_of("Cannot connect to display ");
        extend_str(&mut out, display);
        extend_str(&mut out, ". The session may have ended.");
        string_of(&out)
    } else {
        let mut out = chars_of("Screenshot failed: ");
        let t = trim_exec(&e);
        extend_chars(&mut out, &t);
        string_of(&out)
    }
}

/// The message for a capture program that could not be run at all.
pub fn capture_spawn_failure_message(error: &str) -> (r: String)
    ensures
        r@ == "Failed to run import: "@ + error@,
{
    join2("Failed to run import: ", error)
}

/// The `error` member of the JSON frame that reports a failed capture.
pub fn capture_error_code() -> (r: &'static str)
    ensures
        r@ == "capture_failed"@,
{
    "capture_failed"
}

} // verus!
