use open_agent::desktop_stream::{
    capture_args, capture_failure_message, clamp_fps, clamp_quality, display_is_valid,
    frame_interval, parse_client_command, ClientCommand, StreamParams, StreamState, StreamStep,
};

#[test]
fn test_stream_params_defaults() {
    let params = StreamParams { display: ":99".to_string(), fps: None, quality: None };
    assert_eq!(params.fps.unwrap_or(10), 10);
    assert_eq!(params.quality.unwrap_or(70), 70);
    let state = StreamState::new(&params);
    assert_eq!(state.frame_interval_ms, 100);
    assert_eq!(state.quality, 70);
    assert!(!state.paused);
}

#[test]
fn test_fps_clamping() {
    assert_eq!(clamp_fps(0), 1);
    assert_eq!(clamp_fps(50), 30);
    assert_eq!(clamp_fps(15), 15);
}

#[test]
fn quality_is_clamped() {
    assert_eq!(clamp_quality(5), 10);
    assert_eq!(clamp_quality(150), 100);
    assert_eq!(clamp_quality(70), 70);
}

#[test]
fn frame_interval_follows_cadence() {
    assert_eq!(frame_interval(0), 1000);
    assert_eq!(frame_interval(1), 1000);
    assert_eq!(frame_interval(10), 100);
    assert_eq!(frame_interval(30), 33);
    assert_eq!(frame_interval(50), 33);
}

#[test]
fn display_must_begin_with_a_colon() {
    assert!(display_is_valid(":99"));
    assert!(!display_is_valid("99"));
    assert!(!display_is_valid(""));
}

#[test]
fn commands_are_read_from_json() {
    assert_eq!(parse_client_command(r#"{"t":"pause"}"#), Some(ClientCommand::Pause));
    assert_eq!(parse_client_command(r#"{"t":"resume"}"#), Some(ClientCommand::Resume));
    assert_eq!(
        parse_client_command(r#"{"t":"fps","fps":50}"#),
        Some(ClientCommand::SetFps { fps: 50 })
    );
    assert_eq!(
        parse_client_command(r#"{"t":"quality","quality":5}"#),
        Some(ClientCommand::SetQuality { quality: 5 })
    );
    assert_eq!(parse_client_command(r#"{"t":"fps"}"#), None);
    assert_eq!(parse_client_command(r#"{"t":"fps","fps":4294967296}"#), None);
    assert_eq!(parse_client_command(r#"{"t":"zoom"}"#), None);
    assert_eq!(parse_client_command("not json"), None);
}

#[test]
fn commands_steer_the_stream() {
    let params = StreamParams { display: ":1".to_string(), fps: Some(20), quality: Some(80) };
    let mut state = StreamState::new(&params);
    assert_eq!(state.next_step(), StreamStep::Capture { quality: 80 });
    state.apply(ClientCommand::Pause);
    assert_eq!(state.next_step(), StreamStep::Sleep { ms: 100 });
    state.apply(ClientCommand::SetQuality { quality: 150 });
    state.apply(ClientCommand::SetFps { fps: 0 });
    state.apply(ClientCommand::Resume);
    assert_eq!(state.next_step(), StreamStep::Capture { quality: 100 });
    assert_eq!(state.frame_interval_ms, 1000);
}

#[test]
fn failed_capture_waits_longer() {
    let params = StreamParams { display: ":1".to_string(), fps: Some(10), quality: None };
    let state = StreamState::new(&params);
    assert_eq!(state.after_capture(true, true), Some(100));
    assert_eq!(state.after_capture(false, true), Some(600));
    assert_eq!(state.after_capture(true, false), None);
    assert_eq!(state.after_capture(false, false), None);
}

#[test]
fn capture_arguments() {
    assert_eq!(capture_args(70), vec!["-window", "root", "-quality", "70", "jpeg:-"]);
}

#[test]
fn capture_failures_are_explained() {
    assert_eq!(
        capture_failure_message(":99", "import: unable to open X server `:99'"),
        "Display :99 is no longer available. The desktop session may have been closed."
    );
    assert_eq!(
        capture_failure_message(":99", "Can't open display"),
        "Cannot connect to display :99. The session may have ended."
    );
    assert_eq!(capture_failure_message(":99", "  boom \n"), "Screenshot failed: boom");
}
