use cocuyo::recording::{
    capture_fps, capture_size, DriverAction, DriverEvent, DriverPhase, RecordingDriver, RecordingState, StartOutcome,
};

fn opened(frame_interval_ns: Option<u64>) -> RecordingDriver {
    let mut d = RecordingDriver::new(frame_interval_ns);
    assert_eq!(
        d.step(DriverEvent::Begin),
        vec![DriverAction::EmitReady, DriverAction::EmitState(RecordingState::Starting), DriverAction::StartBackend]
    );
    d
}

fn recording(frame_interval_ns: Option<u64>) -> RecordingDriver {
    let mut d = opened(frame_interval_ns);
    assert_eq!(
        d.step(DriverEvent::Start(StartOutcome::Started)),
        vec![DriverAction::EmitState(RecordingState::Recording)]
    );
    d
}

#[test]
fn test_successful_lifecycle() {
    let mut d = recording(None);
    assert_eq!(d.step(DriverEvent::Frame { now_ns: 10 }), vec![DriverAction::ForwardFrame]);
    assert_eq!(
        d.step(DriverEvent::Stop),
        vec![
            DriverAction::DropFrameStream,
            DriverAction::RunShutdown,
            DriverAction::EmitState(RecordingState::Idle),
            DriverAction::Park,
        ]
    );
    assert_eq!(d.phase, DriverPhase::Parked);
}

#[test]
fn test_cancelled_backend() {
    let mut d = opened(None);
    assert_eq!(
        d.step(DriverEvent::Start(StartOutcome::Cancelled)),
        vec![DriverAction::EmitState(RecordingState::Idle), DriverAction::Park]
    );
    // Parked: nothing more happens.
    assert!(d.step(DriverEvent::Frame { now_ns: 50 }).is_empty());
    assert!(d.step(DriverEvent::Stop).is_empty());
}

#[test]
fn test_failed_backend() {
    let mut d = opened(None);
    assert_eq!(
        d.step(DriverEvent::Start(StartOutcome::Failed("oops".to_string()))),
        vec![DriverAction::EmitState(RecordingState::Error("oops".to_string())), DriverAction::Park]
    );
    assert!(d.step(DriverEvent::FramesEnded).is_empty());
}

#[test]
fn test_fps_gating() {
    // fps_limit = 1: a one-second interval.
    let mut d = recording(Some(1_000_000_000));
    assert_eq!(d.step(DriverEvent::Frame { now_ns: 5 }), vec![DriverAction::ForwardFrame]);
    assert!(d.step(DriverEvent::Frame { now_ns: 6 }).is_empty());
    assert!(d.step(DriverEvent::Frame { now_ns: 7 }).is_empty());
    assert_eq!(
        d.step(DriverEvent::FramesEnded),
        vec![DriverAction::RunShutdown, DriverAction::EmitState(RecordingState::Idle), DriverAction::Park]
    );
}

#[test]
fn test_stream_ends_when_frames_close() {
    let mut d = recording(None);
    assert_eq!(
        d.step(DriverEvent::FramesEnded),
        vec![DriverAction::RunShutdown, DriverAction::EmitState(RecordingState::Idle), DriverAction::Park]
    );
}

#[test]
fn test_zero_fps_limit_forwards_all() {
    let mut d = recording(None);
    for t in [1u64, 1, 2] {
        assert_eq!(d.step(DriverEvent::Frame { now_ns: t }), vec![DriverAction::ForwardFrame]);
    }
}

#[test]
fn frame_after_interval_is_forwarded_again() {
    let mut d = recording(Some(100));
    assert_eq!(d.step(DriverEvent::Frame { now_ns: 1000 }), vec![DriverAction::ForwardFrame]);
    assert!(d.step(DriverEvent::Frame { now_ns: 1099 }).is_empty());
    assert_eq!(d.step(DriverEvent::Frame { now_ns: 1100 }), vec![DriverAction::ForwardFrame]);
    assert_eq!(d.last_forwarded_ns, Some(1100));
}

#[test]
fn forward_failure_ends_session_once() {
    let mut d = recording(None);
    assert_eq!(
        d.step(DriverEvent::ForwardFailed),
        vec![DriverAction::RunShutdown, DriverAction::EmitState(RecordingState::Idle), DriverAction::Park]
    );
    assert!(d.step(DriverEvent::Stop).is_empty());
    assert!(!d.shutdown_pending);
}

#[test]
fn events_before_start_are_ignored() {
    let mut d = RecordingDriver::new(None);
    assert!(d.step(DriverEvent::Frame { now_ns: 1 }).is_empty());
    assert!(d.step(DriverEvent::Stop).is_empty());
    assert_eq!(d.phase, DriverPhase::Created);
}

#[test]
fn capture_size_follows_resolution_setting() {
    assert_eq!(capture_size(1920, 1080, 100), (1920, 1080));
    assert_eq!(capture_size(1920, 1080, 250), (1920, 1080));
    assert_eq!(capture_size(1920, 1080, 50), (960, 540));
    assert_eq!(capture_size(1921, 1081, 50), (960, 540));
    assert_eq!(capture_size(1920, 1080, 10), (480, 270));
    assert_eq!(capture_fps(0), 60);
    assert_eq!(capture_fps(24), 24);
}
