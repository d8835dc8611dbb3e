//! The recording lifecycle: states, commands and the driver that decides,
//! for each event of a capture session, what to emit and what to do next.

use vstd::prelude::*;

verus! {

/// Recording lifecycle state, emitted to the application.
#[derive(Debug, Clone, PartialEq, Eq)]
pub enum RecordingState {
    Idle,
    Starting,
    Recording,
    Error(String),
}

/// Commands sent from the app to the recording session.
#[derive(Debug, Clone, Copy, PartialEq, Eq)]
pub enum RecordingCommand {
    Stop,
}

/// Outcome of starting the platform capture backend.
#[derive(Debug, Clone, PartialEq, Eq)]
pub enum StartOutcome {
    /// Capture started successfully.
    Started,
    /// User cancelled setup (e.g. dismissed a picker).
    Cancelled,
    /// Setup failed with a message.
    Failed(String),
}

/// What happened in the session.
#[derive(Debug, Clone, PartialEq, Eq)]
pub enum DriverEvent {
    /// The session is polled for the first time.
    Begin,
    /// The backend finished its setup.
    Start(StartOutcome),
    /// The capture source produced a frame at monotonic time `now_ns`.
    Frame { now_ns: u64 },
    /// A forwarded frame could not be delivered (the receiver is gone).
    ForwardFailed,
    /// The capture source ended.
    FramesEnded,
    /// `Stop` was received, or the command channel closed.
    Stop,
}

/// What the session runner must do, in order.
#[derive(Debug, Clone, PartialEq, Eq)]
pub enum DriverAction {
    /// Emit the ready event carrying the command sender.
    EmitReady,
    /// Emit a state change.
    EmitState(RecordingState),
    /// Start the platform backend.
    StartBackend,
    /// Forward the frame just received.
    ForwardFrame,
    /// Drop the frame stream so the capture source notices.
    DropFrameStream,
    /// Run the backend's shutdown hook.
    RunShutdown,
    /// Stay pending forever (the session must not end).
    Park,
}

#[derive(Debug, Clone, Copy, PartialEq, Eq, Structural)]
pub enum DriverPhase {
    Created,
    Starting,
    Recording,
    Parked,
}

/// The recording session's decisions: lifecycle, FPS gating and shutdown.
#[derive(Debug, Clone, Copy, PartialEq, Eq)]
pub struct RecordingDriver {
    pub phase: DriverPhase,
    /// Minimum time between forwarded frames; `None` forwards every frame.
    pub frame_interval_ns: Option<u64>,
    /// When the last frame was forwarded.
    pub last_forwarded_ns: Option<u64>,
    /// The backend's shutdown hook has not run yet.
    pub shutdown_pending: bool,
}

/// A frame arriving at `now` is dropped: it is within the frame interval of
/// the last forwarded frame (elapsed time never counts below zero).
pub open spec fn frame_gated(interval: Option<u64>, last: Option<u64>, now: u64) -> bool {
    match (interval, last) {
        (Some(i), Some(l)) => (if now >= l { now - l } else { 0 }) < i,
        _ => false,
    }
}

/// Leaving the recording loop: run the shutdown hook if still pending, emit
/// `Idle` and stay pending.
pub open spec fn finish_actions(pending: bool, dropped_frames: bool) -> Seq<DriverAction> {
    let shut = if pending { seq![DriverAction::RunShutdown] } else { Seq::empty() };
    let drop = if dropped_frames { seq![DriverAction::DropFrameStream] } else { Seq::empty() };
    drop + shut + seq![DriverAction::EmitState(RecordingState::Idle), DriverAction::Park]
}

/// One step of the session: the next driver and the actions to perform.
pub open spec fn driver_step(d: RecordingDriver, e: DriverEvent) -> (RecordingDriver, Seq<DriverAction>) {
    match (d.phase, e) {
        (DriverPhase::Created, DriverEvent::Begin) => (
            RecordingDriver { phase: DriverPhase::Starting, ..d },
            seq![DriverAction::EmitReady, DriverAction::EmitState(RecordingState::Starting), DriverAction::StartBackend],
        ),
        (DriverPhase::Starting, DriverEvent::Start(StartOutcome::Started)) => (
            RecordingDriver { phase: DriverPhase::Recording, last_forwarded_ns: None, shutdown_pending: true, ..d },
            seq![DriverAction::EmitState(RecordingState::Recording)],
        ),
        (DriverPhase::Starting, DriverEvent::Start(StartOutcome::Cancelled)) => (
            RecordingDriver { phase: DriverPhase::Parked, ..d },
            seq![DriverAction::EmitState(RecordingState::Idle), DriverAction::Park],
        ),
        (DriverPhase::Starting, DriverEvent::Start(StartOutcome::Failed(msg))) => (
            RecordingDriver { phase: DriverPhase::Parked, ..d },
            seq![DriverAction::EmitState(RecordingState::Error(msg)), DriverAction::Park],
        ),
        (DriverPhase::Recording, DriverEvent::Frame { now_ns }) =>
            if frame_gated(d.frame_interval_ns, d.last_forwarded_ns, now_ns) {
                (d, Seq::empty())
            } else {
                (RecordingDriver { last_forwarded_ns: Some(now_ns), ..d }, seq![DriverAction::ForwardFrame])
            },
        (DriverPhase::Recording, DriverEvent::ForwardFailed) | (DriverPhase::Recording, DriverEvent::FramesEnded) => (
            RecordingDriver { phase: DriverPhase::Parked, shutdown_pending: false, ..d },
            finish_actions(d.shutdown_pending, false),
        ),
        (DriverPhase::Recording, DriverEvent::Stop) => (
            RecordingDriver { phase: DriverPhase::Parked, shutdown_pending: false, ..d },
            finish_actions(d.shutdown_pending, true),
        ),
        _ => (d, Seq::empty()),
    }
}

impl RecordingDriver {
    /// A session that forwards frames at most once per `frame_interval_ns`
    /// (`None`: no limit).
    pub fn new(frame_interval_ns: Option<u64>) -> (out: Self)
        ensures
            out == (RecordingDriver {
                phase: DriverPhase::Created,
                frame_interval_ns,
                last_forwarded_ns: None,
                shutdown_pending: false,
            }),
    {
        RecordingDriver { phase: DriverPhase::Created, frame_interval_ns, last_forwarded_ns: None, shutdown_pending: false }
    }

    /// Advance the session by one event and return what to do.
    pub fn step(&mut self, event: DriverEvent) -> (actions: Vec<DriverAction>)
        ensures
            (*final(self), actions@) == driver_step(*old(self), event),
    {
        let mut actions: Vec<DriverAction> = Vec::new();
        let ghost d = *self;
        let ghost ev = event;
        match (self.phase, event) {
            (DriverPhase::Created, DriverEvent::Begin) => {
                self.phase = DriverPhase::Starting;
                actions.push(DriverAction::EmitReady);
                actions.push(DriverAction::EmitState(RecordingState::Starting));
                actions.push(DriverAction::StartBackend);
            },
            (DriverPhase::Starting, DriverEvent::Start(outcome)) => {
                match outcome {
                    StartOutcome::Started => {
                        self.phase = DriverPhase::Recording;
                        self.last_forwarded_ns = None;
                        self.shutdown_pending = true;
                        actions.push(DriverAction::EmitState(RecordingState::Recording));
                    },
                    StartOutcome::Cancelled => {
                        self.phase = DriverPhase::Parked;
                        actions.push(DriverAction::EmitState(RecordingState::Idle));
                        actions.push(DriverAction::Park);
                    },
                    StartOutcome::Failed(msg) => {
                        self.phase = DriverPhase::Parked;
                        actions.push(DriverAction::EmitState(RecordingState::Error(msg)));
                        actions.push(DriverAction::Park);
                    },
                }
            },
            (DriverPhase::Recording, DriverEvent::Frame { now_ns }) => {
                let gated = match (self.frame_interval_ns, self.last_forwarded_ns) {
                    (Some(interval), Some(last)) => {
                        let elapsed = if now_ns >= last { now_ns - last } else { 0 };
                        elapsed < interval
                    },
                    _ => false,
                };
                if !gated {
                    self.last_forwarded_ns = Some(now_ns);
                    actions.push(DriverAction::ForwardFrame);
                }
            },
            (DriverPhase::Recording, DriverEvent::ForwardFailed) | (DriverPhase::Recording, DriverEvent::FramesEnded) => {
                if self.shutdown_pending {
                    actions.push(DriverAction::RunShutdown);
                }
                self.shutdown_pending = false;
                self.phase = DriverPhase::Parked;
                actions.push(DriverAction::EmitState(RecordingState::Idle));
                actions.push(DriverAction::Park);
                assert(actions@ =~= finish_actions(d.shutdown_pending, false));
            },
            (DriverPhase::Recording, DriverEvent::Stop) => {
                actions.push(DriverAction::DropFrameStream);
                if self.shutdown_pending {
                    actions.push(DriverAction::RunShutdown);
                }
                self.shutdown_pending = false;
                self.phase = DriverPhase::Parked;
                actions.push(DriverAction::EmitState(RecordingState::Idle));
                actions.push(DriverAction::Park);
                assert(actions@ =~= finish_actions(d.shutdown_pending, true));
            },
            _ => {},
        }
        assert((*self, actions@) == driver_step(d, ev));
        actions
    }
}


/// Run a sequence of events from a driver, collecting all actions.
pub open spec fn run_events(d: RecordingDriver, events: Seq<DriverEvent>) -> (RecordingDriver, Seq<DriverAction>)
    decreases events.len(),
{
    if events.len() == 0 {
        (d, Seq::empty())
    } else {
        let (d1, a1) = run_events(d, events.drop_last());
        let (d2, a2) = driver_step(d1, events.last());
        (d2, a1 + a2)
    }
}

/// Number of shutdown-hook runs among the actions.
pub open spec fn shutdown_runs(acts: Seq<DriverAction>) -> int
    decreases acts.len(),
{
    if acts.len() == 0 {
        0
    } else {
        shutdown_runs(acts.drop_last()) + if acts.last() == DriverAction::RunShutdown { 1int } else { 0int }
    }
}

pub proof fn lemma_shutdown_runs_add(a: Seq<DriverAction>, b: Seq<DriverAction>)
    ensures
        shutdown_runs(a + b) == shutdown_runs(a) + shutdown_runs(b),
    decreases b.len(),
{
    if b.len() == 0 {
        assert(a + b =~= a);
    } else {
        lemma_shutdown_runs_add(a, b.drop_last());
        assert((a + b).drop_last() =~= a + b.drop_last());
    }
}

pub proof fn lemma_shutdown_runs_of_step(d: RecordingDriver, e: DriverEvent)
    ensures
        shutdown_runs(driver_step(d, e).1) == if d.shutdown_pending && !driver_step(d, e).0.shutdown_pending { 1int } else { 0int },
        d.phase == DriverPhase::Recording ==> driver_step(d, e).0.phase == DriverPhase::Recording || driver_step(d, e).0.phase == DriverPhase::Parked,
{
    reveal_with_fuel(shutdown_runs, 4);
    let acts = driver_step(d, e).1;
    match (d.phase, e) {
        (DriverPhase::Recording, DriverEvent::ForwardFailed) | (DriverPhase::Recording, DriverEvent::FramesEnded) => {
            let shut = if d.shutdown_pending { seq![DriverAction::RunShutdown] } else { Seq::empty() };
            let tail = seq![DriverAction::EmitState(RecordingState::Idle), DriverAction::Park];
            assert(acts =~= Seq::<DriverAction>::empty() + shut + tail);
            lemma_shutdown_runs_add(Seq::<DriverAction>::empty() + shut, tail);
            lemma_shutdown_runs_add(Seq::<DriverAction>::empty(), shut);
            assert(shutdown_runs(tail.drop_last()) == 0) by {
                assert(tail.drop_last().drop_last() =~= Seq::<DriverAction>::empty());
            }
            if d.shutdown_pending {
                assert(shut.drop_last() =~= Seq::<DriverAction>::empty());
            }
        },
        (DriverPhase::Recording, DriverEvent::Stop) => {
            let shut = if d.shutdown_pending { seq![DriverAction::RunShutdown] } else { Seq::empty() };
            let drop = seq![DriverAction::DropFrameStream];
            let tail = seq![DriverAction::EmitState(RecordingState::Idle), DriverAction::Park];
            assert(acts =~= drop + shut + tail);
            lemma_shutdown_runs_add(drop + shut, tail);
            lemma_shutdown_runs_add(drop, shut);
            assert(shutdown_runs(tail.drop_last()) == 0) by {
                assert(tail.drop_last().drop_last() =~= Seq::<DriverAction>::empty());
            }
            assert(drop.drop_last() =~= Seq::<DriverAction>::empty());
            if d.shutdown_pending {
                assert(shut.drop_last() =~= Seq::<DriverAction>::empty());
            }
        },
        (DriverPhase::Created, DriverEvent::Begin) => {
            assert(acts.drop_last().drop_last().drop_last() =~= Seq::<DriverAction>::empty());
        },
        (DriverPhase::Starting, DriverEvent::Start(o)) => {
            match o {
                StartOutcome::Started => {
                    assert(acts.drop_last() =~= Seq::<DriverAction>::empty());
                },
                _ => {
                    assert(acts.drop_last().drop_last() =~= Seq::<DriverAction>::empty());
                },
            }
        },
        (DriverPhase::Recording, DriverEvent::Frame { now_ns }) => {
            if !frame_gated(d.frame_interval_ns, d.last_forwarded_ns, now_ns) {
                assert(acts.drop_last() =~= Seq::<DriverAction>::empty());
            }
        },
        _ => {},
    }
}

/// A session runs its backend's shutdown hook at most once, whatever
/// happens: the runs so far plus the pending hook never exceed one, and while
/// recording the hook is still pending.
pub proof fn lemma_shutdown_at_most_once(frame_interval_ns: Option<u64>, events: Seq<DriverEvent>)
    ensures
        ({
            let d0 = RecordingDriver { phase: DriverPhase::Created, frame_interval_ns, last_forwarded_ns: None, shutdown_pending: false };
            let (d, acts) = run_events(d0, events);
            &&& shutdown_runs(acts) + (if d.shutdown_pending { 1int } else { 0int }) <= 1
            &&& d.phase == DriverPhase::Recording ==> d.shutdown_pending
            &&& (d.phase == DriverPhase::Created || d.phase == DriverPhase::Starting) ==> shutdown_runs(acts) == 0 && !d.shutdown_pending
        }),
    decreases events.len(),
{
    let d0 = RecordingDriver { phase: DriverPhase::Created, frame_interval_ns, last_forwarded_ns: None, shutdown_pending: false };
    if events.len() > 0 {
        lemma_shutdown_at_most_once(frame_interval_ns, events.drop_last());
        let (d1, a1) = run_events(d0, events.drop_last());
        let (d2, a2) = driver_step(d1, events.last());
        lemma_shutdown_runs_of_step(d1, events.last());
        lemma_shutdown_runs_add(a1, a2);
    }
}

/// A session that stops recording, for any reason, runs the pending shutdown
/// hook exactly once and ends by emitting `Idle` and staying pending.
pub proof fn lemma_recording_end(d: RecordingDriver, e: DriverEvent)
    requires
        d.phase == DriverPhase::Recording,
        d.shutdown_pending,
        e == DriverEvent::Stop || e == DriverEvent::FramesEnded || e == DriverEvent::ForwardFailed,
    ensures
        ({
            let (d2, acts) = driver_step(d, e);
            &&& d2.phase == DriverPhase::Parked
            &&& shutdown_runs(acts) == 1
            &&& acts.len() >= 2
            &&& acts[acts.len() - 2] == DriverAction::EmitState(RecordingState::Idle)
            &&& acts[acts.len() - 1] == DriverAction::Park
        }),
{
    lemma_shutdown_runs_of_step(d, e);
}

/// Once parked, a session ignores every event and does nothing.
pub proof fn lemma_parked_is_final(d: RecordingDriver, e: DriverEvent)
    requires
        d.phase == DriverPhase::Parked,
    ensures
        driver_step(d, e) == (d, Seq::<DriverAction>::empty()),
{
}

/// Without an FPS limit every frame received while recording is forwarded;
/// with one, a forwarded frame is at least one interval after the previous
/// forwarded frame, and the first frame is always forwarded.
pub proof fn lemma_frame_forwarding(d: RecordingDriver, now_ns: u64)
    requires
        d.phase == DriverPhase::Recording,
    ensures
        ({
            let (d2, acts) = driver_step(d, DriverEvent::Frame { now_ns });
            let forwarded = acts == seq![DriverAction::ForwardFrame];
            &&& forwarded || acts.len() == 0
            &&& (d.frame_interval_ns is None || d.last_forwarded_ns is None) ==> forwarded
            &&& forwarded ==> d2.last_forwarded_ns == Some(now_ns)
            &&& match (d.frame_interval_ns, d.last_forwarded_ns) {
                (Some(i), Some(l)) => forwarded ==> ((now_ns >= l && now_ns - l >= i) || (now_ns < l && i == 0)),
                _ => true,
            }
        }),
{
    let acts = driver_step(d, DriverEvent::Frame { now_ns }).1;
    if frame_gated(d.frame_interval_ns, d.last_forwarded_ns, now_ns) {
        assert(acts.len() == 0);
        assert(acts != seq![DriverAction::ForwardFrame]);
    } else {
        assert(acts =~= seq![DriverAction::ForwardFrame]);
    }
}

/// A new session announces itself ready, then starting, then starts the backend.
pub proof fn lemma_session_opening(frame_interval_ns: Option<u64>)
    ensures
        ({
            let d0 = RecordingDriver { phase: DriverPhase::Created, frame_interval_ns, last_forwarded_ns: None, shutdown_pending: false };
            driver_step(d0, DriverEvent::Begin).1 == seq![
                DriverAction::EmitReady,
                DriverAction::EmitState(RecordingState::Starting),
                DriverAction::StartBackend,
            ]
        }),
{
}

} // verus!

verus! {

/// The capture resolution percentage in effect: the setting clamped to 25..=100.
pub open spec fn effective_scale(resolution_scale: u32) -> int {
    if resolution_scale < 25 { 25 } else if resolution_scale > 100 { 100 } else { resolution_scale as int }
}

/// The size frames are captured at: the picked content's pixel size scaled by
/// the resolution setting (in percent, clamped to 25..=100, rounded down).
pub fn capture_size(pixel_width: u32, pixel_height: u32, resolution_scale: u32) -> (out: (u32, u32))
    ensures
        out.0 == (if effective_scale(resolution_scale) >= 100 { pixel_width as int } else { pixel_width * effective_scale(resolution_scale) / 100 }),
        out.1 == (if effective_scale(resolution_scale) >= 100 { pixel_height as int } else { pixel_height * effective_scale(resolution_scale) / 100 }),
{
    let scale: u32 = if resolution_scale < 25 { 25 } else if resolution_scale > 100 { 100 } else { resolution_scale };
    if scale >= 100 {
        return (pixel_width, pixel_height);
    }
    assert(pixel_width * scale <= u64::MAX && pixel_height * scale <= u64::MAX) by (nonlinear_arith)
        requires pixel_width <= u32::MAX, pixel_height <= u32::MAX, scale < 100;
    let w: u64 = pixel_width as u64 * scale as u64 / 100;
    let h: u64 = pixel_height as u64 * scale as u64 / 100;
    assert(w <= pixel_width) by (nonlinear_arith)
        requires w == pixel_width * scale / 100, scale < 100;
    assert(h <= pixel_height) by (nonlinear_arith)
        requires h == pixel_height * scale / 100, scale < 100;
    (w as u32, h as u32)
}

/// The frame rate requested from the capture source: the limit, or 60 when
/// there is none.
pub fn capture_fps(fps_limit: u32) -> (out: u32)
    ensures
        out == if fps_limit == 0 { 60 } else { fps_limit },
{
    if fps_limit == 0 { 60 } else { fps_limit }
}

} // verus!
