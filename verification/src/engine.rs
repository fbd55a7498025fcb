//! Starting a push: its relay, its connection and its capture, and what to undo when one fails.

use vstd::prelude::*;

use crate::kernel::streams::{auto_push_url, push_address};

verus! {

/// How far the start of a push has come.
#[derive(Debug)]
pub enum EngineState {
    /// The relay of the push is being bound; `fallback` when the wanted port was taken.
    Binding { video: bool, fallback: bool },
    /// The connection is being made; `relay_port` is that of the push's own relay.
    Connecting { relay_port: Option<u16> },
    /// The capture is being started.
    Capturing { relay_port: Option<u16> },
    Running { relay_port: Option<u16> },
    Failed { error: String },
}

/// What happened.
#[derive(Debug)]
pub enum EngineEvent {
    Bound { port: u16, srt_port: Option<u16>, quic_port: Option<u16> },
    BindFailed { error: String },
    Connected,
    ConnectFailed { error: String },
    CaptureStarted,
    CaptureFailed { error: String },
}

/// What is to be done.
#[derive(Debug)]
pub enum EngineAction {
    Bind { port: u16 },
    Connect { url: String },
    StartCapture,
    /// Close the connection, and stop the push's own relay if it has one.
    Undo { stop_relay: bool },
    Nothing,
}

/// What is to be done, as a mathematical value.
pub enum ActionModel {
    Bind { port: u16 },
    Connect { url: Seq<char> },
    StartCapture,
    Undo { stop_relay: bool },
    Nothing,
}

impl View for EngineAction {
    type V = ActionModel;

    open spec fn view(&self) -> ActionModel {
        match self {
            EngineAction::Bind { port } => ActionModel::Bind { port: *port },
            EngineAction::Connect { url } => ActionModel::Connect { url: url@ },
            EngineAction::StartCapture => ActionModel::StartCapture,
            EngineAction::Undo { stop_relay } => ActionModel::Undo { stop_relay: *stop_relay },
            EngineAction::Nothing => ActionModel::Nothing,
        }
    }
}

/// Begins the start of a push: to the given address, or, without one, to a relay of its own, which
/// is bound to the wanted port first.
pub fn engine_begin(relay_url: Option<String>, bind_port: u16, video: bool) -> (r: (
    EngineState,
    EngineAction,
))
    ensures
        match relay_url {
            Some(u) => {
                &&& r.0 == (EngineState::Connecting { relay_port: None })
                &&& r.1@ == (ActionModel::Connect { url: u@ })
            },
            None => {
                &&& r.0 == (EngineState::Binding { video, fallback: false })
                &&& r.1@ == (ActionModel::Bind { port: bind_port })
            },
        },
{
    match relay_url {
        Some(url) => (EngineState::Connecting { relay_port: None }, EngineAction::Connect { url }),
        None => (
            EngineState::Binding { video, fallback: false },
            EngineAction::Bind { port: bind_port },
        ),
    }
}

/// What follows when something happened while a push was being started.
pub open spec fn engine_stepped(
    state: EngineState,
    event: EngineEvent,
    next: EngineState,
    action: ActionModel,
) -> bool {
    match (state, event) {
        (
            EngineState::Binding { video, .. },
            EngineEvent::Bound { port, srt_port, quic_port },
        ) => {
            &&& next == (EngineState::Connecting { relay_port: Some(port) })
            &&& action == (ActionModel::Connect {
                url: push_address(port, srt_port, quic_port, video),
            })
        },
        (EngineState::Binding { video, fallback }, EngineEvent::BindFailed { error }) => if fallback {
            next == (EngineState::Failed { error }) && action is Nothing
        } else {
            &&& next == (EngineState::Binding { video, fallback: true })
            &&& action == (ActionModel::Bind { port: 0 })
        },
        (EngineState::Connecting { relay_port }, EngineEvent::Connected) => {
            &&& next == (EngineState::Capturing { relay_port })
            &&& action is StartCapture
        },
        (EngineState::Connecting { .. }, EngineEvent::ConnectFailed { error }) => {
            next == (EngineState::Failed { error }) && action is Nothing
        },
        (EngineState::Capturing { relay_port }, EngineEvent::CaptureStarted) => {
            next == (EngineState::Running { relay_port }) && action is Nothing
        },
        (EngineState::Capturing { relay_port }, EngineEvent::CaptureFailed { error }) => {
            &&& next == (EngineState::Failed { error })
            &&& action == (ActionModel::Undo { stop_relay: relay_port is Some })
        },
        _ => next == state && action is Nothing,
    }
}

/// Takes in what happened while a push was being started. A taken port is replaced by any free one,
/// once; when the capture fails, the connection and the push's own relay are undone.
pub fn engine_step(state: EngineState, event: EngineEvent) -> (r: (EngineState, EngineAction))
    ensures
        engine_stepped(state, event, r.0, r.1@),
{
    match (state, event) {
        (
            EngineState::Binding { video, .. },
            EngineEvent::Bound { port, srt_port, quic_port },
        ) => (
            EngineState::Connecting { relay_port: Some(port) },
            EngineAction::Connect { url: auto_push_url(port, srt_port, quic_port, video) },
        ),
        (EngineState::Binding { video, fallback }, EngineEvent::BindFailed { error }) => {
            if fallback {
                (EngineState::Failed { error }, EngineAction::Nothing)
            } else {
                (
                    EngineState::Binding { video, fallback: true },
                    EngineAction::Bind { port: 0 },
                )
            }
        },
        (EngineState::Connecting { relay_port }, EngineEvent::Connected) => (
            EngineState::Capturing { relay_port },
            EngineAction::StartCapture,
        ),
        (EngineState::Connecting { .. }, EngineEvent::ConnectFailed { error }) => (
            EngineState::Failed { error },
            EngineAction::Nothing,
        ),
        (EngineState::Capturing { relay_port }, EngineEvent::CaptureStarted) => (
            EngineState::Running { relay_port },
            EngineAction::Nothing,
        ),
        (EngineState::Capturing { relay_port }, EngineEvent::CaptureFailed { error }) => (
            EngineState::Failed { error },
            EngineAction::Undo { stop_relay: relay_port.is_some() },
        ),
        (s, _) => (s, EngineAction::Nothing),
    }
}

/// A push runs only after its capture started, and a capture that fails leaves no connection and no
/// relay behind.
pub proof fn law_failed_capture_is_undone(
    state: EngineState,
    event: EngineEvent,
    next: EngineState,
    action: ActionModel,
)
    requires
        engine_stepped(state, event, next, action),
    ensures
        next is Running && !(state is Running) ==> state is Capturing && event is CaptureStarted,
        next is Failed && state is Capturing ==> action == (ActionModel::Undo {
            stop_relay: state->Capturing_relay_port is Some,
        }),
        state is Failed ==> next is Failed,
        state is Running ==> next == state,
{
}

/// A push without a given address comes up step by step: a relay of its own is bound to the wanted
/// port, the push connects to it in the way that fits, the capture starts, and then it runs at that
/// relay.
pub proof fn law_push_comes_up_over_its_own_relay(
    bind_port: u16,
    video: bool,
    begun: (EngineState, EngineAction),
    port: u16,
    srt_port: Option<u16>,
    quic_port: Option<u16>,
    url: String,
    bound: (EngineState, EngineAction),
    connected: (EngineState, EngineAction),
    captured: (EngineState, EngineAction),
)
    requires
        call_ensures(engine_begin, (None, bind_port, video), begun),
        call_ensures(
            engine_step,
            (begun.0, EngineEvent::Bound { port, srt_port, quic_port }),
            bound,
        ),
        call_ensures(auto_push_url, (port, srt_port, quic_port, video), url),
        call_ensures(engine_step, (bound.0, EngineEvent::Connected), connected),
        call_ensures(engine_step, (connected.0, EngineEvent::CaptureStarted), captured),
    ensures
        begun.1 == (EngineAction::Bind { port: bind_port }),
        bound.1 matches EngineAction::Connect { url: u } && u@ == url@,
        connected.1 is StartCapture,
        captured.0 == (EngineState::Running { relay_port: Some(port) }),
        captured.1 is Nothing,
{
}

/// A push to a given address binds no relay: it connects there, the capture starts, and it runs.
pub proof fn law_push_comes_up_at_a_given_address(
    given: String,
    bind_port: u16,
    video: bool,
    begun: (EngineState, EngineAction),
    connected: (EngineState, EngineAction),
    captured: (EngineState, EngineAction),
)
    requires
        call_ensures(engine_begin, (Some(given), bind_port, video), begun),
        call_ensures(engine_step, (begun.0, EngineEvent::Connected), connected),
        call_ensures(engine_step, (connected.0, EngineEvent::CaptureStarted), captured),
    ensures
        begun.1 matches EngineAction::Connect { url } && url@ == given@,
        connected.1 is StartCapture,
        captured.0 == (EngineState::Running { relay_port: None }),
{
}

/// When the wanted port is taken, any free one is tried, once; when that fails too, the push fails
/// with the reason. So does one that cannot connect. A capture that fails has the connection closed,
/// and the relay of the push stopped when it has one.
pub proof fn law_failed_start_is_told(
    bind_port: u16,
    video: bool,
    begun: (EngineState, EngineAction),
    why: String,
    second: (EngineState, EngineAction),
    third: (EngineState, EngineAction),
    relay_port: Option<u16>,
    unconnected: (EngineState, EngineAction),
    uncaptured: (EngineState, EngineAction),
)
    requires
        call_ensures(engine_begin, (None, bind_port, video), begun),
        call_ensures(engine_step, (begun.0, EngineEvent::BindFailed { error: why }), second),
        call_ensures(engine_step, (second.0, EngineEvent::BindFailed { error: why }), third),
        call_ensures(
            engine_step,
            (EngineState::Connecting { relay_port }, EngineEvent::ConnectFailed { error: why }),
            unconnected,
        ),
        call_ensures(
            engine_step,
            (EngineState::Capturing { relay_port }, EngineEvent::CaptureFailed { error: why }),
            uncaptured,
        ),
    ensures
        second.1 == (EngineAction::Bind { port: 0 }),
        third.0 matches EngineState::Failed { error } && error@ == why@,
        third.1 is Nothing,
        unconnected.0 matches EngineState::Failed { error } && error@ == why@,
        uncaptured.0 matches EngineState::Failed { error } && error@ == why@,
        uncaptured.1 == (EngineAction::Undo { stop_relay: relay_port is Some }),
{
}

} // verus!
