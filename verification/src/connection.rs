//! What a client decides from looking for a streamer to the end of a stream.
//!
//! Each function here is told what happened and says what to do about it: what to show to the
//! user, if anything, and which step comes next.
use vstd::prelude::*;

use crate::hud::HudMessage;

verus! {

/// How long one broadcast is given to be answered.
pub const DISCOVERY_RETRY_PAUSE_MILLIS: u64 = 500;

/// How long to wait after a broadcast that could not be sent.
pub const RETRY_CONNECT_MIN_INTERVAL_MILLIS: u64 = 1000;

/// How long to wait between two signs of life to the streamer.
pub const NETWORK_KEEPALIVE_INTERVAL_MILLIS: u64 = 1000;

/// How long to wait between two attempts to connect.
pub const CONNECTION_RETRY_INTERVAL_MILLIS: u64 = 1000;

/// How long the streamer is given to open the streams.
pub const STREAM_SETUP_TIMEOUT_MILLIS: u64 = 5000;

/// Why work that can be interrupted ended.
pub enum InterruptibleError {
    Interrupted,
    /// It failed for the given reason.
    Other(String),
}

/// What happened to the client.
pub enum LifecycleEvent {
    Started,
    /// Whether the client is to run, and whether it is in the foreground.
    Polled { alive: bool, resumed: bool },
    /// An attempt to connect, or the stream that came of it, ended.
    PipelineEnded(Result<(), InterruptibleError>),
    Paused,
}

/// What the client does next.
pub enum LifecycleAction {
    /// Look whether the client is alive and resumed.
    Poll,
    /// Connect to a streamer.
    Connect,
    Pause { millis: u64 },
    Return(Result<(), InterruptibleError>),
}

/// What the client shows and does next: as long as it is alive it connects whenever it is
/// resumed, and waits a second after each attempt.
pub open spec fn lifecycle_step(event: LifecycleEvent) -> (Option<HudMessage>, LifecycleAction) {
    let pause = LifecycleAction::Pause { millis: 1000 };
    match event {
        LifecycleEvent::Started => (Some(HudMessage::Initial), LifecycleAction::Poll),
        LifecycleEvent::Polled { alive, resumed } => (
            None,
            if !alive {
                LifecycleAction::Return(Err(InterruptibleError::Interrupted))
            } else if resumed {
                LifecycleAction::Connect
            } else {
                pause
            },
        ),
        LifecycleEvent::PipelineEnded(Ok(())) => (None, pause),
        LifecycleEvent::PipelineEnded(Err(InterruptibleError::Interrupted)) => (
            None,
            LifecycleAction::Return(Ok(())),
        ),
        LifecycleEvent::PipelineEnded(Err(InterruptibleError::Other(reason))) => (
            Some(HudMessage::ConnectionError(reason)),
            pause,
        ),
        LifecycleEvent::Paused => (None, LifecycleAction::Poll),
    }
}

/// One step of the life of a client: what to show, and what to do next.
pub fn connection_lifecycle_loop(event: LifecycleEvent) -> (step: (
    Option<HudMessage>,
    LifecycleAction,
))
    ensures
        step == lifecycle_step(event),
{
    let pause = LifecycleAction::Pause { millis: CONNECTION_RETRY_INTERVAL_MILLIS };
    match event {
        LifecycleEvent::Started => (Some(HudMessage::Initial), LifecycleAction::Poll),
        LifecycleEvent::Polled { alive, resumed } => {
            if !alive {
                (None, LifecycleAction::Return(Err(InterruptibleError::Interrupted)))
            } else if resumed {
                (None, LifecycleAction::Connect)
            } else {
                (None, pause)
            }
        },
        LifecycleEvent::PipelineEnded(result) => match result {
            Ok(()) => (None, pause),
            Err(InterruptibleError::Interrupted) => (None, LifecycleAction::Return(Ok(()))),
            Err(InterruptibleError::Other(reason)) => (
                Some(HudMessage::ConnectionError(reason)),
                pause,
            ),
        },
        LifecycleEvent::Paused => (None, LifecycleAction::Poll),
    }
}

/// The client gives up only where it is shut down or interrupted: a failed connection is tried
/// again.
pub proof fn law_client_ends_when_interrupted(event: LifecycleEvent)
    ensures
        lifecycle_step(event).1 is Return <==> (event matches LifecycleEvent::Polled {
            alive: false,
            ..
        } || event == LifecycleEvent::PipelineEnded(Err(InterruptibleError::Interrupted))),
{
}

/// What happened to an attempt to connect.
pub enum PipelineEvent {
    /// The sockets to look for a streamer with were opened.
    Opened(Result<(), String>),
    /// Whether the client is to run.
    Polled { alive: bool },
    /// The client announced itself.
    Broadcast(Result<(), String>),
    /// The time for an answer is over, or a streamer connected.
    Waited { connected: bool },
    Paused,
    /// The streamer was told what the client can do.
    CapabilitiesSent(Result<(), String>),
    /// The streamer told how to stream.
    ConfigReceived(Result<(), String>),
    StreamEnded(Result<(), String>),
}

/// What an attempt to connect does next.
pub enum PipelineAction {
    /// Look whether the client is alive.
    Poll,
    /// Announce the client.
    Broadcast,
    /// Wait for a streamer to connect.
    AwaitServer { millis: u64 },
    Pause { millis: u64 },
    SendCapabilities,
    ReceiveConfig,
    Stream,
    Return(Result<(), InterruptibleError>),
}

/// The next step where the last one went well, else the end of the attempt.
pub open spec fn unless_failed(result: Result<(), String>, next: PipelineAction) -> PipelineAction {
    match result {
        Ok(()) => next,
        Err(reason) => PipelineAction::Return(Err(InterruptibleError::Other(reason))),
    }
}

/// What an attempt to connect shows and does next: the client is announced until a streamer
/// connects; the two exchange what they need, and then they stream.
pub open spec fn pipeline_step(event: PipelineEvent) -> (Option<HudMessage>, PipelineAction) {
    match event {
        PipelineEvent::Opened(result) => (None, unless_failed(result, PipelineAction::Poll)),
        PipelineEvent::Polled { alive } => (
            None,
            if alive {
                PipelineAction::Broadcast
            } else {
                PipelineAction::Return(Err(InterruptibleError::Interrupted))
            },
        ),
        PipelineEvent::Broadcast(Ok(())) => (None, PipelineAction::AwaitServer { millis: 500 }),
        PipelineEvent::Broadcast(Err(_)) => (
            Some(HudMessage::NetworkUnreachable),
            PipelineAction::Pause { millis: 1000 },
        ),
        PipelineEvent::Paused => (Some(HudMessage::Initial), PipelineAction::Return(Ok(()))),
        PipelineEvent::Waited { connected } => (
            None,
            if connected {
                PipelineAction::SendCapabilities
            } else {
                PipelineAction::Poll
            },
        ),
        PipelineEvent::CapabilitiesSent(result) => (
            None,
            unless_failed(result, PipelineAction::ReceiveConfig),
        ),
        PipelineEvent::ConfigReceived(result) => (
            None,
            unless_failed(result, PipelineAction::Stream),
        ),
        PipelineEvent::StreamEnded(result) => (
            None,
            unless_failed(result, PipelineAction::Return(Ok(()))),
        ),
    }
}

fn go_on(result: Result<(), String>, next: PipelineAction) -> (action: PipelineAction)
    ensures
        action == unless_failed(result, next),
{
    match result {
        Ok(()) => next,
        Err(reason) => PipelineAction::Return(Err(InterruptibleError::Other(reason))),
    }
}

/// One step of an attempt to connect: what to show, and what to do next.
pub fn connection_pipeline(event: PipelineEvent) -> (step: (Option<HudMessage>, PipelineAction))
    ensures
        step == pipeline_step(event),
{
    match event {
        PipelineEvent::Opened(result) => (None, go_on(result, PipelineAction::Poll)),
        PipelineEvent::Polled { alive } => {
            if alive {
                (None, PipelineAction::Broadcast)
            } else {
                (None, PipelineAction::Return(Err(InterruptibleError::Interrupted)))
            }
        },
        PipelineEvent::Broadcast(result) => match result {
            Ok(()) => (
                None,
                PipelineAction::AwaitServer { millis: DISCOVERY_RETRY_PAUSE_MILLIS },
            ),
            Err(_) => (
                Some(HudMessage::NetworkUnreachable),
                PipelineAction::Pause { millis: RETRY_CONNECT_MIN_INTERVAL_MILLIS },
            ),
        },
        PipelineEvent::Paused => (Some(HudMessage::Initial), PipelineAction::Return(Ok(()))),
        PipelineEvent::Waited { connected } => {
            if connected {
                (None, PipelineAction::SendCapabilities)
            } else {
                (None, PipelineAction::Poll)
            }
        },
        PipelineEvent::CapabilitiesSent(result) => (
            None,
            go_on(result, PipelineAction::ReceiveConfig),
        ),
        PipelineEvent::ConfigReceived(result) => (None, go_on(result, PipelineAction::Stream)),
        PipelineEvent::StreamEnded(result) => (
            None,
            go_on(result, PipelineAction::Return(Ok(()))),
        ),
    }
}

/// The reason for which a step failed that an attempt to connect cannot do without.
pub open spec fn failure(event: PipelineEvent) -> Option<String> {
    match event {
        PipelineEvent::Opened(Err(reason)) => Some(reason),
        PipelineEvent::CapabilitiesSent(Err(reason)) => Some(reason),
        PipelineEvent::ConfigReceived(Err(reason)) => Some(reason),
        PipelineEvent::StreamEnded(Err(reason)) => Some(reason),
        _ => None,
    }
}

/// An attempt to connect ends well only where it did stream or could not reach the network; the
/// end of the client interrupts it; and it fails where a step fails that it cannot do without,
/// for the same reason. So a broadcast that is not answered ends nothing.
pub proof fn law_attempt_ends(event: PipelineEvent)
    ensures
        pipeline_step(event).1 matches PipelineAction::Return(Ok(_)) <==> (
        event matches PipelineEvent::StreamEnded(Ok(_)) || event is Paused),
        pipeline_step(event).1 == PipelineAction::Return(Err(InterruptibleError::Interrupted))
            <==> event == (PipelineEvent::Polled { alive: false }),
        match pipeline_step(event).1 {
            PipelineAction::Return(Err(InterruptibleError::Other(reason))) => failure(event)
                == Some(reason),
            _ => failure(event) is None,
        },
{
}

/// A connection that fails tells the user why, and the client goes on.
pub proof fn law_failure_is_shown(event: PipelineEvent)
    requires
        failure(event) is Some,
    ensures
        pipeline_step(event).1 matches PipelineAction::Return(result) && lifecycle_step(
            LifecycleEvent::PipelineEnded(result),
        ) == (
            Some(HudMessage::ConnectionError(failure(event)->0)),
            LifecycleAction::Pause { millis: CONNECTION_RETRY_INTERVAL_MILLIS },
        ),
{
}

/// What the streamer says on the control connection.
pub enum ServerControl {
    StartStream,
    InitializeDecoder,
    Restarting,
    /// Anything else.
    Other,
}

/// Why a stream failed.
pub enum StreamError {
    /// The streamer did not open the streams in time.
    SetupTimeout,
    /// It failed for the given reason.
    Other(String),
}

impl StreamError {
    /// The reason in words.
    pub open spec fn spec_text(self) -> Seq<char> {
        match self {
            StreamError::SetupTimeout => "Timeout while setting up streams"@,
            StreamError::Other(reason) => reason@,
        }
    }

    /// The reason in words.
    pub fn text(&self) -> (text: String)
        ensures
            text@ == self.spec_text(),
    {
        match self {
            StreamError::SetupTimeout => "Timeout while setting up streams".to_owned(),
            StreamError::Other(reason) => reason.clone(),
        }
    }
}

/// What happened to a stream.
pub enum StreamEvent {
    /// The settings and the agreement of the two ends were read.
    Configured(Result<(), String>),
    /// The streamer said the first word.
    Greeted(Result<ServerControl, String>),
    /// The socket that the streams come in by was opened.
    Listening(Result<(), String>),
    /// The streamer was told that the client is ready.
    ReadySent(Result<(), String>),
    /// The streamer opened the streams. `None` stands for one that did not do so in time.
    Accepted(Option<Result<(), String>>),
    /// The streamer said something during the stream.
    ControlReceived(Result<ServerControl, String>),
    /// The streamer was sent a sign of life.
    KeepAliveSent(Result<(), String>),
    /// No more datagrams come in.
    ReceiveLoopEnded(Result<(), String>),
    /// One of the tasks that make up the stream ended.
    TaskEnded(Result<(), String>),
    /// The user asked for the end of the stream.
    DisconnectRequested,
}

/// What is done about a stream next.
pub enum StreamAction {
    /// Wait for the first word of the streamer.
    AwaitGreeting,
    /// Open the socket that the streams come in by.
    Listen,
    /// Tell the streamer that the client is ready.
    SendReady,
    /// Wait for the streamer to open the streams.
    Accept { millis: u64 },
    /// Start the tasks that make up the stream.
    Run,
    CreateDecoder,
    /// Wait before the next sign of life.
    Pause { millis: u64 },
    /// Go on as before.
    Continue,
    Return(Result<(), StreamError>),
}

/// The next step where the last one went well, else the failure of the stream.
pub open spec fn unless_stream_failed(
    result: Result<(), String>,
    next: StreamAction,
) -> StreamAction {
    match result {
        Ok(()) => next,
        Err(reason) => StreamAction::Return(Err(StreamError::Other(reason))),
    }
}

/// What is shown and done when the streamer is gone.
pub open spec fn streamer_gone() -> (Option<HudMessage>, StreamAction) {
    (Some(HudMessage::ServerDisconnected), StreamAction::Return(Ok(())))
}

/// What is shown and done about a stream next.
pub open spec fn stream_step(event: StreamEvent) -> (Option<HudMessage>, StreamAction) {
    match event {
        StreamEvent::Configured(result) => (
            None,
            unless_stream_failed(result, StreamAction::AwaitGreeting),
        ),
        StreamEvent::Greeted(Ok(ServerControl::StartStream)) => (
            Some(HudMessage::StreamStarting),
            StreamAction::Listen,
        ),
        StreamEvent::Greeted(Ok(ServerControl::Restarting)) => (
            Some(HudMessage::ServerRestart),
            StreamAction::Return(Ok(())),
        ),
        StreamEvent::Greeted(Ok(_)) => (
            Some(HudMessage::UnexpectedPacket),
            StreamAction::Return(Ok(())),
        ),
        StreamEvent::Greeted(Err(_)) => streamer_gone(),
        StreamEvent::Listening(result) => (
            None,
            unless_stream_failed(result, StreamAction::SendReady),
        ),
        StreamEvent::ReadySent(Ok(())) => (None, StreamAction::Accept { millis: 5000 }),
        StreamEvent::ReadySent(Err(_)) => streamer_gone(),
        StreamEvent::Accepted(Some(result)) => (
            None,
            unless_stream_failed(result, StreamAction::Run),
        ),
        StreamEvent::Accepted(None) => (
            None,
            StreamAction::Return(Err(StreamError::SetupTimeout)),
        ),
        StreamEvent::ControlReceived(Ok(ServerControl::InitializeDecoder)) => (
            None,
            StreamAction::CreateDecoder,
        ),
        StreamEvent::ControlReceived(Ok(ServerControl::Restarting)) => (
            Some(HudMessage::ServerRestart),
            StreamAction::Return(Ok(())),
        ),
        StreamEvent::ControlReceived(Ok(_)) => (None, StreamAction::Continue),
        StreamEvent::ControlReceived(Err(_)) => streamer_gone(),
        StreamEvent::KeepAliveSent(Ok(())) => (None, StreamAction::Pause { millis: 1000 }),
        StreamEvent::KeepAliveSent(Err(_)) => streamer_gone(),
        StreamEvent::ReceiveLoopEnded(Ok(())) => (None, StreamAction::Continue),
        StreamEvent::ReceiveLoopEnded(Err(_)) => (
            Some(HudMessage::ServerDisconnected),
            StreamAction::Continue,
        ),
        StreamEvent::TaskEnded(result) => (
            None,
            unless_stream_failed(result, StreamAction::Return(Ok(()))),
        ),
        StreamEvent::DisconnectRequested => (None, StreamAction::Return(Ok(()))),
    }
}

fn go_on_streaming(result: Result<(), String>, next: StreamAction) -> (action: StreamAction)
    ensures
        action == unless_stream_failed(result, next),
{
    match result {
        Ok(()) => next,
        Err(reason) => StreamAction::Return(Err(StreamError::Other(reason))),
    }
}

/// Goes on where the streamer could be reached, and says farewell where it could not.
fn while_reached(result: Result<(), String>, next: StreamAction) -> (step: (
    Option<HudMessage>,
    StreamAction,
))
    ensures
        step == (match result {
            Ok(()) => (None, next),
            Err(_) => streamer_gone(),
        }),
{
    match result {
        Ok(()) => (None, next),
        Err(_) => (Some(HudMessage::ServerDisconnected), StreamAction::Return(Ok(()))),
    }
}

/// One step of a stream: what to show, and what to do next.
pub fn stream_pipeline(event: StreamEvent) -> (step: (Option<HudMessage>, StreamAction))
    ensures
        step == stream_step(event),
{
    match event {
        StreamEvent::Configured(result) => (
            None,
            go_on_streaming(result, StreamAction::AwaitGreeting),
        ),
        StreamEvent::Greeted(received) => match received {
            Ok(ServerControl::StartStream) => (
                Some(HudMessage::StreamStarting),
                StreamAction::Listen,
            ),
            Ok(ServerControl::Restarting) => (
                Some(HudMessage::ServerRestart),
                StreamAction::Return(Ok(())),
            ),
            Ok(_) => (Some(HudMessage::UnexpectedPacket), StreamAction::Return(Ok(()))),
            Err(reason) => while_reached(Err(reason), StreamAction::Continue),
        },
        StreamEvent::Listening(result) => (
            None,
            go_on_streaming(result, StreamAction::SendReady),
        ),
        StreamEvent::ReadySent(result) => while_reached(
            result,
            StreamAction::Accept { millis: STREAM_SETUP_TIMEOUT_MILLIS },
        ),
        StreamEvent::Accepted(accepted) => match accepted {
            Some(result) => (None, go_on_streaming(result, StreamAction::Run)),
            None => (None, StreamAction::Return(Err(StreamError::SetupTimeout))),
        },
        StreamEvent::ControlReceived(received) => match received {
            Ok(ServerControl::InitializeDecoder) => (None, StreamAction::CreateDecoder),
            Ok(ServerControl::Restarting) => (
                Some(HudMessage::ServerRestart),
                StreamAction::Return(Ok(())),
            ),
            Ok(_) => (None, StreamAction::Continue),
            Err(reason) => while_reached(Err(reason), StreamAction::Continue),
        },
        StreamEvent::KeepAliveSent(result) => while_reached(
            result,
            StreamAction::Pause { millis: NETWORK_KEEPALIVE_INTERVAL_MILLIS },
        ),
        StreamEvent::ReceiveLoopEnded(result) => match result {
            Ok(()) => (None, StreamAction::Continue),
            Err(_) => (Some(HudMessage::ServerDisconnected), StreamAction::Continue),
        },
        StreamEvent::TaskEnded(result) => (
            None,
            go_on_streaming(result, StreamAction::Return(Ok(()))),
        ),
        StreamEvent::DisconnectRequested => (None, StreamAction::Return(Ok(()))),
    }
}

/// Whether the streamer could not be spoken or listened to.
pub open spec fn loses_streamer(event: StreamEvent) -> bool {
    ||| event matches StreamEvent::Greeted(Err(_))
    ||| event matches StreamEvent::ReadySent(Err(_))
    ||| event matches StreamEvent::ControlReceived(Err(_))
    ||| event matches StreamEvent::KeepAliveSent(Err(_))
    ||| event matches StreamEvent::ReceiveLoopEnded(Err(_))
}

/// The user is told that the streamer has disconnected exactly when it could not be spoken or
/// listened to. This is no failure: a stream that ends on it ends well.
pub proof fn law_lost_streamer_is_shown(event: StreamEvent)
    ensures
        stream_step(event).0 == Some(HudMessage::ServerDisconnected) <==> loses_streamer(event),
        loses_streamer(event) ==> !(stream_step(event).1 matches StreamAction::Return(Err(_))),
{
}

/// A stream whose streamer restarts ends, with a word to the user, whenever the streamer says
/// so.
pub proof fn law_restart_ends_stream(event: StreamEvent)
    ensures
        stream_step(event).0 == Some(HudMessage::ServerRestart) <==> (
        event matches StreamEvent::Greeted(Ok(ServerControl::Restarting))
            || event matches StreamEvent::ControlReceived(Ok(ServerControl::Restarting))),
        stream_step(event).0 == Some(HudMessage::ServerRestart) ==> (
        stream_step(event).1 matches StreamAction::Return(Ok(_))),
{
}

/// A broadcast that fails, for whatever reason, is told to the user, and the client waits for a
/// second; nothing else is told that way. The attempt goes on after any other broadcast.
pub proof fn law_unreachable_network_is_shown(event: PipelineEvent)
    ensures
        pipeline_step(event).0 == Some(HudMessage::NetworkUnreachable) <==> (event matches
            PipelineEvent::Broadcast(Err(_))),
        event matches PipelineEvent::Broadcast(Err(_)) ==> pipeline_step(event).1 == (
        PipelineAction::Pause { millis: 1000 }),
        (event matches PipelineEvent::Broadcast(Ok(_))) ==> pipeline_step(event).1 == (
        PipelineAction::AwaitServer { millis: 500 }),
        pipeline_step(event).1 is AwaitServer ==> (event matches PipelineEvent::Broadcast(Ok(_))),
        pipeline_step(event).0 == Some(HudMessage::Initial) <==> event is Paused,
        pipeline_step(event).0 is Some ==> event is Paused || event is Broadcast,
{
}

/// Each step of an attempt to connect is taken exactly after the one before it went well.
pub proof fn law_attempt_goes_step_by_step(event: PipelineEvent)
    ensures
        pipeline_step(event).1 is Poll <==> (event matches PipelineEvent::Opened(Ok(_))) || event
            == (PipelineEvent::Waited { connected: false }),
        pipeline_step(event).1 is Broadcast <==> event == (PipelineEvent::Polled { alive: true }),
        pipeline_step(event).1 is SendCapabilities <==> event == (PipelineEvent::Waited {
            connected: true,
        }),
        pipeline_step(event).1 is ReceiveConfig <==> (event matches
            PipelineEvent::CapabilitiesSent(Ok(_))),
        pipeline_step(event).1 is Stream <==> (event matches PipelineEvent::ConfigReceived(Ok(_))),
{
}

/// The client shows a message exactly when it starts and when a connection fails, and then the
/// one that tells why.
pub proof fn law_client_shows_why(event: LifecycleEvent)
    ensures
        match lifecycle_step(event).0 {
            Some(HudMessage::Initial) => event is Started,
            Some(HudMessage::ConnectionError(reason)) => event == LifecycleEvent::PipelineEnded(
                Err(InterruptibleError::Other(reason)),
            ),
            Some(_) => false,
            None => !(event is Started) && !(event matches LifecycleEvent::PipelineEnded(
                Err(InterruptibleError::Other(_)),
            )),
        },
        lifecycle_step(event).1 is Connect <==> event == (LifecycleEvent::Polled {
            alive: true,
            resumed: true,
        }),
        lifecycle_step(event).1 is Poll <==> event is Started || event is Paused,
        lifecycle_step(event).1 is Pause ==> lifecycle_step(event).1 == (LifecycleAction::Pause {
            millis: 1000,
        }),
{
}

/// The reason for which a step failed that a stream cannot do without.
pub open spec fn stream_failure(event: StreamEvent) -> Option<String> {
    match event {
        StreamEvent::Configured(Err(reason)) => Some(reason),
        StreamEvent::Listening(Err(reason)) => Some(reason),
        StreamEvent::Accepted(Some(Err(reason))) => Some(reason),
        StreamEvent::TaskEnded(Err(reason)) => Some(reason),
        _ => None,
    }
}

/// A stream fails exactly where a step fails that it cannot do without, for the same reason,
/// and where the streams are not opened in time.
pub proof fn law_stream_fails_for_a_reason(event: StreamEvent)
    ensures
        match stream_step(event).1 {
            StreamAction::Return(Err(StreamError::Other(reason))) => stream_failure(event)
                == Some(reason),
            StreamAction::Return(Err(StreamError::SetupTimeout)) => event
                == StreamEvent::Accepted(None),
            _ => stream_failure(event) is None && event != StreamEvent::Accepted(None),
        },
{
}

/// A stream ends well exactly where the streamer is gone, restarts or greets otherwise than it
/// should, where a task of the stream ends, and where the user asks for it. When no more
/// datagrams come in, the stream goes on.
pub proof fn law_stream_ends_well(event: StreamEvent)
    ensures
        (stream_step(event).1 matches StreamAction::Return(Ok(_))) <==> {
            ||| loses_streamer(event) && !(event is ReceiveLoopEnded)
            ||| event matches StreamEvent::Greeted(Ok(greeting)) && !(greeting is StartStream)
            ||| event matches StreamEvent::ControlReceived(Ok(packet)) && packet is Restarting
            ||| event matches StreamEvent::TaskEnded(Ok(_))
            ||| event is DisconnectRequested
        },
        event is ReceiveLoopEnded ==> stream_step(event).1 is Continue,
{
}

/// Each step of setting up a stream is taken exactly after the one before it went well, and the
/// user is told when the stream begins.
pub proof fn law_stream_goes_step_by_step(event: StreamEvent)
    ensures
        stream_step(event).1 is AwaitGreeting <==> (event matches StreamEvent::Configured(Ok(_))),
        stream_step(event).1 is Listen <==> event == StreamEvent::Greeted(
            Ok(ServerControl::StartStream),
        ),
        stream_step(event).1 is SendReady <==> (event matches StreamEvent::Listening(Ok(_))),
        (event matches StreamEvent::ReadySent(Ok(_))) ==> stream_step(event).1 == (
        StreamAction::Accept { millis: 5000 }),
        stream_step(event).1 is Accept ==> (event matches StreamEvent::ReadySent(Ok(_))),
        stream_step(event).1 is Run <==> (event matches StreamEvent::Accepted(Some(Ok(_)))),
        stream_step(event).1 is CreateDecoder <==> event == StreamEvent::ControlReceived(
            Ok(ServerControl::InitializeDecoder),
        ),
        (event matches StreamEvent::KeepAliveSent(Ok(_))) ==> stream_step(event).1 == (
        StreamAction::Pause { millis: 1000 }),
        stream_step(event).1 is Pause ==> (event matches StreamEvent::KeepAliveSent(Ok(_))),
        stream_step(event).0 == Some(HudMessage::StreamStarting) <==> event
            == StreamEvent::Greeted(Ok(ServerControl::StartStream)),
        stream_step(event).0 == Some(HudMessage::UnexpectedPacket) <==> event
            == StreamEvent::Greeted(Ok(ServerControl::InitializeDecoder)) || event
            == StreamEvent::Greeted(Ok(ServerControl::Other)),
{
}

/// The reason of a failed stream reaches the user word for word: the failure of the stream ends
/// the attempt to connect with it, and the client shows it.
pub proof fn law_stream_failure_is_shown(error: StreamError, reason: String)
    requires
        reason@ == error.spec_text(),
    ensures
        pipeline_step(PipelineEvent::StreamEnded(Err(reason))).1 matches PipelineAction::Return(
            result,
        ) && lifecycle_step(LifecycleEvent::PipelineEnded(result)).0 matches Some(
            HudMessage::ConnectionError(told),
        ) && told@ == error.spec_text(),
        error matches StreamError::Other(given) ==> error.spec_text() == given@,
        error is SetupTimeout ==> error.spec_text() == "Timeout while setting up streams"@,
{
}

} // verus!
