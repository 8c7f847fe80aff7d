use alvr_stream::connection::{
    connection_lifecycle_loop, connection_pipeline, stream_pipeline, InterruptibleError,
    LifecycleAction, LifecycleEvent, PipelineAction, PipelineEvent, ServerControl, StreamAction,
    StreamError, StreamEvent,
};
use alvr_stream::hud::HudMessage;

fn failed<T>() -> Result<T, String> {
    Err("because".to_string())
}

#[test]
fn the_client_starts_with_a_message() {
    let (hud, action) = connection_lifecycle_loop(LifecycleEvent::Started);
    assert!(matches!(hud, Some(HudMessage::Initial)));
    assert!(matches!(action, LifecycleAction::Poll));
}

#[test]
fn the_client_connects_while_it_is_alive_and_resumed() {
    let polled = |alive, resumed| {
        let (hud, action) = connection_lifecycle_loop(LifecycleEvent::Polled { alive, resumed });
        assert!(hud.is_none());
        action
    };
    assert!(matches!(polled(true, true), LifecycleAction::Connect));
    assert!(matches!(polled(true, false), LifecycleAction::Pause { millis: 1000 }));
    for resumed in [false, true] {
        assert!(matches!(
            polled(false, resumed),
            LifecycleAction::Return(Err(InterruptibleError::Interrupted))
        ));
    }
    let (hud, action) = connection_lifecycle_loop(LifecycleEvent::Paused);
    assert!(hud.is_none());
    assert!(matches!(action, LifecycleAction::Poll));
}

#[test]
fn a_failed_connection_is_shown_and_tried_again() {
    let result = Err(InterruptibleError::Other("no route".to_string()));
    let (hud, action) = connection_lifecycle_loop(LifecycleEvent::PipelineEnded(result));
    assert_eq!(
        hud.unwrap().text(),
        "Connection error:\nno route\nCheck the PC for more details"
    );
    assert!(matches!(action, LifecycleAction::Pause { millis: 1000 }));

    let (hud, action) = connection_lifecycle_loop(LifecycleEvent::PipelineEnded(Ok(())));
    assert!(hud.is_none());
    assert!(matches!(action, LifecycleAction::Pause { millis: 1000 }));
}

#[test]
fn an_interrupted_connection_ends_the_client() {
    let result = Err(InterruptibleError::Interrupted);
    let (hud, action) = connection_lifecycle_loop(LifecycleEvent::PipelineEnded(result));
    assert!(hud.is_none());
    assert!(matches!(action, LifecycleAction::Return(Ok(()))));
}

fn quiet_step(event: PipelineEvent) -> PipelineAction {
    let (hud, action) = connection_pipeline(event);
    assert!(hud.is_none());
    action
}

#[test]
fn the_client_is_announced_until_a_streamer_connects() {
    assert!(matches!(quiet_step(PipelineEvent::Opened(Ok(()))), PipelineAction::Poll));
    assert!(matches!(
        quiet_step(PipelineEvent::Polled { alive: true }),
        PipelineAction::Broadcast
    ));
    assert!(matches!(
        quiet_step(PipelineEvent::Broadcast(Ok(()))),
        PipelineAction::AwaitServer { millis: 500 }
    ));
    assert!(matches!(
        quiet_step(PipelineEvent::Waited { connected: false }),
        PipelineAction::Poll
    ));
    assert!(matches!(
        quiet_step(PipelineEvent::Waited { connected: true }),
        PipelineAction::SendCapabilities
    ));
    assert!(matches!(
        quiet_step(PipelineEvent::CapabilitiesSent(Ok(()))),
        PipelineAction::ReceiveConfig
    ));
    assert!(matches!(
        quiet_step(PipelineEvent::ConfigReceived(Ok(()))),
        PipelineAction::Stream
    ));
    assert!(matches!(
        quiet_step(PipelineEvent::StreamEnded(Ok(()))),
        PipelineAction::Return(Ok(()))
    ));
}

#[test]
fn discovery_ends_with_the_client() {
    assert!(matches!(
        quiet_step(PipelineEvent::Polled { alive: false }),
        PipelineAction::Return(Err(InterruptibleError::Interrupted))
    ));
}

#[test]
fn an_unreachable_network_is_shown_for_a_second() {
    let (hud, action) = connection_pipeline(PipelineEvent::Broadcast(failed()));
    assert!(matches!(hud, Some(HudMessage::NetworkUnreachable)));
    assert!(matches!(action, PipelineAction::Pause { millis: 1000 }));
    let (hud, action) = connection_pipeline(PipelineEvent::Paused);
    assert!(matches!(hud, Some(HudMessage::Initial)));
    assert!(matches!(action, PipelineAction::Return(Ok(()))));
}

#[test]
fn a_failed_step_fails_the_attempt() {
    for event in [
        PipelineEvent::Opened(failed()),
        PipelineEvent::CapabilitiesSent(failed()),
        PipelineEvent::ConfigReceived(failed()),
        PipelineEvent::StreamEnded(failed()),
    ] {
        match quiet_step(event) {
            PipelineAction::Return(Err(InterruptibleError::Other(reason))) => {
                assert_eq!(reason, "because")
            }
            _ => panic!("the attempt goes on"),
        }
    }
}

fn stream(event: StreamEvent) -> (Option<String>, StreamAction) {
    let (hud, action) = stream_pipeline(event);
    (hud.map(|message| message.text()), action)
}

fn says(text: &str) -> Option<String> {
    Some(text.to_string())
}

#[test]
fn a_stream_is_set_up_step_by_step() {
    let (hud, action) = stream(StreamEvent::Configured(Ok(())));
    assert_eq!(hud, None);
    assert!(matches!(action, StreamAction::AwaitGreeting));
    let (hud, action) = stream(StreamEvent::Greeted(Ok(ServerControl::StartStream)));
    assert_eq!(hud, says("The stream will begin soon\nPlease wait..."));
    assert!(matches!(action, StreamAction::Listen));
    let (hud, action) = stream(StreamEvent::Listening(Ok(())));
    assert_eq!(hud, None);
    assert!(matches!(action, StreamAction::SendReady));
    let (hud, action) = stream(StreamEvent::ReadySent(Ok(())));
    assert_eq!(hud, None);
    assert!(matches!(action, StreamAction::Accept { millis: 5000 }));
    let (hud, action) = stream(StreamEvent::Accepted(Some(Ok(()))));
    assert_eq!(hud, None);
    assert!(matches!(action, StreamAction::Run));
}

#[test]
fn a_streamer_may_greet_otherwise() {
    let (hud, action) = stream(StreamEvent::Greeted(Ok(ServerControl::Restarting)));
    assert_eq!(hud, says("The streamer is restarting\nPlease wait..."));
    assert!(matches!(action, StreamAction::Return(Ok(()))));
    for packet in [ServerControl::InitializeDecoder, ServerControl::Other] {
        let (hud, action) = stream(StreamEvent::Greeted(Ok(packet)));
        assert_eq!(hud, says("Unexpected packet"));
        assert!(matches!(action, StreamAction::Return(Ok(()))));
    }
}

#[test]
fn a_lost_streamer_ends_the_stream_well() {
    for event in [
        StreamEvent::Greeted(failed()),
        StreamEvent::ReadySent(failed()),
        StreamEvent::ControlReceived(failed()),
        StreamEvent::KeepAliveSent(failed()),
    ] {
        let (hud, action) = stream(event);
        assert_eq!(hud, says("The streamer has disconnected."));
        assert!(matches!(action, StreamAction::Return(Ok(()))));
    }
    let (hud, action) = stream(StreamEvent::ReceiveLoopEnded(failed()));
    assert_eq!(hud, says("The streamer has disconnected."));
    assert!(matches!(action, StreamAction::Continue));
    let (hud, action) = stream(StreamEvent::ReceiveLoopEnded(Ok(())));
    assert_eq!(hud, None);
    assert!(matches!(action, StreamAction::Continue));
}

#[test]
fn streams_fail_for_a_reason() {
    for event in [
        StreamEvent::Configured(failed()),
        StreamEvent::Listening(failed()),
        StreamEvent::Accepted(Some(failed())),
        StreamEvent::TaskEnded(failed()),
    ] {
        let (hud, action) = stream(event);
        assert_eq!(hud, None);
        match action {
            StreamAction::Return(Err(error)) => assert_eq!(error.text(), "because"),
            _ => panic!("the stream goes on"),
        }
    }
}

#[test]
fn streams_have_to_open_in_time() {
    let (hud, action) = stream(StreamEvent::Accepted(None));
    assert_eq!(hud, None);
    match action {
        StreamAction::Return(Err(error)) => {
            assert!(matches!(error, StreamError::SetupTimeout));
            assert_eq!(error.text(), "Timeout while setting up streams");
        }
        _ => panic!("the stream goes on"),
    }
}

#[test]
fn the_streamer_controls_the_stream() {
    let (hud, action) = stream(StreamEvent::ControlReceived(Ok(ServerControl::InitializeDecoder)));
    assert_eq!(hud, None);
    assert!(matches!(action, StreamAction::CreateDecoder));
    for packet in [ServerControl::StartStream, ServerControl::Other] {
        let (hud, action) = stream(StreamEvent::ControlReceived(Ok(packet)));
        assert_eq!(hud, None);
        assert!(matches!(action, StreamAction::Continue));
    }
    let (hud, action) = stream(StreamEvent::ControlReceived(Ok(ServerControl::Restarting)));
    assert_eq!(hud, says("The streamer is restarting\nPlease wait..."));
    assert!(matches!(action, StreamAction::Return(Ok(()))));
}

#[test]
fn streams_end_on_request_or_with_a_task() {
    let (hud, action) = stream(StreamEvent::DisconnectRequested);
    assert_eq!(hud, None);
    assert!(matches!(action, StreamAction::Return(Ok(()))));
    let (hud, action) = stream(StreamEvent::TaskEnded(Ok(())));
    assert_eq!(hud, None);
    assert!(matches!(action, StreamAction::Return(Ok(()))));
    let (hud, action) = stream(StreamEvent::KeepAliveSent(Ok(())));
    assert_eq!(hud, None);
    assert!(matches!(action, StreamAction::Pause { millis: 1000 }));
}
