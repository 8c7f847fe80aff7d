use alvr_stream::video::{PacketLossRate, VideoAction, VideoPacket, VideoStream};

const FRAME: VideoPacket = VideoPacket {
    resumed: true,
    statistics: true,
    is_idr: false,
    had_packet_loss: false,
    elapsed_nanos: 0,
};

const KEY_FRAME: VideoPacket = VideoPacket { is_idr: true, ..FRAME };

const LOSSY_FRAME: VideoPacket = VideoPacket { had_packet_loss: true, ..FRAME };

fn take(stream: &mut VideoStream, packet: VideoPacket) -> Vec<VideoAction> {
    assert!(stream.can_count(packet));
    stream.on_packet(packet)
}

#[test]
fn a_frame_is_reported_and_shown() {
    let mut stream = VideoStream::new(true);
    assert_eq!(
        take(&mut stream, FRAME),
        [VideoAction::ReportReceived, VideoAction::PushNal]
    );
    assert_eq!(stream.on_pushed(true), []);
}

#[test]
fn a_key_frame_is_reported_as_one() {
    let mut stream = VideoStream::new(true);
    assert_eq!(
        take(&mut stream, KEY_FRAME),
        [VideoAction::ReportReceived, VideoAction::ReportIdr, VideoAction::PushNal]
    );
}

#[test]
fn a_paused_client_ends_the_stream() {
    let mut stream = VideoStream::new(true);
    let packet = VideoPacket { resumed: false, ..LOSSY_FRAME };
    assert_eq!(take(&mut stream, packet), [VideoAction::Stop]);
}

#[test]
fn nothing_is_shown_from_a_loss_to_the_next_key_frame() {
    let mut stream = VideoStream::new(true);
    assert_eq!(
        take(&mut stream, LOSSY_FRAME),
        [
            VideoAction::ReportReceived,
            VideoAction::ReportShardLoss,
            VideoAction::RequestIdr,
            VideoAction::ReportBugReason(3),
            VideoAction::ReportBugReason(2),
        ]
    );
    assert_eq!(
        take(&mut stream, FRAME),
        [VideoAction::ReportReceived, VideoAction::ReportBugReason(2)]
    );
    assert_eq!(
        take(&mut stream, KEY_FRAME),
        [VideoAction::ReportReceived, VideoAction::ReportIdr, VideoAction::PushNal]
    );
    assert_eq!(
        take(&mut stream, FRAME),
        [VideoAction::ReportReceived, VideoAction::PushNal]
    );
}

#[test]
fn a_loss_before_a_key_frame_corrupts_nothing() {
    let mut stream = VideoStream::new(true);
    let packet = VideoPacket { had_packet_loss: true, ..KEY_FRAME };
    assert_eq!(
        take(&mut stream, packet),
        [
            VideoAction::ReportReceived,
            VideoAction::ReportShardLoss,
            VideoAction::ReportIdr,
            VideoAction::PushNal,
        ]
    );
}

#[test]
fn glitches_are_shown_where_they_are_not_avoided() {
    let mut stream = VideoStream::new(false);
    assert_eq!(
        take(&mut stream, LOSSY_FRAME),
        [
            VideoAction::ReportReceived,
            VideoAction::ReportShardLoss,
            VideoAction::RequestIdr,
            VideoAction::ReportBugReason(3),
            VideoAction::PushNal,
        ]
    );
}

#[test]
fn a_saturated_decoder_corrupts_the_stream() {
    let mut stream = VideoStream::new(true);
    take(&mut stream, FRAME);
    assert_eq!(
        stream.on_pushed(false),
        [VideoAction::RequestIdr, VideoAction::ReportBugReason(1)]
    );
    assert_eq!(
        take(&mut stream, FRAME),
        [VideoAction::ReportReceived, VideoAction::ReportBugReason(2)]
    );
}

#[test]
fn the_loss_is_reported_once_its_window_is_over() {
    let mut stream = VideoStream::new(false);
    take(&mut stream, FRAME);
    take(&mut stream, LOSSY_FRAME);
    take(&mut stream, VideoPacket { elapsed_nanos: 299_999_999, ..FRAME });
    let late = VideoPacket { elapsed_nanos: 300_000_000, ..FRAME };
    assert_eq!(
        take(&mut stream, late),
        [
            VideoAction::ReportReceived,
            VideoAction::ReportPacketLoss(PacketLossRate { lost: 1, total: 4 }),
            VideoAction::PushNal,
        ]
    );
    assert_eq!(
        take(&mut stream, late),
        [
            VideoAction::ReportReceived,
            VideoAction::ReportPacketLoss(PacketLossRate { lost: 0, total: 1 }),
            VideoAction::PushNal,
        ]
    );
}

#[test]
fn no_packets_are_no_loss() {
    let mut stream = VideoStream::new(false);
    let packet = VideoPacket { statistics: false, elapsed_nanos: 300_000_000, ..LOSSY_FRAME };
    assert!(take(&mut stream, packet)
        .contains(&VideoAction::ReportPacketLoss(PacketLossRate { lost: 0, total: 1 })));
}

#[test]
fn frames_are_withheld_from_a_loss_or_a_refusal_to_the_next_key_frame() {
    let mut stream = VideoStream::new(true);
    let mut shown = vec![];
    for (packet, accepted) in [
        (FRAME, true),
        (LOSSY_FRAME, true),
        (FRAME, true),
        (KEY_FRAME, false),
        (FRAME, true),
        (KEY_FRAME, true),
        (FRAME, true),
    ] {
        let shows = take(&mut stream, packet).contains(&VideoAction::PushNal);
        shown.push(shows);
        if shows {
            stream.on_pushed(accepted);
        }
    }
    assert_eq!(shown, [true, false, false, true, false, true, true]);
}
