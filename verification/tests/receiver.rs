use alvr_stream::receiver::{LossRate, ReceiverBuffer, RecvAction, RecvEvent, StreamReceiver};
use alvr_stream::wire::{AUDIO, VIDEO};
use bytes::BytesMut;

fn shard(packet: u32, count: u32, index: u32, data: &[u8]) -> BytesMut {
    let mut bytes = vec![0, 2];
    bytes.extend(packet.to_be_bytes());
    bytes.extend(count.to_be_bytes());
    bytes.extend(index.to_be_bytes());
    bytes.extend([0x88, 0x77, 0, 0x55]);
    bytes.extend(data);
    BytesMut::from(&bytes[..])
}

fn video_shard(time: i64, packet: u32, count: u32, index: u32, data: &[u8]) -> BytesMut {
    let mut bytes = vec![0, 3];
    bytes.extend(time.to_be_bytes());
    bytes.extend_from_slice(&shard(packet, count, index, data)[2..]);
    BytesMut::from(&bytes[..])
}

/// Hands the shards over until a packet is assembled, and returns those that are left.
fn receive(
    receiver: &mut StreamReceiver,
    buffer: &mut ReceiverBuffer,
    shards: Vec<BytesMut>,
) -> Option<Vec<BytesMut>> {
    let mut shards = shards.into_iter();
    let mut action = receiver.recv_buffer(buffer, RecvEvent::Started);
    loop {
        match action {
            RecvAction::AwaitShard => match shards.next() {
                Some(shard) => action = receiver.recv_buffer(buffer, RecvEvent::Shard(shard)),
                None => return None,
            },
            RecvAction::Assemble => {
                assert!(receiver.can_assemble());
                receiver.assemble(buffer);
                return Some(shards.collect());
            }
            RecvAction::Fail => unreachable!(),
        }
    }
}

#[test]
fn a_new_buffer_is_empty_and_carries_the_present() {
    let buffer = ReceiverBuffer::new();
    assert!(buffer.get().is_empty());
    assert!(!buffer.had_packet_loss());
    assert_eq!(buffer.packet_loss_count, 0);
    assert!(!buffer.skipping_loss);
    assert_eq!(buffer.shard_loss_rate, LossRate { lost: 0, shards: 1 });
    // after 2020
    assert!(buffer.first_packet_receive_time > 1_577_836_800_000_000);
    assert!(buffer.last_packet_receive_time > 1_577_836_800_000_000);
}

#[test]
fn a_default_buffer_carries_no_times() {
    let buffer = ReceiverBuffer::default();
    assert!(buffer.get().is_empty());
    assert_eq!(buffer.first_packet_receive_time, 0);
    assert_eq!(buffer.last_packet_receive_time, 0);
    let buffer = ReceiverBuffer::with_receive_times(5, 6);
    assert_eq!(buffer.first_packet_receive_time, 5);
    assert_eq!(buffer.last_packet_receive_time, 6);
}

#[test]
fn shards_arrive_in_any_order_and_more_than_once() {
    let mut receiver = StreamReceiver::new(AUDIO);
    let mut buffer = ReceiverBuffer::new();
    let left = receive(
        &mut receiver,
        &mut buffer,
        vec![
            shard(0, 3, 2, b"ef"),
            shard(0, 3, 0, b"ab"),
            shard(0, 3, 2, b"ef"),
            shard(0, 3, 1, b"cd"),
        ],
    );
    assert_eq!(left, Some(vec![]));
    assert_eq!(buffer.get(), b"abcdef");
    assert!(!buffer.had_packet_loss());
    assert_eq!(buffer.shard_loss_rate, LossRate { lost: 0, shards: 3 });
    assert!(!receiver.is_receiving());
}

#[test]
fn early_shards_of_the_next_packet_are_kept() {
    let mut receiver = StreamReceiver::new(AUDIO);
    let mut buffer = ReceiverBuffer::new();
    let shards = vec![shard(0, 2, 0, b"a"), shard(1, 2, 1, b"d"), shard(0, 2, 1, b"b")];
    assert!(receive(&mut receiver, &mut buffer, shards).is_some());
    assert_eq!(buffer.get(), b"ab");
    let shards = vec![shard(1, 2, 0, b"c")];
    assert!(receive(&mut receiver, &mut buffer, shards).is_some());
    assert_eq!(buffer.get(), b"cd");
    assert!(!buffer.had_packet_loss());
}

#[test]
fn a_complete_later_packet_replaces_the_current_one() {
    let mut receiver = StreamReceiver::new(AUDIO);
    let mut buffer = ReceiverBuffer::new();
    let shards = vec![
        shard(0, 2, 0, b"a"),
        shard(1, 2, 0, b"c"),
        shard(1, 2, 1, b"d"),
        shard(0, 2, 1, b"b"),
    ];
    let left = receive(&mut receiver, &mut buffer, shards);
    assert_eq!(left, Some(vec![shard(0, 2, 1, b"b")]));
    assert_eq!(buffer.get(), b"cd");
    assert!(buffer.had_packet_loss());
    assert!(buffer.skipping_loss);
    assert_eq!(buffer.packet_loss_count, 1);
    assert_eq!(buffer.shard_loss_rate, LossRate { lost: 1, shards: 2 });

    // the packet that was given up is over, and the loss is over with the next call
    let shards = vec![shard(0, 2, 1, b"b"), shard(2, 1, 0, b"e")];
    assert_eq!(receive(&mut receiver, &mut buffer, shards), Some(vec![]));
    assert_eq!(buffer.get(), b"e");
    assert!(!buffer.had_packet_loss());
    assert!(buffer.skipping_loss);
    assert_eq!(buffer.packet_loss_count, 1);
    assert_eq!(buffer.shard_loss_rate, LossRate { lost: 1, shards: 1 });
}

#[test]
fn a_newer_packet_drops_the_shards_of_the_one_before() {
    let mut receiver = StreamReceiver::new(AUDIO);
    let mut buffer = ReceiverBuffer::new();
    let shards = vec![
        shard(1, 2, 0, b"c"),
        shard(5, 2, 0, b"e"),
        // over: a later packet was seen
        shard(1, 2, 1, b"d"),
        shard(5, 2, 1, b"f"),
    ];
    assert!(receive(&mut receiver, &mut buffer, shards).is_some());
    assert_eq!(buffer.get(), b"ef");
    assert!(buffer.had_packet_loss());
    assert_eq!(receive(&mut receiver, &mut buffer, vec![shard(5, 2, 0, b"e")]), None);
    let shards = vec![shard(6, 1, 0, b"g")];
    let mut receiver = StreamReceiver::new(AUDIO);
    assert_eq!(receive(&mut receiver, &mut buffer, shards), Some(vec![]));
    assert_eq!(buffer.get(), b"g");
}

#[test]
fn two_packets_at_most_are_stored() {
    let mut receiver = StreamReceiver::new(AUDIO);
    let mut buffer = ReceiverBuffer::new();
    let shards = vec![
        shard(0, 2, 0, b"a"),
        shard(1, 2, 0, b"c"),
        shard(2, 2, 0, b"e"),
        shard(1, 2, 1, b"d"),
        shard(0, 2, 1, b"b"),
    ];
    assert_eq!(receive(&mut receiver, &mut buffer, shards), Some(vec![]));
    assert_eq!(buffer.get(), b"ab");
    // of the two packets behind it, only the later one is left
    let shards = vec![shard(1, 2, 0, b"c"), shard(1, 2, 1, b"d"), shard(2, 2, 1, b"f")];
    assert_eq!(receive(&mut receiver, &mut buffer, shards), Some(vec![]));
    assert_eq!(buffer.get(), b"ef");
}

#[test]
fn a_packet_with_a_hole_is_not_delivered() {
    let mut receiver = StreamReceiver::new(AUDIO);
    let mut buffer = ReceiverBuffer::new();
    let shards = vec![shard(0, 2, 0, b"a"), shard(0, 2, 5, b"b"), shard(0, 2, 7, b"c")];
    assert_eq!(receive(&mut receiver, &mut buffer, shards), None);
    assert!(buffer.get().is_empty());
    // a new call turns to the next packet
    let shards = vec![shard(1, 2, 1, b"e"), shard(1, 2, 0, b"d")];
    assert_eq!(receive(&mut receiver, &mut buffer, shards), Some(vec![]));
    assert_eq!(buffer.get(), b"de");
    assert!(!buffer.had_packet_loss());
}

#[test]
fn a_hole_is_filled_by_its_own_shard() {
    let mut receiver = StreamReceiver::new(AUDIO);
    let mut buffer = ReceiverBuffer::new();
    let shards = vec![shard(0, 2, 0, b"a"), shard(0, 2, 5, b"x"), shard(0, 2, 1, b"b")];
    assert_eq!(receive(&mut receiver, &mut buffer, shards), Some(vec![]));
    assert_eq!(buffer.get(), b"ab");
    assert!(!buffer.had_packet_loss());
    assert_eq!(buffer.packet_loss_count, 0);
    assert_eq!(buffer.shard_loss_rate, LossRate { lost: 0, shards: 2 });
}

#[test]
fn a_packet_with_a_hole_is_dropped_for_a_whole_one() {
    let mut receiver = StreamReceiver::new(AUDIO);
    let mut buffer = ReceiverBuffer::new();
    let shards = vec![
        shard(0, 2, 0, b"a"),
        shard(0, 2, 5, b"x"),
        // not whole either
        shard(1, 2, 0, b"c"),
        shard(1, 2, 9, b"x"),
        shard(2, 2, 0, b"e"),
        shard(2, 2, 1, b"f"),
    ];
    assert_eq!(receive(&mut receiver, &mut buffer, shards), Some(vec![]));
    assert_eq!(buffer.get(), b"ef");
    assert!(buffer.had_packet_loss());
    assert_eq!(buffer.packet_loss_count, 1);
    assert_eq!(buffer.shard_loss_rate, LossRate { lost: 1, shards: 2 });
}

#[test]
fn a_later_packet_of_no_shards_replaces_nothing() {
    let mut receiver = StreamReceiver::new(AUDIO);
    let mut buffer = ReceiverBuffer::new();
    let shards = vec![shard(0, 2, 0, b"a"), shard(1, 0, 0, b"x"), shard(0, 2, 1, b"b")];
    assert_eq!(receive(&mut receiver, &mut buffer, shards), Some(vec![]));
    assert_eq!(buffer.get(), b"ab");
    assert!(!buffer.had_packet_loss());
}

#[test]
fn a_later_packet_with_more_shards_than_it_says_replaces_nothing() {
    let mut receiver = StreamReceiver::new(AUDIO);
    let mut buffer = ReceiverBuffer::new();
    let shards = vec![
        shard(0, 2, 0, b"a"),
        shard(1, 5, 0, b"x"),
        shard(1, 5, 1, b"y"),
        shard(1, 5, 2, b"z"),
        shard(1, 2, 0, b"x"),
        shard(0, 2, 1, b"b"),
    ];
    assert_eq!(receive(&mut receiver, &mut buffer, shards), Some(vec![]));
    assert_eq!(buffer.get(), b"ab");
    assert!(!buffer.had_packet_loss());
    // it is delivered in its turn
    assert_eq!(receive(&mut receiver, &mut buffer, vec![]), Some(vec![]));
    assert_eq!(buffer.get(), b"xy");
}

#[test]
fn a_packet_far_ahead_is_a_later_one() {
    for index in [0x7fff_ffff, 0x9000_0000, 0xffff_ffff] {
        let mut receiver = StreamReceiver::new(AUDIO);
        let mut buffer = ReceiverBuffer::new();
        let shards = vec![shard(index, 1, 0, b"a")];
        assert_eq!(receive(&mut receiver, &mut buffer, shards), Some(vec![]));
        assert_eq!(buffer.get(), b"a");
        assert!(buffer.had_packet_loss());
    }
}

#[test]
fn packets_go_on_behind_an_overflow_of_the_index() {
    let mut receiver = StreamReceiver::new(AUDIO);
    let mut buffer = ReceiverBuffer::new();
    let shards = vec![shard(0xffff_fffd, 1, 0, b"a")];
    assert_eq!(receive(&mut receiver, &mut buffer, shards), Some(vec![]));
    // the last two packets are lost
    let shards = vec![shard(0xffff_fffd, 1, 0, b"old"), shard(0, 1, 0, b"b")];
    assert_eq!(receive(&mut receiver, &mut buffer, shards), Some(vec![]));
    assert_eq!(buffer.get(), b"b");
    assert!(buffer.had_packet_loss());
    // a packet from before the overflow passes for a later one, and the next one costs a loss
    let shards = vec![shard(0xffff_ffff, 1, 0, b"late")];
    assert_eq!(receive(&mut receiver, &mut buffer, shards), Some(vec![]));
    assert_eq!(buffer.get(), b"late");
    assert!(buffer.had_packet_loss());
    let shards = vec![shard(1, 1, 0, b"c")];
    assert_eq!(receive(&mut receiver, &mut buffer, shards), Some(vec![]));
    assert_eq!(buffer.get(), b"c");
    assert!(buffer.had_packet_loss());
}

#[test]
fn packets_go_on_across_an_overflow_of_the_index() {
    let mut receiver = StreamReceiver::new(AUDIO);
    let mut buffer = ReceiverBuffer::new();
    let shards = vec![shard(0xffff_fffe, 1, 0, b"a")];
    assert_eq!(receive(&mut receiver, &mut buffer, shards), Some(vec![]));
    for index in [0xffff_ffff, 0, 1] {
        let shards = vec![shard(index, 1, 0, b"b")];
        assert_eq!(receive(&mut receiver, &mut buffer, shards), Some(vec![]));
        assert!(!buffer.had_packet_loss());
    }
}

#[test]
fn a_packet_of_no_shards_is_empty() {
    let mut receiver = StreamReceiver::new(AUDIO);
    let mut buffer = ReceiverBuffer::new();
    assert_eq!(
        receive(&mut receiver, &mut buffer, vec![shard(0, 0, 0, b"a")]),
        Some(vec![])
    );
    assert!(buffer.get().is_empty());
    assert!(!buffer.had_packet_loss());
    assert_eq!(buffer.shard_loss_rate, LossRate { lost: 0, shards: 1 });
}

#[test]
fn a_closed_queue_ends_the_call() {
    let mut receiver = StreamReceiver::new(AUDIO);
    let mut buffer = ReceiverBuffer::new();
    assert_eq!(
        receiver.recv_buffer(&mut buffer, RecvEvent::Started),
        RecvAction::AwaitShard
    );
    assert!(receiver.is_receiving());
    assert!(!receiver.can_assemble());
    assert_eq!(
        receiver.recv_buffer(&mut buffer, RecvEvent::Closed),
        RecvAction::Fail
    );
    assert!(!receiver.is_receiving());
    // the packet that was waited for is over
    let shards = vec![shard(0, 1, 0, b"a"), shard(1, 1, 0, b"b")];
    assert_eq!(receive(&mut receiver, &mut buffer, shards), Some(vec![]));
    assert_eq!(buffer.get(), b"b");
    assert!(!buffer.had_packet_loss());
}

#[test]
fn video_shards_report_their_times() {
    let mut receiver = StreamReceiver::new(VIDEO);
    let mut buffer = ReceiverBuffer::with_receive_times(1, 2);
    let shards = vec![
        video_shard(30, 0, 3, 2, b"c"),
        video_shard(10, 0, 3, 0, b"a"),
        video_shard(20, 0, 3, 1, b"b"),
    ];
    assert!(receive(&mut receiver, &mut buffer, shards).is_some());
    assert_eq!(buffer.get(), b"abc");
    assert_eq!(buffer.first_packet_receive_time, 10);
    assert_eq!(buffer.last_packet_receive_time, 30);
}

#[test]
fn other_shards_leave_the_times_alone() {
    let mut receiver = StreamReceiver::new(AUDIO);
    let mut buffer = ReceiverBuffer::with_receive_times(1, 2);
    assert!(receive(&mut receiver, &mut buffer, vec![shard(0, 1, 0, b"a")]).is_some());
    assert_eq!(buffer.first_packet_receive_time, 1);
    assert_eq!(buffer.last_packet_receive_time, 2);
}

#[test]
fn the_times_are_those_of_the_packet_itself() {
    let mut receiver = StreamReceiver::new(VIDEO);
    let mut buffer = ReceiverBuffer::with_receive_times(1, 2);
    let shards = vec![
        video_shard(100, 0, 2, 0, b"a"),
        video_shard(200, 1, 2, 0, b"x"),
        video_shard(300, 0, 2, 1, b"b"),
    ];
    assert_eq!(receive(&mut receiver, &mut buffer, shards), Some(vec![]));
    assert_eq!(buffer.get(), b"ab");
    assert_eq!(buffer.first_packet_receive_time, 100);
    assert_eq!(buffer.last_packet_receive_time, 300);

    // the time of the early shard was kept, and old shards report none
    let shards = vec![video_shard(400, 0, 2, 0, b"a"), video_shard(500, 1, 2, 1, b"y")];
    assert_eq!(receive(&mut receiver, &mut buffer, shards), Some(vec![]));
    assert_eq!(buffer.get(), b"xy");
    assert_eq!(buffer.first_packet_receive_time, 200);
    assert_eq!(buffer.last_packet_receive_time, 500);
}

#[test]
fn a_packet_that_replaces_another_brings_its_own_times() {
    let mut receiver = StreamReceiver::new(VIDEO);
    let mut buffer = ReceiverBuffer::with_receive_times(1, 2);
    let shards = vec![
        video_shard(100, 0, 2, 0, b"a"),
        video_shard(150, 1, 2, 0, b"w"),
        video_shard(200, 2, 2, 1, b"y"),
        video_shard(300, 2, 2, 0, b"x"),
    ];
    assert_eq!(receive(&mut receiver, &mut buffer, shards), Some(vec![]));
    assert_eq!(buffer.get(), b"xy");
    assert!(buffer.had_packet_loss());
    assert_eq!(buffer.first_packet_receive_time, 300);
    assert_eq!(buffer.last_packet_receive_time, 200);
}

#[test]
fn a_buffer_tells_what_is_known_of_its_packet() {
    let mut receiver = StreamReceiver::new(VIDEO);
    let mut buffer = ReceiverBuffer::with_receive_times(1, 2);
    let shards = vec![video_shard(30, 4, 2, 1, b"b"), video_shard(40, 4, 2, 0, b"a")];
    assert_eq!(receive(&mut receiver, &mut buffer, shards), Some(vec![]));
    assert_eq!(buffer.packet_loss_count(), 1);
    assert!(buffer.skipping_loss());
    assert_eq!(buffer.shard_loss_rate(), LossRate { lost: 1, shards: 2 });
    assert_eq!(buffer.first_packet_receive_time(), 40);
    assert_eq!(buffer.last_packet_receive_time(), 30);
}

#[test]
fn packets_come_out_in_order() {
    let mut receiver = StreamReceiver::new(AUDIO);
    let mut buffer = ReceiverBuffer::new();
    let mut left = vec![];
    for index in [2, 1, 0, 4, 3, 7, 7, 5, 8] {
        left.push(shard(index, 1, 0, &[index as u8]));
    }
    let mut delivered = vec![];
    while let Some(rest) = receive(&mut receiver, &mut buffer, left) {
        delivered.push(buffer.get()[0]);
        left = rest;
    }
    assert_eq!(delivered, [2, 4, 7, 8]);
}
