use alvr_stream::receiver::{ReceiverBuffer, RecvAction, RecvEvent};
use alvr_stream::sender::StreamSender;
use alvr_stream::socket::{
    buffer_step, stamp, BufferAction, BufferEvent, SendBufferLock, SocketBufferSize, StreamSocket,
};
use alvr_stream::wire::{AUDIO, HAPTICS, VIDEO};
use bytes::BytesMut;

#[test]
fn buffer_sizes_to_ask_for() {
    assert_eq!(SocketBufferSize::Default.requested(), None);
    assert_eq!(SocketBufferSize::Maximum.requested(), Some(0xffff_ffff));
    assert_eq!(SocketBufferSize::Custom(0).requested(), Some(0));
    assert_eq!(SocketBufferSize::Custom(4096).requested(), Some(4096));
}

#[test]
fn lent_bytes_go_back_behind_their_header() {
    let mut header = BytesMut::from(&b"head"[..]);
    let mut lock = SendBufferLock::new(&mut header, BytesMut::from(&b"body"[..]));
    assert_eq!(&lock.deref()[..], b"body");
    lock.deref_mut().extend_from_slice(b" and tail");
    lock.deref_mut()[0] = b'B';
    lock.release();
    assert_eq!(&header[..], b"headBody and tail");
}

#[test]
fn lent_bytes_of_one_allocation_go_back() {
    let mut header = BytesMut::from(&b"headbody"[..]);
    let body = header.split_off(4);
    SendBufferLock::new(&mut header, body).release();
    assert_eq!(&header[..], b"headbody");
}

#[test]
fn a_stamp_goes_to_the_front() {
    let mut packet = BytesMut::from(&[9, 8][..]);
    stamp(&mut packet, 0x0102030405060708);
    assert_eq!(&packet[..], [1, 2, 3, 4, 5, 6, 7, 8, 9, 8]);
    let mut packet = BytesMut::new();
    stamp(&mut packet, -1);
    assert_eq!(&packet[..], [0xff; 8]);
}

#[test]
fn streams_start_with_their_first_packet() {
    let socket = StreamSocket::<char>::new(22);
    let sender: StreamSender = socket.request_stream(HAPTICS);
    assert!(sender.can_send(3, 0));
    let datagrams = sender.send(b"abc", b"");
    assert_eq!(datagrams.len(), 2);
    assert_eq!(
        &datagrams[0][..],
        [0, 1, 0, 1, 0, 0, 0, 0, 0, 0, 0, 2, 0, 0, 0, 0, 0x88, 0x77, 0, 0x55, b'a', b'b']
    );
}

#[test]
fn datagrams_go_to_the_queue_of_their_stream() {
    let mut socket = StreamSocket::new(100);
    socket.subscribe_to_stream(AUDIO, 'a');
    socket.subscribe_to_stream(HAPTICS, 'h');
    let packet = BytesMut::from(&[0, 2, 7][..]);
    assert!(StreamSocket::<char>::can_route(&packet));
    let (queue, entry) = socket.route_at(true, packet, 5).unwrap();
    assert_eq!(*queue, 'a');
    assert_eq!(&entry[..], [7]);
    let (queue, entry) = socket.route(true, BytesMut::from(&[0, 1][..])).unwrap();
    assert_eq!(*queue, 'h');
    assert!(entry.is_empty());
}

#[test]
fn the_last_subscriber_gets_the_datagrams() {
    let mut socket = StreamSocket::new(100);
    socket.subscribe_to_stream(AUDIO, 'a');
    socket.subscribe_to_stream(AUDIO, 'b');
    let (queue, _) = socket.route(true, BytesMut::from(&[0, 2][..])).unwrap();
    assert_eq!(*queue, 'b');
}

#[test]
fn datagrams_of_strangers_are_dropped() {
    let mut socket = StreamSocket::new(100);
    socket.subscribe_to_stream(AUDIO, 'a');
    assert!(socket.route(false, BytesMut::from(&[0, 2][..])).is_none());
    assert!(socket.route(false, BytesMut::new()).is_none());
    assert!(socket.route_at(false, BytesMut::new(), 1).is_none());
}

#[test]
fn datagrams_that_nobody_waits_for_are_dropped() {
    let mut socket = StreamSocket::new(100);
    socket.subscribe_to_stream(AUDIO, 'a');
    assert!(socket.route(true, BytesMut::from(&[0, 1, 4][..])).is_none());
    assert!(socket.route(true, BytesMut::from(&[0, 3, 4][..])).is_none());
}

#[test]
fn datagrams_without_a_stream_id_cannot_be_routed() {
    assert!(!StreamSocket::<char>::can_route(&BytesMut::new()));
    assert!(!StreamSocket::<char>::can_route(&BytesMut::from(&[0][..])));
}

#[test]
fn video_is_stamped_with_its_arrival() {
    let mut socket = StreamSocket::new(100);
    socket.subscribe_to_stream(VIDEO, 'v');
    let packet = BytesMut::from(&[0, 3, 0, 3, 42][..]);
    let (queue, entry) = socket.route_at(true, packet.clone(), 0x11).unwrap();
    assert_eq!(*queue, 'v');
    assert_eq!(&entry[..], [0, 0, 0, 0, 0, 0, 0, 0x11, 0, 3, 42]);

    let before = ReceiverBuffer::new().first_packet_receive_time;
    let (_, entry) = socket.route(true, packet).unwrap();
    let after = ReceiverBuffer::new().first_packet_receive_time;
    assert_eq!(&entry[8..], [0, 3, 42]);
    let mut time = [0; 8];
    time.copy_from_slice(&entry[..8]);
    let time = i64::from_be_bytes(time);
    assert!(before <= time && time <= after);
}

/// Sends a message over the socket, with its datagrams in reverse order, and reads it.
fn sent_and_received(stream_id: u16, now: i64, header: &[u8], payload: &[u8]) -> Option<Vec<u8>> {
    let mut socket = StreamSocket::new(25);
    let sender = socket.request_stream(stream_id);
    let mut receiver = socket.subscribe_to_stream(stream_id, ());
    let mut buffer = ReceiverBuffer::new();
    assert!(sender.can_send(header.len(), payload.len()));
    receiver.recv_buffer(&mut buffer, RecvEvent::Started);
    for datagram in sender.send(header, payload).into_iter().rev() {
        let (_, entry) = socket.route_at(true, datagram, now).unwrap();
        let action = receiver.recv_buffer(&mut buffer, RecvEvent::Shard(entry));
        if action == RecvAction::Assemble {
            assert!(receiver.can_assemble());
            receiver.assemble(&mut buffer);
            assert!(!buffer.had_packet_loss());
            return Some(buffer.get().to_vec());
        }
    }
    None
}

#[test]
fn a_message_arrives_as_it_was_sent() {
    assert_eq!(
        sent_and_received(AUDIO, 1, b"a header", b"and some payload"),
        Some(b"a headerand some payload".to_vec())
    );
}

#[test]
fn a_video_message_arrives_whenever_it_is_routed() {
    for now in [0, -1, 1_800_000_000_000_000, 0x0003_0000_1234_5678] {
        assert_eq!(
            sent_and_received(VIDEO, now, b"a header", b"and some payload"),
            Some(b"a headerand some payload".to_vec())
        );
    }
}

#[test]
fn a_video_message_comes_with_the_times_of_its_datagrams() {
    let mut socket = StreamSocket::new(25);
    let sender = socket.request_stream(VIDEO);
    let mut receiver = socket.subscribe_to_stream(VIDEO, ());
    let mut buffer = ReceiverBuffer::new();
    receiver.recv_buffer(&mut buffer, RecvEvent::Started);
    let mut now = 1_800_000_000_000_000;
    for datagram in sender.send(b"header", b"payload").into_iter().rev() {
        let (_, entry) = socket.route_at(true, datagram, now).unwrap();
        if receiver.recv_buffer(&mut buffer, RecvEvent::Shard(entry)) == RecvAction::Assemble {
            receiver.assemble(&mut buffer);
        }
        now += 10;
    }
    assert_eq!(buffer.get(), b"headerpayload");
    assert_eq!(buffer.first_packet_receive_time, 1_800_000_000_000_030);
    assert_eq!(buffer.last_packet_receive_time, 1_800_000_000_000_000);
}

#[test]
fn video_that_arrives_at_present_is_received() {
    let mut socket = StreamSocket::new(100);
    let sender = socket.request_stream(VIDEO);
    let mut receiver = socket.subscribe_to_stream(VIDEO, ());
    let mut buffer = ReceiverBuffer::with_receive_times(0, 0);
    let before = ReceiverBuffer::new().first_packet_receive_time;
    receiver.recv_buffer(&mut buffer, RecvEvent::Started);
    for datagram in sender.send(b"x", b"") {
        let (_, entry) = socket.route(true, datagram).unwrap();
        assert_eq!(
            receiver.recv_buffer(&mut buffer, RecvEvent::Shard(entry)),
            RecvAction::Assemble
        );
    }
    receiver.assemble(&mut buffer);
    assert_eq!(buffer.get(), b"x");
    let after = ReceiverBuffer::new().first_packet_receive_time;
    assert!(before <= buffer.first_packet_receive_time);
    assert!(buffer.first_packet_receive_time <= after);
    assert_eq!(buffer.first_packet_receive_time, buffer.last_packet_receive_time);
}

#[test]
fn messages_arrive_one_after_the_other() {
    let mut socket = StreamSocket::new(23);
    let mut sender = socket.request_stream(AUDIO);
    let mut receiver = socket.subscribe_to_stream(AUDIO, ());
    let mut buffer = ReceiverBuffer::new();
    for number in 0..5u8 {
        let message = vec![number; 7];
        receiver.recv_buffer(&mut buffer, RecvEvent::Started);
        for datagram in sender.send(&message, &message) {
            let (_, entry) = socket.route(true, datagram).unwrap();
            if receiver.recv_buffer(&mut buffer, RecvEvent::Shard(entry)) == RecvAction::Assemble {
                receiver.assemble(&mut buffer);
            }
        }
        assert_eq!(buffer.get(), vec![number; 14]);
        assert!(!buffer.had_packet_loss());
        sender.finish_send(Ok(())).unwrap();
    }
}

/// Runs the steps of setting the buffers. `fails` tells by the action's name what fails.
fn set_buffers(send: SocketBufferSize, recv: SocketBufferSize, fails: &[&str]) -> Vec<String> {
    let mut event = BufferEvent::Started;
    let mut steps = vec![];
    loop {
        let outcome = |name: &str| {
            if fails.contains(&name) {
                Err(name.to_string())
            } else {
                Ok(())
            }
        };
        let action = buffer_step(event, send, recv);
        let name = match &action {
            BufferAction::QueryInitialSend => "initial send",
            BufferAction::QueryInitialRecv => "initial recv",
            BufferAction::SetSend(_) => "set send",
            BufferAction::QuerySend => "send",
            BufferAction::SetRecv(_) => "set recv",
            BufferAction::QueryRecv => "recv",
            BufferAction::Return(result) => {
                steps.push(format!("{:?}", result));
                return steps;
            }
        };
        steps.push(name.to_string());
        event = match action {
            BufferAction::QueryInitialSend => BufferEvent::InitialSendQueried(outcome(name)),
            BufferAction::QueryInitialRecv => BufferEvent::InitialRecvQueried(outcome(name)),
            BufferAction::SetSend(size) => {
                assert_eq!(Some(size), send.requested());
                BufferEvent::SendSet(outcome(name))
            }
            BufferAction::QuerySend => BufferEvent::SendQueried(outcome(name)),
            BufferAction::SetRecv(size) => {
                assert_eq!(Some(size), recv.requested());
                BufferEvent::RecvSet(outcome(name))
            }
            BufferAction::QueryRecv => BufferEvent::RecvQueried(outcome(name)),
            BufferAction::Return(_) => unreachable!(),
        };
    }
}

#[test]
fn buffers_are_set_one_after_the_other() {
    let send = SocketBufferSize::Custom(1);
    let recv = SocketBufferSize::Maximum;
    assert_eq!(
        set_buffers(send, recv, &[]),
        ["initial send", "initial recv", "set send", "send", "set recv", "recv", "Ok(())"]
    );
    assert_eq!(
        set_buffers(SocketBufferSize::Default, SocketBufferSize::Default, &[]),
        ["initial send", "initial recv", "Ok(())"]
    );
    assert_eq!(
        set_buffers(SocketBufferSize::Default, recv, &[]),
        ["initial send", "initial recv", "set recv", "recv", "Ok(())"]
    );
}

#[test]
fn a_buffer_that_cannot_be_set_is_no_error() {
    let size = SocketBufferSize::Custom(1);
    assert_eq!(
        set_buffers(size, size, &["set send", "set recv"]),
        ["initial send", "initial recv", "set send", "set recv", "Ok(())"]
    );
}

#[test]
fn a_buffer_that_cannot_be_read_is_an_error() {
    let size = SocketBufferSize::Custom(1);
    for query in ["initial send", "initial recv", "send", "recv"] {
        let steps = set_buffers(size, size, &[query]);
        assert_eq!(steps[steps.len() - 2], query);
        assert_eq!(steps[steps.len() - 1], format!("Err({:?})", query));
    }
}
