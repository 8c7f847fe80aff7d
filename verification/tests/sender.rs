use alvr_stream::sender::StreamSender;

const FIELDS: [u8; 4] = [0x88, 0x77, 0x00, 0x55];

fn datagram(stream_id: u16, packet: u32, count: u32, index: u32, data: &[u8]) -> Vec<u8> {
    let mut bytes = vec![];
    bytes.extend(stream_id.to_be_bytes());
    bytes.extend(stream_id.to_be_bytes());
    bytes.extend(packet.to_be_bytes());
    bytes.extend(count.to_be_bytes());
    bytes.extend(index.to_be_bytes());
    bytes.extend(FIELDS);
    bytes.extend(data);
    bytes
}

fn sent(sender: &StreamSender, header: &[u8], payload: &[u8]) -> Vec<Vec<u8>> {
    assert!(sender.can_send(header.len(), payload.len()));
    sender
        .send(header, payload)
        .iter()
        .map(|bytes| bytes.to_vec())
        .collect()
}

#[test]
fn a_message_is_cut_into_its_header_and_its_payload() {
    let sender = StreamSender::new(4, 23);
    assert_eq!(
        sent(&sender, b"abcd", b"efghij"),
        vec![
            datagram(4, 0, 4, 0, b"abc"),
            datagram(4, 0, 4, 1, b"d"),
            datagram(4, 0, 4, 2, b"efg"),
            datagram(4, 0, 4, 3, b"hij"),
        ]
    );
}

#[test]
fn the_bytes_of_a_datagram() {
    let sender = StreamSender::new(0x0102, 100);
    assert_eq!(
        sent(&sender, &[9], &[]),
        vec![vec![
            1, 2, 1, 2, 0, 0, 0, 0, 0, 0, 0, 1, 0, 0, 0, 0, 0x88, 0x77, 0, 0x55, 9
        ]]
    );
}

#[test]
fn an_empty_message_has_no_datagrams() {
    let sender = StreamSender::new(0, 100);
    assert!(sent(&sender, &[], &[]).is_empty());
}

#[test]
fn datagrams_stay_within_the_packet_size() {
    let sender = StreamSender::new(2, 57);
    let datagrams = sent(&sender, &[1; 100], &[2; 1000]);
    assert_eq!(datagrams.len(), 3 + 28);
    assert!(datagrams.iter().all(|bytes| bytes.len() > 20 && bytes.len() <= 57));
    let data: Vec<u8> = datagrams.iter().flat_map(|bytes| bytes[20..].to_vec()).collect();
    assert_eq!(data, [vec![1; 100], vec![2; 1000]].concat());
}

#[test]
fn datagrams_without_room_for_data_cannot_be_sent() {
    assert!(!StreamSender::new(0, 0).can_send(1, 1));
    assert!(!StreamSender::new(0, 20).can_send(0, 0));
    assert!(StreamSender::new(0, 21).can_send(1, 1));
}

#[test]
fn messages_beyond_all_memory_cannot_be_sent() {
    let sender = StreamSender::new(0, usize::MAX);
    let most = isize::MAX as usize;
    assert!(sender.can_send(0, most - 20));
    assert!(!sender.can_send(0, most - 19));
    assert!(!sender.can_send(usize::MAX, usize::MAX));
}

#[test]
fn only_a_flushed_message_uses_up_its_index() {
    let mut sender = StreamSender::new(1, 100);
    let failed = sender.finish_send(Err("gone".to_string()));
    assert_eq!(failed, Err("gone".to_string()));
    assert_eq!(sent(&sender, b"x", b""), vec![datagram(1, 0, 1, 0, b"x")]);
    assert_eq!(sender.finish_send(Ok(())), Ok(()));
    assert_eq!(sent(&sender, b"x", b""), vec![datagram(1, 1, 1, 0, b"x")]);
}

#[test]
fn a_cloned_sender_counts_on_its_own() {
    let mut sender = StreamSender::new(1, 100);
    sender.finish_send(Ok(())).unwrap();
    let clone = sender.clone();
    sender.finish_send(Ok(())).unwrap();
    assert_eq!(sent(&clone, b"x", b""), vec![datagram(1, 1, 1, 0, b"x")]);
    assert_eq!(sent(&sender, b"x", b""), vec![datagram(1, 2, 1, 0, b"x")]);
}

#[test]
fn messages_are_numbered_from_zero() {
    let mut sender = StreamSender::new(1, 21);
    for number in 0..5 {
        assert_eq!(
            sent(&sender, b"x", b"y"),
            vec![datagram(1, number, 2, 0, b"x"), datagram(1, number, 2, 1, b"y")]
        );
        sender.finish_send(Ok(())).unwrap();
    }
}
