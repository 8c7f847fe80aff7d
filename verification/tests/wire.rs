use alvr_stream::wire::{ShardHeader, AUDIO, HAPTICS, SHARD_HEADER_SIZE, STATISTICS, TRACKING, VIDEO};
use bytes::BytesMut;

fn buffer(bytes: &[u8]) -> BytesMut {
    BytesMut::from(bytes)
}

#[test]
fn stream_ids() {
    assert_eq!([TRACKING, HAPTICS, AUDIO, VIDEO, STATISTICS], [0, 1, 2, 3, 4]);
}

#[test]
fn header_size_is_the_sum_of_its_fields() {
    assert_eq!(SHARD_HEADER_SIZE, 2 + 2 + 4 + 4 + 4 + 1 + 1 + 2);
}

#[test]
fn short_shards_do_not_hold_a_header() {
    assert!(!ShardHeader::fits(TRACKING, &buffer(&[])));
    assert!(!ShardHeader::fits(TRACKING, &buffer(&[0])));
    assert!(!ShardHeader::fits(TRACKING, &buffer(&[0; 17])));
    assert!(ShardHeader::fits(TRACKING, &buffer(&[0; 18])));
}

#[test]
fn video_shards_also_hold_a_time() {
    let mut bytes = vec![0, 3];
    bytes.extend([0; 23]);
    for stream_id in [TRACKING, VIDEO] {
        assert!(!ShardHeader::fits(stream_id, &buffer(&bytes)));
    }
    bytes.push(0);
    for stream_id in [TRACKING, VIDEO] {
        assert!(ShardHeader::fits(stream_id, &buffer(&bytes)));
    }
}

#[test]
fn header_of_an_audio_shard() {
    let mut shard = buffer(&[
        0, 2, 0x01, 0x02, 0x03, 0x04, 0, 0, 0, 3, 0, 0, 1, 0, 0x88, 0x77, 0x12, 0x55, 42, 43,
    ]);
    let header = ShardHeader::read(AUDIO, &mut shard);
    assert_eq!(header.stream_id, AUDIO);
    assert_eq!(header.receive_time, 0);
    assert_eq!(header.packet_index, 0x01020304);
    assert_eq!(header.shards_count, 3);
    assert_eq!(header.shard_index, 256);
    assert_eq!(header.ecn_mark, 0x88);
    assert_eq!(header.queue_depth, 0x77);
    assert_eq!(header.channel_utility, 0x1255);
    assert_eq!(&shard[..], [42, 43]);
}

#[test]
fn header_of_a_video_shard() {
    let mut bytes = vec![0, 3];
    bytes.extend((-2i64).to_be_bytes());
    bytes.extend(7u32.to_be_bytes());
    bytes.extend(2u32.to_be_bytes());
    bytes.extend(1u32.to_be_bytes());
    bytes.extend([0, 0, 0, 0]);
    bytes.extend(*b"data");
    let mut shard = buffer(&bytes);
    let header = ShardHeader::read(VIDEO, &mut shard);
    assert_eq!(header.stream_id, VIDEO);
    assert_eq!(header.receive_time, -2);
    assert_eq!(header.packet_index, 7);
    assert_eq!(header.shards_count, 2);
    assert_eq!(header.shard_index, 1);
    assert_eq!(&shard[..], b"data");
}

fn stamped_video_shard(time: i64) -> BytesMut {
    let mut bytes = time.to_be_bytes().to_vec();
    bytes.extend([0, 3]);
    bytes.extend(7u32.to_be_bytes());
    bytes.extend(2u32.to_be_bytes());
    bytes.extend(1u32.to_be_bytes());
    bytes.extend([0x88, 0x77, 0, 0x55]);
    bytes.extend(*b"data");
    buffer(&bytes)
}

#[test]
fn the_time_may_stand_in_front_of_a_video_shard() {
    for time in [0, -1, 3, 1_800_000_000_000_000, 0x0003_0000_0000_0000, 0x0003_0003_0003_0003] {
        let mut shard = stamped_video_shard(time);
        assert!(ShardHeader::fits(VIDEO, &shard));
        let header = ShardHeader::read(VIDEO, &mut shard);
        assert_eq!(header.stream_id, VIDEO);
        assert_eq!(header.receive_time, time);
        assert_eq!(header.packet_index, 7);
        assert_eq!(header.shards_count, 2);
        assert_eq!(header.shard_index, 1);
        assert_eq!(&shard[..], b"data");
    }
}

#[test]
fn a_stamped_video_shard_needs_all_its_fields() {
    let mut shard = stamped_video_shard(1_800_000_000_000_000);
    shard.truncate(25);
    assert!(!ShardHeader::fits(VIDEO, &shard));
}
