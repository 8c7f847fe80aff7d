//! The layout of a shard on the wire and in a stream's queue.
//!
//! A datagram is
//! `[2B stream id | 2B stream id | 4B packet index | 4B shards count | 4B shard index |
//! 1B ECN mark | 1B queue depth | 2B channel utility | data]`, all big endian. The receiving
//! socket consumes the first stream id to pick a queue; the copy tells the reader of the queue
//! what kind of stream it reads. The last three header fields are room for a router to report
//! in.
//!
//! In the queue of the video stream the time of arrival, in 8 bytes, stands in front of the
//! copy. The reader also takes a video shard whose time stands behind the copy.
use bytes::BytesMut;
use vstd::prelude::*;

use crate::buffer::{as_slice, get_i64, get_u16, get_u32, get_u8};
#[allow(unused_imports)]
use crate::buffer::{
    bytes_of, i64_bytes, i64_from, lemma_i64_reads_back, lemma_u16_reads_back,
    lemma_u32_reads_back, u16_bytes, u16_from, u32_bytes, u32_from,
};

verus! {

/// User input, sent upstream.
pub const TRACKING: u16 = 0;

/// Haptic feedback, sent downstream.
pub const HAPTICS: u16 = 1;

/// Audio samples.
pub const AUDIO: u16 = 2;

/// Encoded video, sent downstream.
pub const VIDEO: u16 = 3;

/// Client statistics, sent upstream.
pub const STATISTICS: u16 = 4;

/// How many bytes of a datagram come before the data.
pub const SHARD_HEADER_SIZE: usize = 20;

/// What a sender writes in place of the ECN mark.
pub const ECN_MARK_PLACEHOLDER: u8 = 0x88;

/// What a sender writes in place of the queue depth.
pub const QUEUE_DEPTH_PLACEHOLDER: u8 = 0x77;

/// What a sender writes in place of the channel utility.
pub const CHANNEL_UTILITY_PLACEHOLDER: u16 = 0x55;

/// What the front of a queued shard says.
pub struct ShardHeader {
    pub stream_id: u16,
    /// When the shard arrived, in microseconds; read for video shards, 0 for others.
    pub receive_time: i64,
    pub packet_index: u32,
    pub shards_count: usize,
    pub shard_index: usize,
    pub ecn_mark: u8,
    pub queue_depth: u8,
    pub channel_utility: u16,
}

/// The fields of a datagram behind its two stream ids and before its data.
pub open spec fn shard_fields(packet_index: u32, shards_count: u32, shard_index: u32) -> Seq<u8> {
    u32_bytes(packet_index) + u32_bytes(shards_count) + u32_bytes(shard_index)
        + seq![ECN_MARK_PLACEHOLDER, QUEUE_DEPTH_PLACEHOLDER]
        + u16_bytes(CHANNEL_UTILITY_PLACEHOLDER)
}

/// The datagram that carries `data` as one shard of a packet.
pub open spec fn datagram(
    stream_id: u16,
    packet_index: u32,
    shards_count: u32,
    shard_index: u32,
    data: Seq<u8>,
) -> Seq<u8> {
    u16_bytes(stream_id) + u16_bytes(stream_id) + shard_fields(
        packet_index,
        shards_count,
        shard_index,
    ) + data
}

/// A shard with its stream id in front: the stream id, the time of arrival if the stream is
/// video, the other fields, and the data.
pub open spec fn queued_shard(
    stream_id: u16,
    receive_time: i64,
    packet_index: u32,
    shards_count: u32,
    shard_index: u32,
    data: Seq<u8>,
) -> Seq<u8> {
    let time = if stream_id == VIDEO {
        i64_bytes(receive_time)
    } else {
        Seq::empty()
    };
    u16_bytes(stream_id) + time + shard_fields(packet_index, shards_count, shard_index) + data
}

/// Whether a shard in the queue of a stream has the time of its arrival in front, and its
/// stream id behind that: so the shards of the video stream are queued.
pub open spec fn is_stamped(stream_id: u16, shard: Seq<u8>) -> bool {
    stream_id == VIDEO && shard.len() >= 10 && u16_from(shard.skip(8)) == VIDEO
}

/// The stream id that a shard in the queue of a stream says.
pub open spec fn stream_id_of(stream_id: u16, shard: Seq<u8>) -> u16 {
    if is_stamped(stream_id, shard) {
        VIDEO
    } else {
        u16_from(shard)
    }
}

/// Where the packet index of a queued shard stands.
pub open spec fn fields_at(stream_id: u16, shard: Seq<u8>) -> int {
    if stream_id_of(stream_id, shard) == VIDEO {
        10
    } else {
        2
    }
}

/// Whether a queued shard is long enough to hold its header.
pub open spec fn holds_header(stream_id: u16, shard: Seq<u8>) -> bool {
    &&& shard.len() >= 2
    &&& shard.len() >= fields_at(stream_id, shard) + 16
}

/// The header of a shard in the queue of a stream.
pub open spec fn header_of(stream_id: u16, shard: Seq<u8>) -> ShardHeader {
    let fields = shard.skip(fields_at(stream_id, shard));
    ShardHeader {
        stream_id: stream_id_of(stream_id, shard),
        receive_time: if is_stamped(stream_id, shard) {
            i64_from(shard)
        } else if u16_from(shard) == VIDEO {
            i64_from(shard.skip(2))
        } else {
            0
        },
        packet_index: u32_from(fields),
        shards_count: u32_from(fields.skip(4)) as usize,
        shard_index: u32_from(fields.skip(8)) as usize,
        ecn_mark: fields[12],
        queue_depth: fields[13],
        channel_utility: u16_from(fields.skip(14)),
    }
}

/// The data of a shard in the queue of a stream.
pub open spec fn data_of(stream_id: u16, shard: Seq<u8>) -> Seq<u8> {
    shard.skip(fields_at(stream_id, shard) + 16)
}

/// The stream id in front of a datagram or a queued shard, which stays there.
pub(crate) fn peek_stream_id(shard: &BytesMut) -> (stream_id: u16)
    requires
        bytes_of(*shard).len() >= 2,
    ensures
        stream_id == u16_from(bytes_of(*shard)),
{
    let bytes = as_slice(shard);
    bytes[0] as u16 * 0x100 + bytes[1] as u16
}

/// Whether the time of arrival stands in front of a shard in the queue of a stream.
fn has_stamp(stream_id: u16, shard: &BytesMut) -> (stamped: bool)
    ensures
        stamped == is_stamped(stream_id, bytes_of(*shard)),
{
    if stream_id != VIDEO || shard.len() < 10 {
        return false;
    }
    let bytes = as_slice(shard);
    bytes[8] as u16 * 0x100 + bytes[9] as u16 == VIDEO
}

impl ShardHeader {
    /// Whether a shard in the queue of a stream is long enough to hold its header.
    pub fn fits(stream_id: u16, shard: &BytesMut) -> (fits: bool)
        ensures
            fits == holds_header(stream_id, bytes_of(*shard)),
    {
        if shard.len() < 2 {
            false
        } else if has_stamp(stream_id, shard) || peek_stream_id(shard) == VIDEO {
            shard.len() >= 26
        } else {
            shard.len() >= 18
        }
    }

    /// Takes the header off the front of a shard in the queue of a stream, and leaves its data.
    pub fn read(stream_id: u16, shard: &mut BytesMut) -> (header: ShardHeader)
        requires
            holds_header(stream_id, bytes_of(*old(shard))),
        ensures
            header == header_of(stream_id, bytes_of(*old(shard))),
            bytes_of(*final(shard)) == data_of(stream_id, bytes_of(*old(shard))),
    {
        let ghost start = bytes_of(*shard);
        let ghost at = fields_at(stream_id, start);
        let mut receive_time: i64 = 0;
        let stamped = has_stamp(stream_id, shard);
        if stamped {
            receive_time = get_i64(shard);
        }
        let shard_stream_id = get_u16(shard);
        if stamped {
            assert(start.skip(8).skip(2) =~= start.skip(10));
        } else if shard_stream_id == VIDEO {
            receive_time = get_i64(shard);
            assert(start.skip(2).skip(8) =~= start.skip(10));
        }
        let ghost fields = bytes_of(*shard);
        assert(fields == start.skip(at));
        let packet_index = get_u32(shard);
        let shards_count = get_u32(shard) as usize;
        assert(fields.skip(4).skip(4) =~= fields.skip(8));
        let shard_index = get_u32(shard) as usize;
        assert(fields.skip(8).skip(4) =~= fields.skip(12));
        let ecn_mark = get_u8(shard);
        assert(fields.skip(12).skip(1) =~= fields.skip(13));
        let queue_depth = get_u8(shard);
        assert(fields.skip(13).skip(1) =~= fields.skip(14));
        let channel_utility = get_u16(shard);
        assert(fields.skip(14).skip(2) =~= start.skip(at + 16));
        ShardHeader {
            stream_id: shard_stream_id,
            receive_time,
            packet_index,
            shards_count,
            shard_index,
            ecn_mark,
            queue_depth,
            channel_utility,
        }
    }
}

/// What a sender writes into the fields of a shard.
pub open spec fn written_header(
    stream_id: u16,
    receive_time: i64,
    packet_index: u32,
    shards_count: u32,
    shard_index: u32,
) -> ShardHeader {
    ShardHeader {
        stream_id,
        receive_time: if stream_id == VIDEO {
            receive_time
        } else {
            0
        },
        packet_index,
        shards_count: shards_count as usize,
        shard_index: shard_index as usize,
        ecn_mark: ECN_MARK_PLACEHOLDER,
        queue_depth: QUEUE_DEPTH_PLACEHOLDER,
        channel_utility: CHANNEL_UTILITY_PLACEHOLDER,
    }
}

/// The fields of a shard read back as they were written.
proof fn lemma_fields_read_back(
    packet_index: u32,
    shards_count: u32,
    shard_index: u32,
    data: Seq<u8>,
)
    ensures
        ({
            let fields = shard_fields(packet_index, shards_count, shard_index) + data;
            &&& fields.len() == 16 + data.len()
            &&& fields.skip(16) == data
            &&& u32_from(fields) == packet_index
            &&& u32_from(fields.skip(4)) == shards_count
            &&& u32_from(fields.skip(8)) == shard_index
            &&& fields[12] == ECN_MARK_PLACEHOLDER
            &&& fields[13] == QUEUE_DEPTH_PLACEHOLDER
            &&& u16_from(fields.skip(14)) == CHANNEL_UTILITY_PLACEHOLDER
        }),
{
    let fields = shard_fields(packet_index, shards_count, shard_index) + data;
    let router = seq![ECN_MARK_PLACEHOLDER, QUEUE_DEPTH_PLACEHOLDER] + u16_bytes(
        CHANNEL_UTILITY_PLACEHOLDER,
    );
    let from_index = u32_bytes(shard_index) + router + data;
    let from_count = u32_bytes(shards_count) + from_index;
    assert(fields =~= u32_bytes(packet_index) + from_count);
    lemma_u32_reads_back(packet_index, from_count);
    assert(fields.skip(4) =~= from_count);
    lemma_u32_reads_back(shards_count, from_index);
    assert(fields.skip(8) =~= from_index);
    assert(from_index =~= u32_bytes(shard_index) + (router + data));
    lemma_u32_reads_back(shard_index, router + data);
    assert(fields.skip(14) =~= u16_bytes(CHANNEL_UTILITY_PLACEHOLDER) + data);
    lemma_u16_reads_back(CHANNEL_UTILITY_PLACEHOLDER, data);
    assert(fields.skip(16) =~= data);
}

/// A video shard with the time of its arrival in front reads back every field that it was made
/// of, its data and that time, whatever the time is.
pub proof fn law_stamped_shard_reads_back(
    receive_time: i64,
    packet_index: u32,
    shards_count: u32,
    shard_index: u32,
    data: Seq<u8>,
)
    ensures
        ({
            let shard = i64_bytes(receive_time) + (u16_bytes(VIDEO) + shard_fields(
                packet_index,
                shards_count,
                shard_index,
            ) + data);
            &&& holds_header(VIDEO, shard)
            &&& data_of(VIDEO, shard) == data
            &&& header_of(VIDEO, shard) == written_header(
                VIDEO,
                receive_time,
                packet_index,
                shards_count,
                shard_index,
            )
        }),
{
    let fields = shard_fields(packet_index, shards_count, shard_index) + data;
    let rest = u16_bytes(VIDEO) + shard_fields(packet_index, shards_count, shard_index) + data;
    let shard = i64_bytes(receive_time) + rest;
    lemma_fields_read_back(packet_index, shards_count, shard_index, data);
    assert(rest =~= u16_bytes(VIDEO) + fields);
    lemma_u16_reads_back(VIDEO, fields);
    lemma_i64_reads_back(receive_time, rest);
    assert(shard.skip(8) =~= rest);
    assert(is_stamped(VIDEO, shard));
    assert(shard.skip(10) =~= fields);
    assert(shard.skip(26) =~= fields.skip(16));
}

/// A shard with its stream id in front reads back every field that it was made of, and its
/// data. Its time of arrival reads back too, unless its reader takes the end of the time for
/// the stream id.
pub proof fn law_queued_shard_reads_back(
    stream_id: u16,
    receive_time: i64,
    packet_index: u32,
    shards_count: u32,
    shard_index: u32,
    data: Seq<u8>,
)
    ensures
        ({
            let shard = queued_shard(
                stream_id,
                receive_time,
                packet_index,
                shards_count,
                shard_index,
                data,
            );
            let header = header_of(stream_id, shard);
            &&& holds_header(stream_id, shard)
            &&& data_of(stream_id, shard) == data
            &&& header == written_header(
                stream_id,
                header.receive_time,
                packet_index,
                shards_count,
                shard_index,
            )
            &&& stream_id != VIDEO || i64_bytes(receive_time).skip(6) != u16_bytes(VIDEO)
                ==> header == written_header(
                stream_id,
                receive_time,
                packet_index,
                shards_count,
                shard_index,
            )
        }),
{
    let shard = queued_shard(
        stream_id,
        receive_time,
        packet_index,
        shards_count,
        shard_index,
        data,
    );
    let time = if stream_id == VIDEO {
        i64_bytes(receive_time)
    } else {
        Seq::empty()
    };
    let fields = shard_fields(packet_index, shards_count, shard_index) + data;
    lemma_fields_read_back(packet_index, shards_count, shard_index, data);
    assert(shard =~= u16_bytes(stream_id) + (time + fields));
    lemma_u16_reads_back(stream_id, time + fields);
    assert(shard.skip(fields_at(stream_id, shard)) =~= fields);
    assert(shard.skip(fields_at(stream_id, shard) + 16) =~= fields.skip(16));
    if stream_id == VIDEO {
        assert(shard.skip(2) =~= i64_bytes(receive_time) + fields);
        lemma_i64_reads_back(receive_time, fields);
        if is_stamped(VIDEO, shard) {
            let end = i64_bytes(receive_time).skip(6);
            assert(shard.skip(8)[0] == end[0] && shard.skip(8)[1] == end[1]);
            assert(end =~= u16_bytes(VIDEO));
        }
    }
}

/// What stands where in a datagram, byte by byte.
pub proof fn law_datagram_layout(
    stream_id: u16,
    packet_index: u32,
    shards_count: u32,
    shard_index: u32,
    data: Seq<u8>,
)
    ensures
        ({
            let packet = datagram(stream_id, packet_index, shards_count, shard_index, data);
            &&& packet.len() == 20 + data.len()
            &&& u16_from(packet) == stream_id
            &&& u16_from(packet.skip(2)) == stream_id
            &&& u32_from(packet.skip(4)) == packet_index
            &&& u32_from(packet.skip(8)) == shards_count
            &&& u32_from(packet.skip(12)) == shard_index
            &&& packet[16] == 0x88
            &&& packet[17] == 0x77
            &&& packet[18] == 0
            &&& packet[19] == 0x55
            &&& packet.skip(20) == data
        }),
{
    let packet = datagram(stream_id, packet_index, shards_count, shard_index, data);
    let fields = shard_fields(packet_index, shards_count, shard_index) + data;
    lemma_fields_read_back(packet_index, shards_count, shard_index, data);
    assert(packet =~= u16_bytes(stream_id) + (u16_bytes(stream_id) + fields));
    lemma_u16_reads_back(stream_id, u16_bytes(stream_id) + fields);
    assert(packet.skip(2) =~= u16_bytes(stream_id) + fields);
    lemma_u16_reads_back(stream_id, fields);
    assert(packet.skip(4) =~= fields);
    assert(packet.skip(8) =~= fields.skip(4));
    assert(packet.skip(12) =~= fields.skip(8));
    assert(packet[16] == fields[12] && packet[17] == fields[13]);
    assert(fields[14] == fields.skip(14)[0] && fields[15] == fields.skip(14)[1]);
    assert(packet.skip(20) =~= data);
}

/// What is read at the front of a shard, whoever wrote it and whatever a router put into it,
/// and where its data begins. The stream id and, for video, the time of arrival come first, in
/// either order; 16 bytes of fields follow, and the rest is data.
pub proof fn law_shard_layout(stream_id: u16, shard: Seq<u8>)
    ensures
        ({
            let video = u16_from(shard) == 3 || (stream_id == 3 && shard.len() >= 10 && u16_from(
                shard.skip(8),
            ) == 3);
            let at = if video {
                10int
            } else {
                2
            };
            let header = header_of(stream_id, shard);
            &&& holds_header(stream_id, shard) <==> shard.len() >= 2 && shard.len() >= at + 16
            &&& holds_header(stream_id, shard) ==> {
                &&& header.stream_id == if video {
                    3
                } else {
                    u16_from(shard)
                }
                &&& header.packet_index == u32_from(shard.skip(at))
                &&& header.shards_count == u32_from(shard.skip(at + 4))
                &&& header.shard_index == u32_from(shard.skip(at + 8))
                &&& header.ecn_mark == shard[at + 12]
                &&& header.queue_depth == shard[at + 13]
                &&& header.channel_utility == u16_from(shard.skip(at + 14))
                &&& data_of(stream_id, shard) == shard.skip(at + 16)
                &&& !video ==> header.receive_time == 0
                &&& stream_id == 3 && u16_from(shard.skip(8)) == 3 ==> header.receive_time
                    == i64_from(shard)
                &&& u16_from(shard) == 3 && !(stream_id == 3 && u16_from(shard.skip(8)) == 3)
                    ==> header.receive_time == i64_from(shard.skip(2))
            }
        }),
{
    let at = fields_at(stream_id, shard);
    let fields = shard.skip(at);
    if shard.len() >= at + 16 {
        assert(fields.skip(4) =~= shard.skip(at + 4));
        assert(fields.skip(8) =~= shard.skip(at + 8));
        assert(fields.skip(14) =~= shard.skip(at + 14));
    }
}

} // verus!
