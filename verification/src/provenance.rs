//! Where the messages come from that a receiver delivers, whatever arrives at it.
//!
//! The functions here are proofs only.
use vstd::prelude::*;

use crate::laws::{call_received, received, Delivery};
use crate::receiver::{assembled, BufferState, ReceiverState, RecvAction, ShardTimes};
use crate::sender::{joined, lemma_joined_concat};
use crate::wire::{data_of, header_of, VIDEO};

verus! {

/// Whether a piece of data came in as the shard with index `shard_index` of the packet with
/// index `packet_index`.
pub open spec fn came_in(
    stream_id: u16,
    packet_index: u32,
    shard_index: usize,
    data: Seq<u8>,
    arrived: Seq<Seq<u8>>,
) -> bool {
    exists|k: int|
        0 <= k < arrived.len() && header_of(stream_id, #[trigger] arrived[k]).packet_index
            == packet_index && header_of(stream_id, arrived[k]).shard_index == shard_index
            && data_of(stream_id, arrived[k]) == data
}

/// Whether a shard that came in says that its packet, the one with index `packet_index`, has
/// this many shards.
pub open spec fn count_came_in(
    stream_id: u16,
    packet_index: u32,
    count: nat,
    arrived: Seq<Seq<u8>>,
) -> bool {
    exists|k: int|
        0 <= k < arrived.len() && header_of(stream_id, #[trigger] arrived[k]).packet_index
            == packet_index && header_of(stream_id, arrived[k]).shards_count == count
}

/// Whether the shard with index `shard_index` of the packet with index `packet_index` came in
/// at this time.
pub open spec fn time_came_in(
    stream_id: u16,
    packet_index: u32,
    shard_index: int,
    time: i64,
    arrived: Seq<Seq<u8>>,
) -> bool {
    exists|k: int|
        0 <= k < arrived.len() && header_of(stream_id, #[trigger] arrived[k]).packet_index
            == packet_index && header_of(stream_id, arrived[k]).shard_index == shard_index
            && header_of(stream_id, arrived[k]).receive_time == time
}

/// Whether all the shards of a packet that came in are video.
pub open spec fn all_video(stream_id: u16, packet_index: u32, arrived: Seq<Seq<u8>>) -> bool {
    forall|k: int|
        0 <= k < arrived.len() && header_of(stream_id, #[trigger] arrived[k]).packet_index
            == packet_index ==> header_of(stream_id, arrived[k]).stream_id == VIDEO
}

/// Whether all the shards of a packet that came in give it the same number of shards.
pub open spec fn counts_agree(stream_id: u16, packet_index: u32, arrived: Seq<Seq<u8>>) -> bool {
    forall|j: int, k: int|
        0 <= j < arrived.len() && 0 <= k < arrived.len() && header_of(
            stream_id,
            #[trigger] arrived[j],
        ).packet_index == packet_index && header_of(
            stream_id,
            #[trigger] arrived[k],
        ).packet_index == packet_index ==> header_of(stream_id, arrived[j]).shards_count
            == header_of(stream_id, arrived[k]).shards_count
}

/// Whether a table holds nothing but shards of one packet that arrived, and counts on as many
/// as one of them said.
pub open spec fn table_came_in(
    stream_id: u16,
    packet_index: u32,
    table: Map<usize, Seq<u8>>,
    count: Option<usize>,
    arrived: Seq<Seq<u8>>,
) -> bool {
    &&& forall|i: usize| #[trigger]
        table.contains_key(i) ==> count is Some && came_in(
            stream_id,
            packet_index,
            i,
            table[i],
            arrived,
        )
    &&& count matches Some(count) ==> count_came_in(
        stream_id,
        packet_index,
        count as nat,
        arrived,
    )
}

/// Whether `first` and `last` are the times at which the first and the last shard of a table of
/// video shards arrived, as far as the table holds them. Which shard is the last one is known
/// where the shards agree on it.
pub open spec fn table_timed(
    stream_id: u16,
    packet_index: u32,
    table: Map<usize, Seq<u8>>,
    count: Option<usize>,
    first: Option<i64>,
    last: Option<i64>,
    arrived: Seq<Seq<u8>>,
) -> bool {
    all_video(stream_id, packet_index, arrived) ==> {
        &&& table.contains_key(0) ==> {
            &&& first is Some
            &&& time_came_in(stream_id, packet_index, 0, first->0, arrived)
        }
        &&& counts_agree(stream_id, packet_index, arrived) && count is Some && count->0 > 0
            && table.contains_key((count->0 - 1) as usize) ==> {
            &&& last is Some
            &&& time_came_in(stream_id, packet_index, count->0 - 1, last->0, arrived)
        }
    }
}

/// Whether what the receiver holds of the packet behind the current one arrived, when it says.
pub open spec fn next_came_in(receiver: ReceiverState, arrived: Seq<Seq<u8>>) -> bool {
    &&& table_came_in(
        receiver.stream_id,
        receiver.next_packet_index,
        receiver.next_packet_shards,
        receiver.next_packet_shards_count,
        arrived,
    )
    &&& table_timed(
        receiver.stream_id,
        receiver.next_packet_index,
        receiver.next_packet_shards,
        receiver.next_packet_shards_count,
        receiver.next_packet_times.first,
        receiver.next_packet_times.last,
        arrived,
    )
}

/// Whether what the receiver holds of the current packet arrived.
pub open spec fn current_came_in(receiver: ReceiverState, arrived: Seq<Seq<u8>>) -> bool {
    receiver.current matches Some(current) ==> table_came_in(
        receiver.stream_id,
        current.packet_index,
        current.shards,
        current.shards_count,
        arrived,
    )
}

/// Whether the receiver holds nothing but shards that arrived: those of the packet that is
/// being put together, and those of one other packet.
pub open spec fn holds_two_packets(receiver: ReceiverState, arrived: Seq<Seq<u8>>) -> bool {
    next_came_in(receiver, arrived) && current_came_in(receiver, arrived)
}

/// Whether a buffer carries the times of the packet that is being put together into it.
pub open spec fn current_timed(
    receiver: ReceiverState,
    buffer: BufferState,
    arrived: Seq<Seq<u8>>,
) -> bool {
    receiver.current matches Some(current) ==> table_timed(
        receiver.stream_id,
        current.packet_index,
        current.shards,
        current.shards_count,
        Some(buffer.first_packet_receive_time),
        Some(buffer.last_packet_receive_time),
        arrived,
    )
}

/// What came in before an entry came in before it and the entry.
proof fn lemma_table_keeps(
    stream_id: u16,
    packet_index: u32,
    table: Map<usize, Seq<u8>>,
    count: Option<usize>,
    first: Option<i64>,
    last: Option<i64>,
    arrived: Seq<Seq<u8>>,
    entry: Seq<u8>,
)
    requires
        table_came_in(stream_id, packet_index, table, count, arrived),
    ensures
        table_came_in(stream_id, packet_index, table, count, arrived.push(entry)),
        table_timed(stream_id, packet_index, table, count, first, last, arrived) ==> table_timed(
            stream_id,
            packet_index,
            table,
            count,
            first,
            last,
            arrived.push(entry),
        ),
{
    let more = arrived.push(entry);
    assert forall|k: int| 0 <= k < arrived.len() implies #[trigger] arrived[k] == more[k] by {}
    assert forall|i: usize| #[trigger] table.contains_key(i) implies came_in(
        stream_id,
        packet_index,
        i,
        table[i],
        more,
    ) by {
        let data = table[i];
        let k = choose|k: int|
            0 <= k < arrived.len() && header_of(stream_id, #[trigger] arrived[k]).packet_index
                == packet_index && header_of(stream_id, arrived[k]).shard_index == i && data_of(
                stream_id,
                arrived[k],
            ) == data;
        assert(more[k] == arrived[k]);
    }
    if count is Some {
        let k = choose|k: int|
            0 <= k < arrived.len() && header_of(stream_id, #[trigger] arrived[k]).packet_index
                == packet_index && header_of(stream_id, arrived[k]).shards_count == count->0 as nat;
        assert(more[k] == arrived[k]);
    }
    assert forall|shard_index: int, time: i64| #[trigger]
        time_came_in(stream_id, packet_index, shard_index, time, arrived) implies time_came_in(
        stream_id,
        packet_index,
        shard_index,
        time,
        more,
    ) by {
        let k = choose|k: int|
            0 <= k < arrived.len() && header_of(stream_id, #[trigger] arrived[k]).packet_index
                == packet_index && header_of(stream_id, arrived[k]).shard_index == shard_index
                && header_of(stream_id, arrived[k]).receive_time == time;
        assert(more[k] == arrived[k]);
    }
    if all_video(stream_id, packet_index, more) {
        assert(all_video(stream_id, packet_index, arrived));
    }
    if counts_agree(stream_id, packet_index, more) {
        assert(counts_agree(stream_id, packet_index, arrived));
    }
}

/// A table that a shard of its packet is put into holds what arrived.
proof fn lemma_table_takes(
    stream_id: u16,
    packet_index: u32,
    table: Map<usize, Seq<u8>>,
    count: Option<usize>,
    times: ShardTimes,
    arrived: Seq<Seq<u8>>,
    entry: Seq<u8>,
)
    requires
        table_came_in(stream_id, packet_index, table, count, arrived),
        header_of(stream_id, entry).packet_index == packet_index,
    ensures
        ({
            let header = header_of(stream_id, entry);
            let grown = table.insert(header.shard_index, data_of(stream_id, entry));
            let noted = times.noting(header);
            let more = arrived.push(entry);
            &&& table_came_in(stream_id, packet_index, grown, Some(header.shards_count), more)
            &&& table_timed(
                stream_id,
                packet_index,
                table,
                count,
                times.first,
                times.last,
                arrived,
            ) ==> table_timed(
                stream_id,
                packet_index,
                grown,
                Some(header.shards_count),
                noted.first,
                noted.last,
                more,
            )
        }),
{
    let header = header_of(stream_id, entry);
    let more = arrived.push(entry);
    let grown = table.insert(header.shard_index, data_of(stream_id, entry));
    assert(more[arrived.len() as int] == entry);
    assert(came_in(stream_id, packet_index, header.shard_index, data_of(stream_id, entry), more));
    assert(count_came_in(stream_id, packet_index, header.shards_count as nat, more));
    assert(time_came_in(
        stream_id,
        packet_index,
        header.shard_index as int,
        header.receive_time,
        more,
    ));
    lemma_table_keeps(
        stream_id,
        packet_index,
        table,
        count,
        times.first,
        times.last,
        arrived,
        entry,
    );
    assert forall|i: usize| #[trigger] grown.contains_key(i) implies came_in(
        stream_id,
        packet_index,
        i,
        grown[i],
        more,
    ) by {
        if i != header.shard_index {
            assert(table.contains_key(i));
        }
    }
    if all_video(stream_id, packet_index, more) {
        assert(header.stream_id == VIDEO);
        if counts_agree(stream_id, packet_index, more) && header.shards_count > 0 {
            let end = (header.shards_count - 1) as usize;
            if grown.contains_key(end) && header.shard_index != end {
                assert(table.contains_key(end));
                let k = choose|k: int|
                    0 <= k < more.len() && header_of(stream_id, #[trigger] more[k]).packet_index
                        == packet_index && header_of(stream_id, more[k]).shards_count
                        == count->0 as nat;
                assert(more[arrived.len() as int] == entry);
                assert(count == Some(header.shards_count));
            }
        }
    }
}

/// The receiver stores at most the shards of two packets, whatever it does: it starts empty,
/// and turning to the next packet, taking a shard, delivering a packet and ending a call keep
/// it so.
pub proof fn law_receiver_holds_two_packets(
    receiver: ReceiverState,
    arrived: Seq<Seq<u8>>,
    entry: Seq<u8>,
)
    requires
        holds_two_packets(receiver, arrived),
    ensures
        holds_two_packets(ReceiverState::fresh(receiver.stream_id), arrived),
        holds_two_packets(receiver.turned(), arrived),
        receiver.current is Some ==> holds_two_packets(
            receiver.after_shard(entry),
            arrived.push(entry),
        ),
        holds_two_packets(receiver.after_assembly(), arrived),
{
    let buffer = BufferState::fresh(0, 0);
    if receiver.current is Some {
        lemma_step(receiver, buffer, arrived, entry);
    }
}

/// One shard changes nothing about where things come from.
proof fn lemma_step(
    receiver: ReceiverState,
    buffer: BufferState,
    arrived: Seq<Seq<u8>>,
    entry: Seq<u8>,
)
    requires
        receiver.current is Some,
        holds_two_packets(receiver, arrived),
    ensures
        holds_two_packets(receiver.after_shard(entry), arrived.push(entry)),
        current_timed(receiver, buffer, arrived) ==> current_timed(
            receiver.after_shard(entry),
            receiver.buffer_after_shard(buffer, entry),
            arrived.push(entry),
        ),
{
    let stream_id = receiver.stream_id;
    let current = receiver.current->0;
    let more = arrived.push(entry);
    let first = buffer.first_packet_receive_time;
    let last = buffer.last_packet_receive_time;
    lemma_table_keeps(
        stream_id,
        receiver.next_packet_index,
        receiver.next_packet_shards,
        receiver.next_packet_shards_count,
        receiver.next_packet_times.first,
        receiver.next_packet_times.last,
        arrived,
        entry,
    );
    lemma_table_keeps(
        stream_id,
        current.packet_index,
        current.shards,
        current.shards_count,
        Some(first),
        Some(last),
        arrived,
        entry,
    );
    if receiver.is_current(entry) {
        lemma_table_takes(
            stream_id,
            current.packet_index,
            current.shards,
            current.shards_count,
            ShardTimes { first: Some(first), last: Some(last) },
            arrived,
            entry,
        );
    } else if receiver.is_later(entry) {
        let header = receiver.header(entry);
        if header.packet_index == receiver.next_packet_index {
            lemma_table_takes(
                stream_id,
                header.packet_index,
                receiver.next_packet_shards,
                receiver.next_packet_shards_count,
                receiver.next_packet_times,
                arrived,
                entry,
            );
        } else {
            lemma_table_takes(
                stream_id,
                header.packet_index,
                Map::empty(),
                None,
                ShardTimes::none(),
                arrived,
                entry,
            );
        }
        assert(next_came_in(receiver.with_later_shard(entry), more));
    }
}

/// Shards of packets that are over change nothing.
pub proof fn law_old_shards_are_ignored(
    receiver: ReceiverState,
    buffer: BufferState,
    entry: Seq<u8>,
)
    requires
        receiver.current is Some,
        receiver.header(entry).packet_index != receiver.current->0.packet_index,
        receiver.header(entry).packet_index < receiver.next_packet_index,
        receiver.next_packet_index - receiver.header(entry).packet_index <= 0x8000_0000,
    ensures
        receiver.after_shard(entry) == receiver,
        receiver.buffer_after_shard(buffer, entry) == buffer,
{
}

/// Whether the index of the packet behind the current one never moves down while the given
/// entries come out of the queue during a call that is under way.
pub open spec fn climbs(receiver: ReceiverState, arrivals: Seq<Seq<u8>>) -> bool
    decreases arrivals.len(),
{
    receiver.action() == RecvAction::Assemble || arrivals.len() == 0 || {
        let stepped = receiver.after_shard(arrivals[0]);
        &&& receiver.next_packet_index <= stepped.next_packet_index
        &&& climbs(stepped, arrivals.drop_first())
    }
}

/// Whether the index of the packet behind the current one never moves down in a call of the
/// receiver.
pub open spec fn call_climbs(receiver: ReceiverState, arrivals: Seq<Seq<u8>>) -> bool {
    &&& receiver.next_packet_index <= receiver.turned().next_packet_index
    &&& climbs(receiver.turned(), arrivals)
}

/// The receiver once a call that is under way ended, with a packet or because the queue was
/// closed behind the given entries.
pub open spec fn ended(receiver: ReceiverState, arrivals: Seq<Seq<u8>>) -> ReceiverState
    decreases arrivals.len(),
{
    if receiver.action() == RecvAction::Assemble || arrivals.len() == 0 {
        ReceiverState { current: None, ..receiver }
    } else {
        ended(receiver.after_shard(arrivals[0]), arrivals.drop_first())
    }
}

/// A call of the receiver: what it is handed to fill, and what comes out of the queue for it.
pub struct Call {
    pub buffer: BufferState,
    pub arrivals: Seq<Seq<u8>>,
}

/// The receiver once all the calls ended.
pub open spec fn after_calls(receiver: ReceiverState, calls: Seq<Call>) -> ReceiverState
    decreases calls.len(),
{
    if calls.len() == 0 {
        receiver
    } else {
        ended(after_calls(receiver, calls.drop_last()).turned(), calls.last().arrivals)
    }
}

/// What the call with index `n` delivers.
pub open spec fn delivered_by(receiver: ReceiverState, calls: Seq<Call>, n: int) -> Option<
    Delivery,
> {
    call_received(after_calls(receiver, calls.take(n)), calls[n].buffer, calls[n].arrivals)
}

/// Whether the index of the packet behind the current one never moves down in any of the calls.
pub open spec fn all_climb(receiver: ReceiverState, calls: Seq<Call>) -> bool {
    forall|n: int|
        0 <= n < calls.len() ==> call_climbs(
            after_calls(receiver, calls.take(n)),
            (#[trigger] calls[n]).arrivals,
        )
}

/// Packets come out in the order of their indices, over any number of calls and whatever
/// arrives, as long as the index that the receiver goes by never moves down, which only an
/// overflow makes it do.
pub proof fn law_packets_come_in_order(
    receiver: ReceiverState,
    calls: Seq<Call>,
    m: int,
    n: int,
)
    requires
        all_climb(receiver, calls),
        0 <= m < n < calls.len(),
        delivered_by(receiver, calls, m) is Some,
        delivered_by(receiver, calls, n) is Some,
    ensures
        delivered_by(receiver, calls, m)->0.packet_index < delivered_by(
            receiver,
            calls,
            n,
        )->0.packet_index,
{
    lemma_calls_climb(receiver, calls, m, m + 1);
    lemma_calls_climb(receiver, calls, m + 1, n);
    let first = after_calls(receiver, calls.take(m));
    let second = after_calls(receiver, calls.take(n));
    assert(call_climbs(first, calls[m].arrivals));
    assert(call_climbs(second, calls[n].arrivals));
    lemma_climbs(first.turned(), first.buffer_at_start(calls[m].buffer), calls[m].arrivals);
    lemma_climbs(second.turned(), second.buffer_at_start(calls[n].buffer), calls[n].arrivals);
    assert(calls.take(m + 1).drop_last() =~= calls.take(m));
    assert(calls.take(m + 1).last() == calls[m]);
}

/// Calls in which the index never moves down leave it where it was or further up.
proof fn lemma_calls_climb(receiver: ReceiverState, calls: Seq<Call>, m: int, n: int)
    requires
        all_climb(receiver, calls),
        0 <= m <= n <= calls.len(),
    ensures
        after_calls(receiver, calls.take(m)).next_packet_index <= after_calls(
            receiver,
            calls.take(n),
        ).next_packet_index,
    decreases n,
{
    if m < n {
        lemma_calls_climb(receiver, calls, m, n - 1);
        let before = after_calls(receiver, calls.take(n - 1));
        assert(calls.take(n).drop_last() =~= calls.take(n - 1));
        assert(calls.take(n).last() == calls[n - 1]);
        assert(call_climbs(before, calls[n - 1].arrivals));
        lemma_climbs(
            before.turned(),
            before.buffer_at_start(calls[n - 1].buffer),
            calls[n - 1].arrivals,
        );
    }
}

/// A call in which the index never moves down delivers its packet or one behind it, and leaves
/// the receiver behind the packet that it delivers.
proof fn lemma_climbs(receiver: ReceiverState, buffer: BufferState, arrivals: Seq<Seq<u8>>)
    requires
        receiver.current is Some,
        receiver.current->0.packet_index < receiver.next_packet_index,
        climbs(receiver, arrivals),
    ensures
        receiver.next_packet_index <= ended(receiver, arrivals).next_packet_index,
        received(receiver, buffer, arrivals) matches Some(delivery) ==> {
            &&& delivery.receiver == ended(receiver, arrivals)
            &&& receiver.current->0.packet_index <= delivery.packet_index
            &&& delivery.packet_index < delivery.receiver.next_packet_index
        },
    decreases arrivals.len(),
{
    if receiver.action() != RecvAction::Assemble && arrivals.len() > 0 {
        lemma_climbs(
            receiver.after_shard(arrivals[0]),
            receiver.buffer_after_shard(buffer, arrivals[0]),
            arrivals.drop_first(),
        );
    }
}

/// A packet that is delivered is the one that the receiver waited for or one behind it, and the
/// receiver waits for a packet behind it from then on, as long as the packet indices are within
/// half of their range of each other and neither packet has the last index of all.
pub proof fn law_calls_move_forward(
    receiver: ReceiverState,
    buffer: BufferState,
    arrivals: Seq<Seq<u8>>,
    lowest: u32,
)
    requires
        lowest <= 0x8000_0000,
        lowest <= receiver.next_packet_index < lowest + 0x8000_0000,
        receiver.next_packet_index < u32::MAX,
        forall|k: int|
            0 <= k < arrivals.len() ==> lowest <= receiver.header(
                #[trigger] arrivals[k],
            ).packet_index < lowest + 0x8000_0000,
    ensures
        call_received(receiver, buffer, arrivals) matches Some(delivery) ==> {
            &&& receiver.next_packet_index <= delivery.packet_index
            &&& delivery.packet_index < u32::MAX ==> delivery.packet_index
                < delivery.receiver.next_packet_index
        },
{
    lemma_moves_forward(receiver.turned(), receiver.buffer_at_start(buffer), arrivals, lowest);
}

proof fn lemma_moves_forward(
    receiver: ReceiverState,
    buffer: BufferState,
    arrivals: Seq<Seq<u8>>,
    lowest: u32,
)
    requires
        lowest <= 0x8000_0000,
        receiver.current is Some,
        receiver.current->0.packet_index < u32::MAX ==> receiver.current->0.packet_index
            < receiver.next_packet_index <= lowest + 0x8000_0000,
        receiver.current->0.packet_index == u32::MAX ==> receiver.action()
            == RecvAction::Assemble,
        forall|k: int|
            0 <= k < arrivals.len() ==> lowest <= receiver.header(
                #[trigger] arrivals[k],
            ).packet_index < lowest + 0x8000_0000,
    ensures
        received(receiver, buffer, arrivals) matches Some(delivery) ==> {
            &&& receiver.current->0.packet_index <= delivery.packet_index
            &&& delivery.packet_index < u32::MAX ==> delivery.packet_index
                < delivery.receiver.next_packet_index
        },
    decreases arrivals.len(),
{
    if receiver.action() != RecvAction::Assemble && arrivals.len() > 0 {
        let entry = arrivals[0];
        let rest = arrivals.drop_first();
        let stepped = receiver.after_shard(entry);
        assert(lowest <= receiver.header(entry).packet_index < lowest + 0x8000_0000);
        assert forall|k: int| 0 <= k < rest.len() implies lowest <= stepped.header(
            #[trigger] rest[k],
        ).packet_index < lowest + 0x8000_0000 by {
            assert(rest[k] == arrivals[k + 1]);
        }
        lemma_moves_forward(stepped, receiver.buffer_after_shard(buffer, entry), rest, lowest);
    }
}

/// Whether the pieces came in as the shards of one packet, from the first on, and are as many
/// as one of the packet's shards said.
pub open spec fn shards_of_one_packet(
    stream_id: u16,
    packet_index: u32,
    pieces: Seq<Seq<u8>>,
    arrived: Seq<Seq<u8>>,
) -> bool {
    &&& count_came_in(stream_id, packet_index, pieces.len(), arrived)
    &&& forall|i: int|
        0 <= i < pieces.len() ==> came_in(
            stream_id,
            packet_index,
            i as usize,
            #[trigger] pieces[i],
            arrived,
        )
}

/// Whether the pieces account for a message that was delivered: they came in as all the shards
/// of its packet, in order, and make up the message. The times that come with a video message
/// are those of its first and its last shard.
pub open spec fn accounts_for(
    stream_id: u16,
    pieces: Seq<Seq<u8>>,
    delivery: Delivery,
    arrived: Seq<Seq<u8>>,
) -> bool {
    let packet_index = delivery.packet_index;
    &&& shards_of_one_packet(stream_id, packet_index, pieces, arrived)
    &&& delivery.buffer.message == joined(pieces)
    &&& all_video(stream_id, packet_index, arrived) && pieces.len() > 0 ==> {
        &&& time_came_in(
            stream_id,
            packet_index,
            0,
            delivery.buffer.first_packet_receive_time,
            arrived,
        )
        &&& counts_agree(stream_id, packet_index, arrived) ==> time_came_in(
            stream_id,
            packet_index,
            pieces.len() - 1,
            delivery.buffer.last_packet_receive_time,
            arrived,
        )
    }
}

/// The pieces of a table, put together.
pub proof fn lemma_whole_table(table: Map<usize, Seq<u8>>, count: usize) -> (pieces: Seq<Seq<u8>>)
    ensures
        pieces.len() == count,
        forall|i: int| 0 <= i < count ==> #[trigger] pieces[i] == table[i as usize],
        assembled(table, count as nat) == joined(pieces),
    decreases count,
{
    if count == 0 {
        Seq::empty()
    } else {
        let last = (count - 1) as usize;
        let before = lemma_whole_table(table, last);
        let more = before.push(table[last]);
        assert(more =~= before + seq![table[last]]);
        lemma_joined_concat(before, seq![table[last]]);
        reveal_with_fuel(joined, 2);
        assert(seq![table[last]].drop_first() =~= Seq::empty());
        assert(joined(seq![table[last]]) =~= table[last]);
        more
    }
}

/// Only whole packets come out. A message that is delivered is made of all the shards of one
/// packet, in order, each as it arrived, and of nothing else, whatever arrived in between. A
/// video message comes with the times at which its own first and last shard arrived.
pub proof fn law_delivery_is_whole(
    receiver: ReceiverState,
    buffer: BufferState,
    before: Seq<Seq<u8>>,
    arrivals: Seq<Seq<u8>>,
)
    requires
        next_came_in(receiver, before),
    ensures
        call_received(receiver, buffer, arrivals) matches Some(delivery) ==> {
            &&& next_came_in(delivery.receiver, before + arrivals)
            &&& exists|pieces: Seq<Seq<u8>>| #[trigger]
                accounts_for(receiver.stream_id, pieces, delivery, before + arrivals)
        },
{
    let turned = receiver.turned();
    let started = receiver.buffer_at_start(buffer);
    assert(current_timed(turned, started, before));
    lemma_delivery_is_whole(turned, started, before, arrivals);
}

proof fn lemma_delivery_is_whole(
    receiver: ReceiverState,
    buffer: BufferState,
    before: Seq<Seq<u8>>,
    arrivals: Seq<Seq<u8>>,
)
    requires
        receiver.current is Some,
        holds_two_packets(receiver, before),
        current_timed(receiver, buffer, before),
    ensures
        received(receiver, buffer, arrivals) matches Some(delivery) ==> {
            &&& next_came_in(delivery.receiver, before + arrivals)
            &&& exists|pieces: Seq<Seq<u8>>| #[trigger]
                accounts_for(receiver.stream_id, pieces, delivery, before + arrivals)
        },
    decreases arrivals.len(),
{
    let stream_id = receiver.stream_id;
    let all = before + arrivals;
    if arrivals.len() == 0 {
        assert(all =~= before);
        if receiver.action() == RecvAction::Assemble && receiver.current->0.fits() {
            lemma_assembly_accounts(receiver, buffer, before);
        }
    } else {
        let entry = arrivals[0];
        let rest = arrivals.drop_first();
        let more = before.push(entry);
        assert(more + rest =~= all);
        if receiver.action() == RecvAction::Assemble {
            let current = receiver.current->0;
            lemma_table_keeps(
                stream_id,
                receiver.next_packet_index,
                receiver.next_packet_shards,
                receiver.next_packet_shards_count,
                receiver.next_packet_times.first,
                receiver.next_packet_times.last,
                before,
                entry,
            );
            lemma_table_keeps(
                stream_id,
                current.packet_index,
                current.shards,
                current.shards_count,
                Some(buffer.first_packet_receive_time),
                Some(buffer.last_packet_receive_time),
                before,
                entry,
            );
            lemma_delivery_is_whole(receiver, buffer, more, rest);
        } else {
            lemma_step(receiver, buffer, before, entry);
            lemma_delivery_is_whole(
                receiver.after_shard(entry),
                receiver.buffer_after_shard(buffer, entry),
                more,
                rest,
            );
        }
    }
}

proof fn lemma_assembly_accounts(
    receiver: ReceiverState,
    buffer: BufferState,
    arrived: Seq<Seq<u8>>,
)
    requires
        receiver.current is Some,
        receiver.current->0.is_complete(),
        current_came_in(receiver, arrived),
        current_timed(receiver, buffer, arrived),
    ensures
        ({
            let delivery = Delivery {
                receiver: receiver.after_assembly(),
                buffer: receiver.current->0.delivered(buffer),
                packet_index: receiver.current->0.packet_index,
            };
            exists|pieces: Seq<Seq<u8>>| #[trigger]
                accounts_for(receiver.stream_id, pieces, delivery, arrived)
        }),
{
    let current = receiver.current->0;
    let count = current.shards_count->0;
    let delivery = Delivery {
        receiver: receiver.after_assembly(),
        buffer: current.delivered(buffer),
        packet_index: current.packet_index,
    };
    let pieces = lemma_whole_table(current.shards, count);
    assert forall|i: int| 0 <= i < pieces.len() implies came_in(
        receiver.stream_id,
        current.packet_index,
        i as usize,
        #[trigger] pieces[i],
        arrived,
    ) by {
        assert(current.shards.contains_key(i as usize));
    }
    if count > 0 {
        assert(current.shards.contains_key(0));
        assert(current.shards.contains_key((count - 1) as usize));
    }
    assert(accounts_for(receiver.stream_id, pieces, delivery, arrived));
}

} // verus!
