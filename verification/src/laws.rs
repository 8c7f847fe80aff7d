//! What the two ends of a stream promise together.
//!
//! The functions here are proofs only. They speak of the states that the contracts of
//! [`crate::sender::StreamSender`], [`crate::receiver::StreamReceiver`] and
//! [`crate::socket::StreamSocket`] speak of.
use vstd::prelude::*;

use crate::buffer::{lemma_u16_reads_back, u16_bytes, u16_from};
use crate::clock::is_clock_reading;
use crate::provenance::{
    accounts_for, all_video, counts_agree, law_delivery_is_whole, next_came_in, time_came_in,
};
use crate::receiver::{
    assembled, lemma_indices_above, lemma_indices_below, reaches, BufferState, LossRate,
    ReceiverState, RecvAction, ShardTimes,
};
use crate::sender::{
    chunks, joined, law_chunk_sizes, law_message_shards_join, lemma_joined_concat, message_shards,
    SenderState,
};
use crate::socket::queue_entry;
use crate::wire::{
    data_of, datagram, header_of, holds_header, law_queued_shard_reads_back,
    law_stamped_shard_reads_back, shard_fields, written_header, SHARD_HEADER_SIZE, VIDEO,
};

verus! {

/// A packet of a stream, as the data of its shards.
pub struct Packet {
    pub stream_id: u16,
    pub packet_index: u32,
    pub shards: Seq<Seq<u8>>,
}

impl Packet {
    /// Whether there is something to send, and the number of shards can be written down.
    pub open spec fn is_valid(self) -> bool {
        0 < self.shards.len() <= u32::MAX
    }

    /// Whether a queue entry reads as the shard with index `i`, whenever it arrived.
    pub open spec fn is_shard(self, entry: Seq<u8>, i: int) -> bool {
        let header = header_of(self.stream_id, entry);
        &&& holds_header(self.stream_id, entry)
        &&& header.stream_id == self.stream_id
        &&& header.packet_index == self.packet_index
        &&& header.shards_count == self.shards.len()
        &&& header.shard_index == i
        &&& data_of(self.stream_id, entry) == self.shards[i]
    }

    /// Whether a queue entry is one of the shards.
    pub open spec fn has_shard(self, entry: Seq<u8>) -> bool {
        exists|i: int| 0 <= i < self.shards.len() && #[trigger] self.is_shard(entry, i)
    }

    /// Whether the shard with index `i` is among the queue entries.
    pub open spec fn arrives(self, i: int, arrivals: Seq<Seq<u8>>) -> bool {
        exists|k: int| 0 <= k < arrivals.len() && self.is_shard(#[trigger] arrivals[k], i)
    }

    /// Whether a table holds shards of this packet only, each in its place.
    pub open spec fn fills(self, table: Map<usize, Seq<u8>>) -> bool {
        forall|i: usize| #[trigger]
            table.contains_key(i) ==> i < self.shards.len() && table[i] == self.shards[i as int]
    }

    /// Whether a table holds shards of this packet only, and knows how many there are as soon as
    /// it holds one.
    pub open spec fn fills_counted(self, table: Map<usize, Seq<u8>>, count: Option<usize>) -> bool {
        &&& self.fills(table)
        &&& count == if table.dom() =~= Set::empty() {
            None
        } else {
            Some(self.shards.len() as usize)
        }
    }
}

/// Whether a queue entry is a shard of a packet that is over: neither the current one nor a
/// later one.
pub open spec fn is_old(receiver: ReceiverState, entry: Seq<u8>) -> bool {
    !receiver.is_current(entry) && !receiver.is_later(entry)
}

/// What a call of the receiver that delivers a packet leaves behind.
pub struct Delivery {
    pub receiver: ReceiverState,
    pub buffer: BufferState,
    /// The index of the packet that was delivered.
    pub packet_index: u32,
}

/// What comes of a call of the receiver that is under way while the given entries come out of
/// the queue. `None` while no packet is complete, or if the complete one does not fit.
pub open spec fn received(
    receiver: ReceiverState,
    buffer: BufferState,
    arrivals: Seq<Seq<u8>>,
) -> Option<Delivery>
    decreases arrivals.len(),
{
    if receiver.action() == RecvAction::Assemble {
        if receiver.current->0.fits() {
            Some(
                Delivery {
                    receiver: receiver.after_assembly(),
                    buffer: receiver.current->0.delivered(buffer),
                    packet_index: receiver.current->0.packet_index,
                },
            )
        } else {
            None
        }
    } else if arrivals.len() == 0 {
        None
    } else {
        received(
            receiver.after_shard(arrivals[0]),
            receiver.buffer_after_shard(buffer, arrivals[0]),
            arrivals.drop_first(),
        )
    }
}

/// How many of the entries a call of the receiver that is under way takes out of the queue: it
/// stops as soon as a packet is complete.
pub open spec fn taken(receiver: ReceiverState, arrivals: Seq<Seq<u8>>) -> nat
    decreases arrivals.len(),
{
    if receiver.action() == RecvAction::Assemble || arrivals.len() == 0 {
        0
    } else {
        1 + taken(receiver.after_shard(arrivals[0]), arrivals.drop_first())
    }
}

/// What comes of a call of the receiver from its start.
pub open spec fn call_received(
    receiver: ReceiverState,
    buffer: BufferState,
    arrivals: Seq<Seq<u8>>,
) -> Option<Delivery> {
    received(receiver.turned(), receiver.buffer_at_start(buffer), arrivals)
}

/// A table that a packet fills and that holds every shard of the packet holds so many.
proof fn lemma_table_is_whole(packet: Packet, table: Map<usize, Seq<u8>>)
    requires
        packet.is_valid(),
        packet.fills(table),
        forall|i: usize| i < packet.shards.len() ==> #[trigger] table.contains_key(i),
    ensures
        !(table.dom() =~= Set::empty()),
        table.len() == packet.shards.len(),
{
    assert(table.contains_key(0));
    assert forall|i: usize| #[trigger] table.dom().contains(i) implies i < packet.shards.len() by {
        assert(table.contains_key(i));
    }
    lemma_indices_below(table.dom(), packet.shards.len());
    assert forall|i: usize| i < packet.shards.len() as usize implies #[trigger] table.dom().contains(
        i,
    ) by {
        assert(table.contains_key(i));
    }
    lemma_indices_above(table.dom(), packet.shards.len() as usize);
}

/// The shards of a packet, put together from a table that lacks none of the first `count`.
proof fn lemma_assembled_packet(packet: Packet, table: Map<usize, Seq<u8>>, count: nat)
    requires
        packet.fills(table),
        packet.is_valid(),
        count <= packet.shards.len(),
        forall|i: usize| i < packet.shards.len() ==> #[trigger] table.contains_key(i),
    ensures
        assembled(table, count) == joined(packet.shards.take(count as int)),
    decreases count,
{
    if count == 0 {
        assert(packet.shards.take(0) =~= Seq::empty());
    } else {
        let last = (count - 1) as usize;
        lemma_assembled_packet(packet, table, (count - 1) as nat);
        assert(table.contains_key(last));
        let before = packet.shards.take(count - 1);
        let shard = packet.shards[count - 1];
        assert(packet.shards.take(count as int) =~= before + seq![shard]);
        lemma_joined_concat(before, seq![shard]);
        reveal_with_fuel(joined, 2);
        assert(seq![shard].drop_first() =~= Seq::empty());
        assert(joined(seq![shard]) =~= shard);
    }
}

/// A current packet whose table is full is delivered whole.
proof fn lemma_full_packet_is_delivered(
    packet: Packet,
    receiver: ReceiverState,
    buffer: BufferState,
    arrivals: Seq<Seq<u8>>,
)
    requires
        packet.is_valid(),
        joined(packet.shards).len() <= isize::MAX,
        receiver.current is Some,
        receiver.current->0.packet_index == packet.packet_index,
        packet.fills(receiver.current->0.shards),
        receiver.current->0.shards_count == Some(packet.shards.len() as usize),
        forall|i: usize|
            i < packet.shards.len() ==> #[trigger] receiver.current->0.shards.contains_key(i),
    ensures
        received(receiver, buffer, arrivals) == Some(
            Delivery {
                receiver: ReceiverState { current: None, ..receiver },
                buffer: BufferState {
                    message: joined(packet.shards),
                    shard_loss_rate: LossRate {
                        lost: buffer.packet_loss_count,
                        shards: packet.shards.len() as usize,
                    },
                    ..buffer
                },
                packet_index: packet.packet_index,
            },
        ),
{
    let assembly = receiver.current->0;
    lemma_assembled_packet(packet, assembly.shards, packet.shards.len());
    assert(packet.shards.take(packet.shards.len() as int) =~= packet.shards);
}

/// The entries behind the first are among the entries, and all but the first of them are.
proof fn lemma_arrivals_behind_first(packet: Packet, i: int, arrivals: Seq<Seq<u8>>)
    requires
        arrivals.len() > 0,
    ensures
        packet.arrives(i, arrivals) ==> packet.is_shard(arrivals[0], i) || packet.arrives(
            i,
            arrivals.drop_first(),
        ),
        packet.arrives(i, arrivals.drop_first()) ==> packet.arrives(i, arrivals),
{
    let rest = arrivals.drop_first();
    if packet.arrives(i, arrivals) {
        let k = choose|k: int| 0 <= k < arrivals.len() && packet.is_shard(#[trigger] arrivals[k], i);
        if k > 0 {
            assert(rest[k - 1] == arrivals[k]);
        }
    }
    if packet.arrives(i, rest) {
        let k = choose|k: int| 0 <= k < rest.len() && packet.is_shard(#[trigger] rest[k], i);
        assert(arrivals[k + 1] == rest[k]);
    }
}

/// Whether the entries that come out of the queue during a call are all shards of the current
/// packet, shards of the packet behind it, or shards of packets that are over.
pub open spec fn expected(
    receiver: ReceiverState,
    packet: Packet,
    next: Packet,
    arrivals: Seq<Seq<u8>>,
) -> bool {
    forall|k: int|
        0 <= k < arrivals.len() ==> packet.has_shard(#[trigger] arrivals[k]) || next.has_shard(
            arrivals[k],
        ) || is_old(receiver, arrivals[k])
}

/// Whether a receiver that has turned to `packet` holds nothing but shards of `packet` and of
/// `next`, not all of the latter.
pub open spec fn works_on(
    receiver: ReceiverState,
    packet: Packet,
    next: Packet,
    absent: usize,
) -> bool {
    &&& receiver.stream_id == packet.stream_id
    &&& receiver.stream_id == next.stream_id
    &&& receiver.current is Some
    &&& receiver.current->0.packet_index == packet.packet_index
    &&& packet.fills_counted(receiver.current->0.shards, receiver.current->0.shards_count)
    &&& receiver.next_packet_index == next.packet_index
    &&& next.fills_counted(receiver.next_packet_shards, receiver.next_packet_shards_count)
    &&& absent < next.shards.len()
    &&& !receiver.next_packet_shards.contains_key(absent)
}

/// What a buffer holds once a packet was delivered into it without any loss, but for the times
/// of arrival.
pub open spec fn holding(buffer: BufferState, packet: Packet) -> BufferState {
    BufferState {
        message: joined(packet.shards),
        had_packet_loss: false,
        shard_loss_rate: LossRate {
            lost: buffer.packet_loss_count,
            shards: packet.shards.len() as usize,
        },
        ..buffer
    }
}

/// Whether two buffers agree on everything but the times of arrival.
pub open spec fn same_but_times(one: BufferState, other: BufferState) -> bool {
    one == BufferState {
        first_packet_receive_time: one.first_packet_receive_time,
        last_packet_receive_time: one.last_packet_receive_time,
        ..other
    }
}

proof fn lemma_packet_is_delivered(
    receiver: ReceiverState,
    buffer: BufferState,
    packet: Packet,
    next: Packet,
    absent: usize,
    arrivals: Seq<Seq<u8>>,
)
    requires
        packet.is_valid(),
        next.is_valid(),
        next.packet_index == packet.packet_index.wrapping_add(1),
        joined(packet.shards).len() <= isize::MAX,
        works_on(receiver, packet, next, absent),
        !buffer.had_packet_loss,
        expected(receiver, packet, next, arrivals),
        !next.arrives(absent as int, arrivals),
        forall|i: usize|
            i < packet.shards.len() ==> #[trigger] receiver.current->0.shards.contains_key(i)
                || packet.arrives(i as int, arrivals),
    ensures
        received(receiver, buffer, arrivals) matches Some(delivery) && {
            &&& delivery.packet_index == packet.packet_index
            &&& same_but_times(delivery.buffer, holding(buffer, packet))
            &&& delivery.receiver.stream_id == packet.stream_id
            &&& delivery.receiver.current is None
            &&& delivery.receiver.next_packet_index == next.packet_index
            &&& next.fills_counted(
                delivery.receiver.next_packet_shards,
                delivery.receiver.next_packet_shards_count,
            )
            &&& !delivery.receiver.next_packet_shards.contains_key(absent)
            &&& forall|j: usize|
                j < next.shards.len() ==> (
                #[trigger] delivery.receiver.next_packet_shards.contains_key(j) <==> (
                receiver.next_packet_shards.contains_key(j) || next.arrives(
                    j as int,
                    arrivals.take(taken(receiver, arrivals) as int),
                )))
            &&& packet.stream_id != VIDEO ==> {
                &&& delivery.buffer == holding(buffer, packet)
                &&& delivery.receiver.next_packet_times == receiver.next_packet_times
            }
        },
    decreases arrivals.len(),
{
    let table = receiver.current->0.shards;
    if forall|i: usize| i < packet.shards.len() ==> #[trigger] table.contains_key(i) {
        lemma_table_is_whole(packet, table);
        lemma_full_packet_is_delivered(packet, receiver, buffer, arrivals);
    } else {
        let lacking = choose|i: usize| i < packet.shards.len() && !#[trigger] table.contains_key(i);
        assert(table.contains_key(lacking) || packet.arrives(lacking as int, arrivals));
        assert(arrivals.len() > 0);
        assert(receiver.action() == RecvAction::AwaitShard);
        let entry = arrivals[0];
        let rest = arrivals.drop_first();
        let stepped = receiver.after_shard(entry);
        let noted = receiver.buffer_after_shard(buffer, entry);
        assert forall|k: int| 0 <= k < rest.len() implies packet.has_shard(#[trigger] rest[k])
            || next.has_shard(rest[k]) || is_old(receiver, rest[k]) by {
            assert(rest[k] == arrivals[k + 1]);
        }
        lemma_arrivals_behind_first(next, absent as int, arrivals);
        if packet.has_shard(entry) {
            let i = choose|i: int|
                0 <= i < packet.shards.len() && #[trigger] packet.is_shard(entry, i);
            assert(receiver.is_current(entry));
            let grown = table.insert(i as usize, packet.shards[i]);
            assert(stepped.current->0.shards == grown);
            assert(grown.contains_key(i as usize));
            assert(packet.fills(grown));
        } else if next.has_shard(entry) {
            let j = choose|j: int| 0 <= j < next.shards.len() && #[trigger] next.is_shard(entry, j);
            assert(j != absent) by {
                assert(arrivals[0] == entry);
            }
            let grown = receiver.next_packet_shards.insert(j as usize, next.shards[j]);
            assert(next.fills(grown));
            assert(grown.contains_key(j as usize));
            assert(!grown.contains_key(absent));
            assert(receiver.with_later_shard(entry).next_packet_shards == grown);
            assert(!receiver.skips_on(entry));
        } else {
            assert(is_old(receiver, entry));
            assert(stepped == receiver);
        }
        assert forall|i: usize| i < packet.shards.len() implies
            #[trigger] stepped.current->0.shards.contains_key(i) || packet.arrives(
            i as int,
            rest,
        ) by {
            lemma_arrivals_behind_first(packet, i as int, arrivals);
            assert(table.contains_key(i) || packet.arrives(i as int, arrivals));
        }
        assert(expected(stepped, packet, next, rest));
        lemma_packet_is_delivered(stepped, noted, packet, next, absent, rest);
        lemma_early_shards_are_held(receiver, packet, next, arrivals);
    }
}

/// What a shard adds to the table of the packet behind the current one.
proof fn lemma_early_shards_are_held(
    receiver: ReceiverState,
    packet: Packet,
    next: Packet,
    arrivals: Seq<Seq<u8>>,
)
    requires
        arrivals.len() > 0,
        next.is_valid(),
        receiver.stream_id == packet.stream_id,
        receiver.stream_id == next.stream_id,
        receiver.current is Some,
        receiver.current->0.packet_index == packet.packet_index,
        next.packet_index == packet.packet_index.wrapping_add(1),
        receiver.next_packet_index == next.packet_index,
        receiver.action() != RecvAction::Assemble,
        packet.has_shard(arrivals[0]) || next.has_shard(arrivals[0]) || is_old(
            receiver,
            arrivals[0],
        ),
        !receiver.skips_on(arrivals[0]),
    ensures
        forall|j: usize|
            j < next.shards.len() ==> (
            (receiver.next_packet_shards.contains_key(j) || #[trigger] next.arrives(
                j as int,
                arrivals.take(taken(receiver, arrivals) as int),
            )) <==> (receiver.after_shard(arrivals[0]).next_packet_shards.contains_key(j)
                || next.arrives(
                j as int,
                arrivals.drop_first().take(
                    taken(receiver.after_shard(arrivals[0]), arrivals.drop_first()) as int,
                ),
            ))),
{
    let entry = arrivals[0];
    let stepped = receiver.after_shard(entry);
    let rest = arrivals.drop_first();
    let prefix = arrivals.take(taken(receiver, arrivals) as int);
    lemma_taken_bound(stepped, rest);
    assert(prefix.drop_first() =~= rest.take(taken(stepped, rest) as int));
    assert(prefix[0] == entry);
    assert forall|j: usize| j < next.shards.len() implies (
    (receiver.next_packet_shards.contains_key(j) || #[trigger] next.arrives(j as int, prefix))
        <==> (stepped.next_packet_shards.contains_key(j) || next.arrives(
        j as int,
        prefix.drop_first(),
    ))) by {
        lemma_arrivals_behind_first(next, j as int, prefix);
        if next.is_shard(entry, j as int) {
            assert(next.is_shard(prefix[0], j as int));
            assert(next.arrives(j as int, prefix));
            assert(!receiver.is_current(entry));
            assert(receiver.is_later(entry));
        }
    }
}

proof fn lemma_taken_bound(receiver: ReceiverState, arrivals: Seq<Seq<u8>>)
    ensures
        taken(receiver, arrivals) <= arrivals.len(),
    decreases arrivals.len(),
{
    if receiver.action() != RecvAction::Assemble && arrivals.len() > 0 {
        lemma_taken_bound(receiver.after_shard(arrivals[0]), arrivals.drop_first());
    }
}

/// A call that ends within some entries does not see what comes behind them.
proof fn lemma_call_ends_within(
    receiver: ReceiverState,
    buffer: BufferState,
    arrivals: Seq<Seq<u8>>,
    n: int,
)
    requires
        0 <= n <= arrivals.len(),
        received(receiver, buffer, arrivals.take(n)) is Some,
    ensures
        received(receiver, buffer, arrivals) == received(receiver, buffer, arrivals.take(n)),
        taken(receiver, arrivals) == taken(receiver, arrivals.take(n)),
        taken(receiver, arrivals) <= n,
    decreases n,
{
    if receiver.action() != RecvAction::Assemble {
        assert(n > 0);
        let rest = arrivals.drop_first();
        assert(arrivals.take(n).drop_first() =~= rest.take(n - 1));
        assert(arrivals.take(n)[0] == arrivals[0]);
        lemma_call_ends_within(
            receiver.after_shard(arrivals[0]),
            receiver.buffer_after_shard(buffer, arrivals[0]),
            rest,
            n - 1,
        );
    }
}

/// A receiver delivers the packet that it turns to once all its shards have arrived, in
/// whatever order and however often, and without any loss, if the next packet is not complete
/// before that. Exactly what arrived of the next packet during the call is held for the call
/// behind it, and shards of packets that are over change nothing.
pub proof fn law_packet_is_delivered(
    receiver: ReceiverState,
    buffer: BufferState,
    packet: Packet,
    next: Packet,
    absent: usize,
    arrivals: Seq<Seq<u8>>,
)
    requires
        packet.is_valid(),
        next.is_valid(),
        receiver.stream_id == packet.stream_id,
        receiver.stream_id == next.stream_id,
        receiver.next_packet_index == packet.packet_index,
        next.packet_index == packet.packet_index.wrapping_add(1),
        joined(packet.shards).len() <= isize::MAX,
        packet.fills_counted(receiver.next_packet_shards, receiver.next_packet_shards_count),
        expected(receiver.turned(), packet, next, arrivals),
        absent < next.shards.len(),
        !next.arrives(absent as int, arrivals),
        forall|i: usize|
            i < packet.shards.len() ==> #[trigger] receiver.next_packet_shards.contains_key(i)
                || packet.arrives(i as int, arrivals),
    ensures
        call_received(receiver, buffer, arrivals) matches Some(delivery) && {
            &&& delivery.packet_index == packet.packet_index
            &&& same_but_times(delivery.buffer, holding(buffer, packet))
            &&& delivery.receiver.stream_id == packet.stream_id
            &&& delivery.receiver.current is None
            &&& delivery.receiver.next_packet_index == next.packet_index
            &&& next.fills_counted(
                delivery.receiver.next_packet_shards,
                delivery.receiver.next_packet_shards_count,
            )
            &&& !delivery.receiver.next_packet_shards.contains_key(absent)
            &&& forall|j: usize|
                j < next.shards.len() ==> (
                #[trigger] delivery.receiver.next_packet_shards.contains_key(j) <==> next.arrives(
                    j as int,
                    arrivals.take(taken(receiver.turned(), arrivals) as int),
                ))
            &&& packet.stream_id != VIDEO && receiver.next_packet_times == ShardTimes::none() ==> {
                &&& delivery.buffer == holding(buffer, packet)
                &&& delivery.receiver.next_packet_times == ShardTimes::none()
            }
        },
{
    let turned = receiver.turned();
    assert(next.fills_counted(turned.next_packet_shards, turned.next_packet_shards_count));
    assert(forall|i: usize|
        i < packet.shards.len() ==> #[trigger] turned.current->0.shards.contains_key(i)
            || packet.arrives(i as int, arrivals));
    lemma_packet_is_delivered(
        turned,
        receiver.buffer_at_start(buffer),
        packet,
        next,
        absent,
        arrivals,
    );
}

/// Two packets of which shards come in any order, mixed and more than once, are delivered by two
/// calls, one after the other and both without any loss, if the second is not complete before
/// the first: what came early of it during the first call is there for the second. Shards of
/// packets before them change nothing.
pub proof fn law_two_packets_are_delivered(
    receiver: ReceiverState,
    buffer: BufferState,
    packet: Packet,
    next: Packet,
    absent: usize,
    queue: Seq<Seq<u8>>,
    n: int,
)
    requires
        packet.is_valid(),
        next.is_valid(),
        joined(packet.shards).len() <= isize::MAX,
        joined(next.shards).len() <= isize::MAX,
        receiver.stream_id == packet.stream_id,
        receiver.stream_id == next.stream_id,
        receiver.next_packet_index == packet.packet_index,
        packet.packet_index < u32::MAX - 1,
        next.packet_index == packet.packet_index + 1,
        packet.fills_counted(receiver.next_packet_shards, receiver.next_packet_shards_count),
        forall|k: int|
            0 <= k < queue.len() ==> packet.has_shard(#[trigger] queue[k]) || next.has_shard(
                queue[k],
            ) || ({
                let index = header_of(receiver.stream_id, queue[k]).packet_index;
                index < packet.packet_index && packet.packet_index + 2 - index <= 0x8000_0000
            }),
        0 <= n <= queue.len(),
        forall|i: usize|
            i < packet.shards.len() ==> #[trigger] receiver.next_packet_shards.contains_key(i)
                || packet.arrives(i as int, queue.take(n)),
        absent < next.shards.len(),
        !next.arrives(absent as int, queue.take(n)),
        forall|j: usize| j < next.shards.len() ==> #[trigger] next.arrives(j as int, queue),
    ensures
        call_received(receiver, buffer, queue) matches Some(first) && {
            let rest = queue.skip(taken(receiver.turned(), queue) as int);
            &&& first.packet_index == packet.packet_index
            &&& first.buffer.message == joined(packet.shards)
            &&& !first.buffer.had_packet_loss
            &&& first.buffer.packet_loss_count == buffer.packet_loss_count
            &&& call_received(first.receiver, first.buffer, rest) matches Some(second) && {
                &&& second.packet_index == next.packet_index
                &&& second.buffer.message == joined(next.shards)
                &&& !second.buffer.had_packet_loss
                &&& second.buffer.packet_loss_count == buffer.packet_loss_count
            }
        },
{
    let turned = receiver.turned();
    let prefix = queue.take(n);
    assert forall|k: int| 0 <= k < prefix.len() implies packet.has_shard(#[trigger] prefix[k])
        || next.has_shard(prefix[k]) || is_old(turned, prefix[k]) by {
        assert(prefix[k] == queue[k]);
    }
    law_packet_is_delivered(receiver, buffer, packet, next, absent, prefix);
    lemma_call_ends_within(turned, receiver.buffer_at_start(buffer), queue, n);
    let first = call_received(receiver, buffer, queue)->0;
    let t = taken(turned, queue) as int;
    let rest = queue.skip(t);
    assert(prefix.take(t) =~= queue.take(t));
    let third = packet_behind(next.stream_id, next.packet_index);
    let again = first.receiver.turned();
    assert forall|k: int| 0 <= k < rest.len() implies next.has_shard(#[trigger] rest[k]) || is_old(
        again,
        rest[k],
    ) by {
        assert(rest[k] == queue[k + t]);
    }
    assert(!third.arrives(0, rest)) by {
        if third.arrives(0, rest) {
            let k = choose|k: int| 0 <= k < rest.len() && third.is_shard(#[trigger] rest[k], 0);
            assert(next.has_shard(rest[k]) || is_old(again, rest[k]));
        }
    }
    assert forall|j: usize| j < next.shards.len() implies
        #[trigger] first.receiver.next_packet_shards.contains_key(j) || next.arrives(
        j as int,
        rest,
    ) by {
        assert(next.arrives(j as int, queue));
        let k = choose|k: int|
            0 <= k < queue.len() && next.is_shard(#[trigger] queue[k], j as int);
        if k < t {
            assert(queue.take(t)[k] == queue[k]);
            assert(next.arrives(j as int, queue.take(t)));
        } else {
            assert(rest[k - t] == queue[k]);
        }
    }
    law_packet_is_delivered(first.receiver, first.buffer, next, third, 0, rest);
}

/// What a buffer holds once a packet was delivered into it after others were given up, but for
/// the times of arrival.
pub open spec fn holding_after_loss(buffer: BufferState, packet: Packet) -> BufferState {
    BufferState {
        message: joined(packet.shards),
        had_packet_loss: true,
        packet_loss_count: 1,
        skipping_loss: true,
        shard_loss_rate: LossRate { lost: 1, shards: packet.shards.len() as usize },
        ..buffer
    }
}

/// If all the shards of a later packet arrive while the current one is incomplete, the receiver
/// gives the current packet up: it delivers the later one whole and reports a loss.
pub proof fn law_later_packet_is_delivered(
    receiver: ReceiverState,
    buffer: BufferState,
    later: Packet,
    arrivals: Seq<Seq<u8>>,
)
    requires
        later.is_valid(),
        joined(later.shards).len() <= isize::MAX,
        receiver.stream_id == later.stream_id,
        receiver.current is Some,
        !receiver.current->0.is_complete(),
        later.packet_index != receiver.current->0.packet_index,
        reaches(later.packet_index, receiver.next_packet_index),
        later.packet_index == receiver.next_packet_index ==> later.fills_counted(
            receiver.next_packet_shards,
            receiver.next_packet_shards_count,
        ) && !receiver.later_is_complete(),
        forall|k: int|
            0 <= k < arrivals.len() ==> later.has_shard(#[trigger] arrivals[k]) || (is_old(
                receiver,
                arrivals[k],
            ) && !reaches(receiver.header(arrivals[k]).packet_index, later.packet_index)),
        forall|i: usize|
            i < later.shards.len() ==> #[trigger] later.arrives(i as int, arrivals) || (
            later.packet_index == receiver.next_packet_index
                && receiver.next_packet_shards.contains_key(i)),
    ensures
        received(receiver, buffer, arrivals) matches Some(delivery) && {
            &&& delivery.packet_index == later.packet_index
            &&& same_but_times(delivery.buffer, holding_after_loss(buffer, later))
            &&& delivery.receiver == ReceiverState {
                next_packet_index: later.packet_index.wrapping_add(1),
                ..ReceiverState::fresh(later.stream_id)
            }
            &&& later.stream_id != VIDEO && (later.packet_index == receiver.next_packet_index
                ==> receiver.next_packet_times == ShardTimes::none()) ==> delivery.buffer
                == holding_after_loss(buffer, later)
        },
    decreases arrivals.len(),
{
    let same = later.packet_index == receiver.next_packet_index;
    let held = if same {
        receiver.next_packet_shards
    } else {
        Map::empty()
    };
    let lacking = choose|i: usize| i < later.shards.len() && !#[trigger] held.contains_key(i);
    assert(exists|i: usize| i < later.shards.len() && !#[trigger] held.contains_key(i)) by {
        if forall|i: usize| i < later.shards.len() ==> #[trigger] held.contains_key(i) {
            lemma_table_is_whole(later, held);
        }
    }
    assert(later.arrives(lacking as int, arrivals));
    assert(arrivals.len() > 0);
    let entry = arrivals[0];
    let rest = arrivals.drop_first();
    let stepped = receiver.after_shard(entry);
    let noted = receiver.buffer_after_shard(buffer, entry);
    if later.has_shard(entry) {
        let i = choose|i: int| 0 <= i < later.shards.len() && #[trigger] later.is_shard(entry, i);
        assert(receiver.is_later(entry));
        let grown = held.insert(i as usize, later.shards[i]);
        assert(later.fills(grown));
        assert(receiver.with_later_shard(entry).next_packet_shards == grown);
        assert(grown.contains_key(i as usize));
        if forall|j: usize| j < later.shards.len() ==> #[trigger] grown.contains_key(j) {
            lemma_table_is_whole(later, grown);
        }
        if receiver.skips_on(entry) {
            lemma_full_packet_is_delivered(later, stepped, noted, rest);
        } else {
            assert forall|j: usize| j < later.shards.len() implies #[trigger] later.arrives(
                j as int,
                rest,
            ) || stepped.next_packet_shards.contains_key(j) by {
                lemma_arrivals_behind_first(later, j as int, arrivals);
                assert(later.arrives(j as int, arrivals) || held.contains_key(j));
            }
            assert forall|k: int| 0 <= k < rest.len() implies later.has_shard(#[trigger] rest[k])
                || (is_old(stepped, rest[k]) && !reaches(
                stepped.header(rest[k]).packet_index,
                later.packet_index,
            )) by {
                assert(rest[k] == arrivals[k + 1]);
            }
            law_later_packet_is_delivered(stepped, noted, later, rest);
        }
    } else {
        assert(is_old(receiver, entry));
        assert(stepped == receiver);
        assert forall|j: usize| j < later.shards.len() implies #[trigger] later.arrives(
            j as int,
            rest,
        ) || (same && receiver.next_packet_shards.contains_key(j)) by {
            lemma_arrivals_behind_first(later, j as int, arrivals);
            assert(later.arrives(j as int, arrivals) || held.contains_key(j));
        }
        assert forall|k: int| 0 <= k < rest.len() implies later.has_shard(#[trigger] rest[k]) || (
        is_old(receiver, rest[k]) && !reaches(
            receiver.header(rest[k]).packet_index,
            later.packet_index,
        )) by {
            assert(rest[k] == arrivals[k + 1]);
        }
        law_later_packet_is_delivered(receiver, noted, later, rest);
    }
}

/// Whether a receiver between two calls holds nothing.
pub open spec fn is_drained(receiver: ReceiverState) -> bool {
    &&& receiver.next_packet_shards == Map::<usize, Seq<u8>>::empty()
    &&& receiver.next_packet_shards_count is None
    &&& receiver.next_packet_times == ShardTimes::none()
}

/// A packet with a single shard behind the given index, which never arrives.
spec fn packet_behind(stream_id: u16, packet_index: u32) -> Packet {
    Packet {
        stream_id,
        packet_index: packet_index.wrapping_add(1),
        shards: seq![Seq::<u8>::empty()],
    }
}

/// A drained receiver whose packet arrives, with nothing of the packet behind it, is drained
/// again.
proof fn lemma_lone_packet_is_delivered(
    receiver: ReceiverState,
    buffer: BufferState,
    packet: Packet,
    arrivals: Seq<Seq<u8>>,
)
    requires
        packet.is_valid(),
        joined(packet.shards).len() <= isize::MAX,
        receiver.stream_id == packet.stream_id,
        receiver.next_packet_index == packet.packet_index,
        is_drained(receiver),
        forall|k: int|
            0 <= k < arrivals.len() ==> packet.has_shard(#[trigger] arrivals[k]) || is_old(
                receiver.turned(),
                arrivals[k],
            ),
        forall|i: usize| i < packet.shards.len() ==> #[trigger] packet.arrives(i as int, arrivals),
    ensures
        call_received(receiver, buffer, arrivals) matches Some(delivery) && {
            &&& delivery.packet_index == packet.packet_index
            &&& same_but_times(delivery.buffer, holding(buffer, packet))
            &&& packet.stream_id != VIDEO ==> delivery.buffer == holding(buffer, packet)
            &&& delivery.receiver.stream_id == packet.stream_id
            &&& delivery.receiver.current is None
            &&& delivery.receiver.next_packet_index == packet.packet_index.wrapping_add(1)
            &&& delivery.receiver.next_packet_shards == Map::<usize, Seq<u8>>::empty()
            &&& delivery.receiver.next_packet_shards_count is None
        },
{
    let next = packet_behind(packet.stream_id, packet.packet_index);
    assert(!next.arrives(0, arrivals)) by {
        if next.arrives(0, arrivals) {
            let k = choose|k: int|
                0 <= k < arrivals.len() && next.is_shard(#[trigger] arrivals[k], 0);
            assert(packet.has_shard(arrivals[k]) || is_old(receiver.turned(), arrivals[k]));
        }
    }
    assert(forall|i: usize|
        i < packet.shards.len() ==> #[trigger] receiver.next_packet_shards.contains_key(i)
            || packet.arrives(i as int, arrivals));
    law_packet_is_delivered(receiver, buffer, packet, next, 0, arrivals);
    let delivery = call_received(receiver, buffer, arrivals)->0;
    assert(delivery.receiver.next_packet_shards =~= Map::empty()) by {
        assert forall|i: usize| !#[trigger] delivery.receiver.next_packet_shards.contains_key(
            i,
        ) by {
            assert(next.fills(delivery.receiver.next_packet_shards));
        }
    }
}

/// A packet that arrives whole is delivered if it is the one that the receiver waits for or one
/// behind it, and costs at most a report of loss: there is one exactly where packets before it
/// did not come. This holds across an overflow of the packet index too.
pub proof fn law_packet_ahead_is_delivered(
    receiver: ReceiverState,
    buffer: BufferState,
    packet: Packet,
    arrivals: Seq<Seq<u8>>,
)
    requires
        packet.is_valid(),
        joined(packet.shards).len() <= isize::MAX,
        receiver.stream_id == packet.stream_id,
        reaches(packet.packet_index, receiver.next_packet_index),
        is_drained(receiver),
        forall|k: int|
            0 <= k < arrivals.len() ==> packet.has_shard(#[trigger] arrivals[k]) || (is_old(
                receiver.turned(),
                arrivals[k],
            ) && !reaches(receiver.header(arrivals[k]).packet_index, packet.packet_index)),
        forall|i: usize| i < packet.shards.len() ==> #[trigger] packet.arrives(i as int, arrivals),
    ensures
        call_received(receiver, buffer, arrivals) matches Some(delivery) && {
            &&& delivery.packet_index == packet.packet_index
            &&& delivery.buffer.message == joined(packet.shards)
            &&& delivery.buffer.had_packet_loss == (packet.packet_index
                != receiver.next_packet_index)
            &&& delivery.receiver.next_packet_index == packet.packet_index.wrapping_add(1)
            &&& delivery.receiver.next_packet_shards == Map::<usize, Seq<u8>>::empty()
            &&& delivery.receiver.next_packet_shards_count is None
        },
{
    if packet.packet_index == receiver.next_packet_index {
        lemma_lone_packet_is_delivered(receiver, buffer, packet, arrivals);
    } else {
        let turned = receiver.turned();
        assert(!turned.current->0.is_complete());
        assert(!turned.later_is_complete());
        assert forall|k: int| 0 <= k < arrivals.len() implies packet.has_shard(
            #[trigger] arrivals[k],
        ) || (is_old(turned, arrivals[k]) && !reaches(
            turned.header(arrivals[k]).packet_index,
            packet.packet_index,
        )) by {
            assert(turned.header(arrivals[k]) == receiver.header(arrivals[k]));
        }
        law_later_packet_is_delivered(
            turned,
            receiver.buffer_at_start(buffer),
            packet,
            arrivals,
        );
    }
}

/// A datagram, routed at any time, reads back every field that its sender wrote, its data and,
/// if the stream is video, the time at which it was routed.
pub proof fn law_datagram_reads_back(
    stream_id: u16,
    packet_index: u32,
    shards_count: u32,
    shard_index: u32,
    data: Seq<u8>,
    now: i64,
)
    ensures
        u16_from(datagram(stream_id, packet_index, shards_count, shard_index, data)) == stream_id,
        ({
            let entry = queue_entry(
                datagram(stream_id, packet_index, shards_count, shard_index, data),
                now,
            );
            &&& holds_header(stream_id, entry)
            &&& data_of(stream_id, entry) == data
            &&& header_of(stream_id, entry) == written_header(
                stream_id,
                now,
                packet_index,
                shards_count,
                shard_index,
            )
        }),
{
    let fields = shard_fields(packet_index, shards_count, shard_index);
    let packet = datagram(stream_id, packet_index, shards_count, shard_index, data);
    assert(packet =~= u16_bytes(stream_id) + (u16_bytes(stream_id) + fields + data));
    lemma_u16_reads_back(stream_id, u16_bytes(stream_id) + fields + data);
    assert(packet.skip(2) =~= u16_bytes(stream_id) + fields + data);
    if stream_id == VIDEO {
        law_stamped_shard_reads_back(now, packet_index, shards_count, shard_index, data);
    } else {
        assert(u16_bytes(stream_id) + Seq::<u8>::empty() =~= u16_bytes(stream_id));
        law_queued_shard_reads_back(stream_id, 0, packet_index, shards_count, shard_index, data);
    }
}

/// The packet that carries a message.
pub open spec fn message_packet(sender: SenderState, header: Seq<u8>, payload: Seq<u8>) -> Packet {
    Packet {
        stream_id: sender.stream_id,
        packet_index: sender.next_packet_index,
        shards: message_shards(header, payload, sender.shard_size()),
    }
}

/// Whether a queue entry is the given datagram, routed at some time.
pub open spec fn routed(packet: Seq<u8>, entry: Seq<u8>) -> bool {
    exists|now: i64| entry == #[trigger] queue_entry(packet, now)
}

/// Whether the given datagram was routed at this time.
pub open spec fn routed_at(packet: Seq<u8>, now: i64, arrivals: Seq<Seq<u8>>) -> bool {
    exists|k: int| 0 <= k < arrivals.len() && #[trigger] arrivals[k] == queue_entry(packet, now)
}

/// Whether the receiver waits for the message that the sender sends next, with nothing of it
/// there yet.
pub open spec fn in_step(sender: SenderState, receiver: ReceiverState) -> bool {
    &&& receiver.stream_id == sender.stream_id
    &&& receiver.next_packet_index == sender.next_packet_index
    &&& is_drained(receiver)
}

/// A stream that nothing was sent on is in step.
pub proof fn law_streams_start_in_step(stream_id: u16, max_packet_size: usize)
    ensures
        in_step(
            SenderState { stream_id, max_packet_size, next_packet_index: 0 },
            ReceiverState::fresh(stream_id),
        ),
{
}

/// Whether a queue entry is one of the given datagrams, routed at some time.
pub open spec fn is_one_of(datagrams: Seq<Seq<u8>>, entry: Seq<u8>) -> bool {
    exists|i: int| 0 <= i < datagrams.len() && routed(#[trigger] datagrams[i], entry)
}

/// Whether the given datagram is among the queue entries, routed at some time.
pub open spec fn is_among(packet: Seq<u8>, arrivals: Seq<Seq<u8>>) -> bool {
    exists|k: int| 0 <= k < arrivals.len() && routed(packet, #[trigger] arrivals[k])
}

/// Whether nothing comes to the receiver's queue but datagrams of a message and shards of
/// packets that are over.
pub open spec fn nothing_else_comes(
    sender: SenderState,
    receiver: ReceiverState,
    header: Seq<u8>,
    payload: Seq<u8>,
    arrivals: Seq<Seq<u8>>,
) -> bool {
    forall|k: int|
        0 <= k < arrivals.len() ==> is_old(receiver.turned(), arrivals[k])
            || #[trigger] is_one_of(sender.datagrams(header, payload), arrivals[k])
}

/// Whether every datagram of a message comes to the receiver's queue, in whatever order and
/// however often.
pub open spec fn all_come(
    sender: SenderState,
    header: Seq<u8>,
    payload: Seq<u8>,
    arrivals: Seq<Seq<u8>>,
) -> bool {
    forall|i: int|
        0 <= i < sender.datagrams(header, payload).len() ==> #[trigger] is_among(
            sender.datagrams(header, payload)[i],
            arrivals,
        )
}

/// An entry that is a routed datagram of a message is a shard of the message's packet.
proof fn lemma_routed_is_shard(
    sender: SenderState,
    header: Seq<u8>,
    payload: Seq<u8>,
    i: int,
    now: i64,
)
    requires
        message_packet(sender, header, payload).is_valid(),
        0 <= i < sender.datagrams(header, payload).len(),
    ensures
        ({
            let packet = message_packet(sender, header, payload);
            let entry = queue_entry(sender.datagrams(header, payload)[i], now);
            &&& packet.is_shard(entry, i)
            &&& sender.stream_id == VIDEO ==> header_of(sender.stream_id, entry).receive_time == now
        }),
{
    let packet = message_packet(sender, header, payload);
    law_datagram_reads_back(
        sender.stream_id,
        sender.next_packet_index,
        packet.shards.len() as u32,
        i as u32,
        packet.shards[i],
        now,
    );
}

/// A message arrives as it was sent, header and payload, without any loss, as soon as each of
/// its datagrams was routed to the receiver's queue, at whatever times, in whatever order and
/// however often, and the receiver is in step for the next message. A video message comes with
/// the times at which its first and its last datagram were routed.
pub proof fn law_message_arrives(
    sender: SenderState,
    receiver: ReceiverState,
    buffer: BufferState,
    header: Seq<u8>,
    payload: Seq<u8>,
    arrivals: Seq<Seq<u8>>,
)
    requires
        sender.max_packet_size > SHARD_HEADER_SIZE,
        message_packet(sender, header, payload).is_valid(),
        header.len() + payload.len() <= isize::MAX,
        in_step(sender, receiver),
        nothing_else_comes(sender, receiver, header, payload, arrivals),
        all_come(sender, header, payload, arrivals),
    ensures
        call_received(receiver, buffer, arrivals) matches Some(delivery) && {
            let datagrams = sender.datagrams(header, payload);
            &&& delivery.buffer.message == header + payload
            &&& !delivery.buffer.had_packet_loss
            &&& delivery.buffer.packet_loss_count == buffer.packet_loss_count
            &&& in_step(sender.after_message(), delivery.receiver)
            &&& sender.stream_id != VIDEO ==> delivery.buffer == holding(
                buffer,
                message_packet(sender, header, payload),
            )
            &&& sender.stream_id == VIDEO ==> {
                &&& routed_at(datagrams[0], delivery.buffer.first_packet_receive_time, arrivals)
                &&& routed_at(
                    datagrams.last(),
                    delivery.buffer.last_packet_receive_time,
                    arrivals,
                )
            }
        },
{
    let packet = message_packet(sender, header, payload);
    let datagrams = sender.datagrams(header, payload);
    let turned = receiver.turned();
    let stream_id = sender.stream_id;
    law_message_shards_join(header, payload, sender.shard_size());
    assert forall|k: int| 0 <= k < arrivals.len() implies packet.has_shard(#[trigger] arrivals[k])
        || is_old(turned, arrivals[k]) by {
        if !is_old(turned, arrivals[k]) {
            assert(is_one_of(datagrams, arrivals[k]));
            let i = choose|i: int|
                0 <= i < datagrams.len() && routed(#[trigger] datagrams[i], arrivals[k]);
            let now = choose|now: i64| arrivals[k] == #[trigger] queue_entry(datagrams[i], now);
            lemma_routed_is_shard(sender, header, payload, i, now);
            assert(packet.is_shard(arrivals[k], i));
        }
    }
    assert forall|i: usize| i < packet.shards.len() implies #[trigger] packet.arrives(
        i as int,
        arrivals,
    ) by {
        assert(is_among(datagrams[i as int], arrivals));
        let k = choose|k: int|
            0 <= k < arrivals.len() && routed(datagrams[i as int], #[trigger] arrivals[k]);
        let now = choose|now: i64|
            arrivals[k] == #[trigger] queue_entry(datagrams[i as int], now);
        lemma_routed_is_shard(sender, header, payload, i as int, now);
        assert(packet.is_shard(arrivals[k], i as int));
    }
    lemma_lone_packet_is_delivered(receiver, buffer, packet, arrivals);
    let delivery = call_received(receiver, buffer, arrivals)->0;
    let before = Seq::<Seq<u8>>::empty();
    assert(before + arrivals =~= arrivals);
    assert(next_came_in(receiver, before));
    law_delivery_is_whole(receiver, buffer, before, arrivals);
    lemma_times_stay_none(turned, receiver.buffer_at_start(buffer), packet, arrivals);
    if stream_id == VIDEO {
        let pieces = choose|pieces: Seq<Seq<u8>>| #[trigger]
            accounts_for(stream_id, pieces, delivery, arrivals);
        assert forall|k: int|
            0 <= k < arrivals.len() && header_of(stream_id, #[trigger] arrivals[k]).packet_index
                == packet.packet_index implies packet.has_shard(arrivals[k]) by {
            assert(packet.has_shard(arrivals[k]) || is_old(turned, arrivals[k]));
        }
        assert(all_video(stream_id, packet.packet_index, arrivals));
        assert(counts_agree(stream_id, packet.packet_index, arrivals));
        assert(pieces.len() == packet.shards.len());
        lemma_time_is_routed(
            sender,
            receiver,
            header,
            payload,
            arrivals,
            0,
            delivery.buffer.first_packet_receive_time,
        );
        lemma_time_is_routed(
            sender,
            receiver,
            header,
            payload,
            arrivals,
            datagrams.len() - 1,
            delivery.buffer.last_packet_receive_time,
        );
    }
}

/// The time at which a shard of a video message came in is one at which it was routed.
proof fn lemma_time_is_routed(
    sender: SenderState,
    receiver: ReceiverState,
    header: Seq<u8>,
    payload: Seq<u8>,
    arrivals: Seq<Seq<u8>>,
    i: int,
    time: i64,
)
    requires
        message_packet(sender, header, payload).is_valid(),
        sender.stream_id == VIDEO,
        in_step(sender, receiver),
        nothing_else_comes(sender, receiver, header, payload, arrivals),
        0 <= i < sender.datagrams(header, payload).len(),
        time_came_in(sender.stream_id, sender.next_packet_index, i, time, arrivals),
    ensures
        routed_at(sender.datagrams(header, payload)[i], time, arrivals),
{
    let datagrams = sender.datagrams(header, payload);
    let k = choose|k: int|
        0 <= k < arrivals.len() && header_of(sender.stream_id, #[trigger] arrivals[k]).packet_index
            == sender.next_packet_index && header_of(sender.stream_id, arrivals[k]).shard_index == i
            && header_of(sender.stream_id, arrivals[k]).receive_time == time;
    assert(!is_old(receiver.turned(), arrivals[k]));
    assert(is_one_of(datagrams, arrivals[k]));
    let j = choose|j: int|
        0 <= j < datagrams.len() && routed(#[trigger] datagrams[j], arrivals[k]);
    let now = choose|now: i64| arrivals[k] == #[trigger] queue_entry(datagrams[j], now);
    lemma_routed_is_shard(sender, header, payload, j, now);
}

/// While nothing of the packet behind the current one arrives, the receiver holds no times of
/// it.
proof fn lemma_times_stay_none(
    receiver: ReceiverState,
    buffer: BufferState,
    packet: Packet,
    arrivals: Seq<Seq<u8>>,
)
    requires
        receiver.stream_id == packet.stream_id,
        receiver.current is Some,
        receiver.current->0.packet_index == packet.packet_index,
        receiver.next_packet_times == ShardTimes::none(),
        forall|k: int|
            0 <= k < arrivals.len() ==> packet.has_shard(#[trigger] arrivals[k]) || is_old(
                receiver,
                arrivals[k],
            ),
    ensures
        received(receiver, buffer, arrivals) matches Some(delivery)
            ==> delivery.receiver.next_packet_times == ShardTimes::none(),
    decreases arrivals.len(),
{
    if receiver.action() != RecvAction::Assemble && arrivals.len() > 0 {
        let entry = arrivals[0];
        let rest = arrivals.drop_first();
        let stepped = receiver.after_shard(entry);
        assert(packet.has_shard(entry) || is_old(receiver, entry));
        assert forall|k: int| 0 <= k < rest.len() implies packet.has_shard(#[trigger] rest[k])
            || is_old(stepped, rest[k]) by {
            assert(rest[k] == arrivals[k + 1]);
        }
        lemma_times_stay_none(stepped, receiver.buffer_after_shard(buffer, entry), packet, rest);
    }
}

/// A video message each of whose datagrams was routed at one time comes with the times of its
/// first and its last datagram, whatever those times are.
pub proof fn law_video_message_is_timed(
    sender: SenderState,
    receiver: ReceiverState,
    buffer: BufferState,
    header: Seq<u8>,
    payload: Seq<u8>,
    arrivals: Seq<Seq<u8>>,
    times: Seq<i64>,
)
    requires
        sender.stream_id == VIDEO,
        sender.max_packet_size > SHARD_HEADER_SIZE,
        message_packet(sender, header, payload).is_valid(),
        header.len() + payload.len() <= isize::MAX,
        in_step(sender, receiver),
        nothing_else_comes(sender, receiver, header, payload, arrivals),
        all_come(sender, header, payload, arrivals),
        times.len() == sender.datagrams(header, payload).len(),
        forall|i: int, now: i64|
            0 <= i < times.len() && #[trigger] routed_at(
                sender.datagrams(header, payload)[i],
                now,
                arrivals,
            ) ==> now == times[i],
    ensures
        call_received(receiver, buffer, arrivals) matches Some(delivery) && {
            &&& delivery.buffer.message == header + payload
            &&& delivery.buffer.first_packet_receive_time == times[0]
            &&& delivery.buffer.last_packet_receive_time == times.last()
        },
{
    law_message_arrives(sender, receiver, buffer, header, payload, arrivals);
}

/// No datagram is longer than the sender was told, and each carries at least one byte of the
/// message.
pub proof fn law_datagram_sizes(sender: SenderState, header: Seq<u8>, payload: Seq<u8>, i: int)
    requires
        sender.max_packet_size > SHARD_HEADER_SIZE,
        0 <= i < sender.datagrams(header, payload).len(),
    ensures
        SHARD_HEADER_SIZE < sender.datagrams(header, payload)[i].len() <= sender.max_packet_size,
{
    let size = sender.shard_size();
    law_chunk_sizes(header, size);
    law_chunk_sizes(payload, size);
    let of_header = chunks(header, size);
    let shard = message_shards(header, payload, size)[i];
    if i < of_header.len() {
        assert(shard == of_header[i]);
    } else {
        assert(shard == chunks(payload, size)[i - of_header.len()]);
    }
}

/// The times that come with a video message are what the clock said when its datagrams were
/// routed, if they were routed by the clock.
pub proof fn law_video_message_carries_clock_readings(
    sender: SenderState,
    receiver: ReceiverState,
    buffer: BufferState,
    header: Seq<u8>,
    payload: Seq<u8>,
    arrivals: Seq<Seq<u8>>,
)
    requires
        sender.stream_id == VIDEO,
        sender.max_packet_size > SHARD_HEADER_SIZE,
        message_packet(sender, header, payload).is_valid(),
        header.len() + payload.len() <= isize::MAX,
        in_step(sender, receiver),
        nothing_else_comes(sender, receiver, header, payload, arrivals),
        all_come(sender, header, payload, arrivals),
        forall|i: int, now: i64|
            0 <= i < sender.datagrams(header, payload).len() && #[trigger] routed_at(
                sender.datagrams(header, payload)[i],
                now,
                arrivals,
            ) ==> is_clock_reading(now),
    ensures
        call_received(receiver, buffer, arrivals) matches Some(delivery) && {
            &&& is_clock_reading(delivery.buffer.first_packet_receive_time)
            &&& is_clock_reading(delivery.buffer.last_packet_receive_time)
        },
{
    law_message_arrives(sender, receiver, buffer, header, payload, arrivals);
}

} // verus!
