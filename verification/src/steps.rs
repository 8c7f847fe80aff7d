//! What each step of a receiver changes, and what it leaves alone.
//!
//! The functions here are proofs only.
use vstd::prelude::*;

use crate::provenance::lemma_whole_table;
use crate::receiver::{
    lemma_indices_above, lemma_indices_below, BufferState, ReceiverState, RecvAction,
};
use crate::sender::joined;
use crate::wire::{data_of, header_of};

verus! {

/// Whether a table is another one with a piece of data put in at an index, and nothing else
/// changed.
pub open spec fn is_table_with(
    table: Map<usize, Seq<u8>>,
    before: Map<usize, Seq<u8>>,
    index: usize,
    data: Seq<u8>,
) -> bool {
    &&& table.contains_key(index) && table[index] == data
    &&& forall|i: usize|
        i != index ==> (#[trigger] table.contains_key(i) <==> before.contains_key(i))
    &&& forall|i: usize|
        i != index && before.contains_key(i) ==> #[trigger] table[i] == before[i]
}

/// Whether a table holds exactly the indices below a count.
pub open spec fn holds_exactly(table: Map<usize, Seq<u8>>, count: usize) -> bool {
    forall|i: usize| #[trigger] table.contains_key(i) <==> i < count
}

/// Whether two buffers agree on everything but the times of arrival.
pub open spec fn same_content(one: BufferState, other: BufferState) -> bool {
    &&& one.message == other.message
    &&& one.had_packet_loss == other.had_packet_loss
    &&& one.packet_loss_count == other.packet_loss_count
    &&& one.skipping_loss == other.skipping_loss
    &&& one.shard_loss_rate == other.shard_loss_rate
}

/// A shard of the current packet is put among the shards of that packet. What is held of the
/// packet behind it stays as it is, whatever the shard is. The buffer takes nothing but the
/// times of a video shard.
pub proof fn law_shard_of_current_packet(
    receiver: ReceiverState,
    buffer: BufferState,
    entry: Seq<u8>,
)
    requires
        receiver.current is Some,
        header_of(receiver.stream_id, entry).packet_index == receiver.current->0.packet_index,
    ensures
        ({
            let header = header_of(receiver.stream_id, entry);
            let after = receiver.after_shard(entry);
            let noted = receiver.buffer_after_shard(buffer, entry);
            &&& after.current is Some
            &&& after.current->0.packet_index == receiver.current->0.packet_index
            &&& after.current->0.shards_count == Some(header.shards_count)
            &&& is_table_with(
                after.current->0.shards,
                receiver.current->0.shards,
                header.shard_index,
                data_of(receiver.stream_id, entry),
            )
            &&& after.stream_id == receiver.stream_id
            &&& after.next_packet_shards == receiver.next_packet_shards
            &&& after.next_packet_shards_count == receiver.next_packet_shards_count
            &&& after.next_packet_times == receiver.next_packet_times
            &&& after.next_packet_index == receiver.next_packet_index
            &&& same_content(noted, buffer)
            &&& noted.first_packet_receive_time == if header.stream_id == 3 && header.shard_index
                == 0 {
                header.receive_time
            } else {
                buffer.first_packet_receive_time
            }
            &&& noted.last_packet_receive_time == if header.stream_id == 3 && header.shard_index
                + 1 == header.shards_count {
                header.receive_time
            } else {
                buffer.last_packet_receive_time
            }
        }),
{
}

/// A shard of a packet behind the current one is kept with those of the same packet, and drops
/// those of any other. As soon as they are all there, the receiver turns to that packet and the
/// loss of the one it gives up is reported; until then the current packet and the buffer stay
/// as they are.
pub proof fn law_shard_of_later_packet(
    receiver: ReceiverState,
    buffer: BufferState,
    entry: Seq<u8>,
    kept: Map<usize, Seq<u8>>,
)
    requires
        receiver.current is Some,
        receiver.next_packet_shards.dom().finite(),
        header_of(receiver.stream_id, entry).packet_index != receiver.current->0.packet_index,
        ({
            let index = header_of(receiver.stream_id, entry).packet_index;
            index >= receiver.next_packet_index || receiver.next_packet_index - index > 0x8000_0000
        }),
        is_table_with(
            kept,
            if header_of(receiver.stream_id, entry).packet_index == receiver.next_packet_index {
                receiver.next_packet_shards
            } else {
                Map::empty()
            },
            header_of(receiver.stream_id, entry).shard_index,
            data_of(receiver.stream_id, entry),
        ),
    ensures
        ({
            let header = header_of(receiver.stream_id, entry);
            let same = header.packet_index == receiver.next_packet_index;
            let after = receiver.after_shard(entry);
            let noted = receiver.buffer_after_shard(buffer, entry);
            let first = if header.stream_id == 3 && header.shard_index == 0 {
                Some(header.receive_time)
            } else if same {
                receiver.next_packet_times.first
            } else {
                None
            };
            let last = if header.stream_id == 3 && header.shard_index + 1 == header.shards_count {
                Some(header.receive_time)
            } else if same {
                receiver.next_packet_times.last
            } else {
                None
            };
            &&& after.stream_id == receiver.stream_id
            &&& if holds_exactly(kept, header.shards_count) {
                &&& after.current is Some
                &&& after.current->0.packet_index == header.packet_index
                &&& after.current->0.shards == kept
                &&& after.current->0.shards_count == Some(header.shards_count)
                &&& after.next_packet_shards.dom() =~= Set::empty()
                &&& after.next_packet_shards_count is None
                &&& after.next_packet_times.first is None
                &&& after.next_packet_times.last is None
                &&& after.next_packet_index == if header.packet_index == u32::MAX {
                    0
                } else {
                    header.packet_index + 1
                }
                &&& noted.message == buffer.message
                &&& noted.had_packet_loss
                &&& noted.skipping_loss
                &&& noted.packet_loss_count == 1
                &&& noted.shard_loss_rate.lost == 1 && noted.shard_loss_rate.shards == 1
                &&& noted.first_packet_receive_time == if first is Some {
                    first->0
                } else {
                    buffer.first_packet_receive_time
                }
                &&& noted.last_packet_receive_time == if last is Some {
                    last->0
                } else {
                    buffer.last_packet_receive_time
                }
            } else {
                &&& after.current == receiver.current
                &&& after.next_packet_shards == kept
                &&& after.next_packet_shards_count == Some(header.shards_count)
                &&& after.next_packet_times.first == first
                &&& after.next_packet_times.last == last
                &&& after.next_packet_index == header.packet_index
                &&& noted == buffer
            }
        }),
{
    let header = header_of(receiver.stream_id, entry);
    let later = receiver.with_later_shard(entry);
    assert(later.next_packet_shards =~= kept);
    assert(kept.dom().finite());
    let count = header.shards_count;
    if holds_exactly(kept, count) {
        assert forall|i: usize| #[trigger] kept.dom().contains(i) implies i < count by {
            assert(kept.contains_key(i));
        }
        lemma_indices_below(kept.dom(), count as nat);
        assert forall|i: usize| i < count implies #[trigger] kept.dom().contains(i) by {
            assert(kept.contains_key(i));
        }
        lemma_indices_above(kept.dom(), count);
        assert(later.later_is_complete());
    } else if later.later_is_complete() {
        let other = choose|i: usize| #[trigger] kept.contains_key(i) != (i < count);
        assert(kept.contains_key(other) && other >= count);
        let fewer = kept.dom().remove(other);
        assert(kept.dom().contains(other));
        assert forall|i: usize| i < count implies #[trigger] fewer.contains(i) by {
            assert(kept.contains_key(i));
        }
        lemma_indices_above(fewer, count);
    }
}

/// A call turns to the packet behind the last one, with all that is held of it, and to nothing
/// else. The buffer forgets the losses of the call before and takes the times that are held.
pub proof fn law_call_starts(receiver: ReceiverState, buffer: BufferState)
    ensures
        ({
            let turned = receiver.turned();
            let started = receiver.buffer_at_start(buffer);
            &&& turned.current is Some
            &&& turned.current->0.packet_index == receiver.next_packet_index
            &&& turned.current->0.shards == receiver.next_packet_shards
            &&& turned.current->0.shards_count == receiver.next_packet_shards_count
            &&& turned.stream_id == receiver.stream_id
            &&& turned.next_packet_shards.dom() =~= Set::empty()
            &&& turned.next_packet_shards_count is None
            &&& turned.next_packet_times.first is None
            &&& turned.next_packet_times.last is None
            &&& turned.next_packet_index == if receiver.next_packet_index == u32::MAX {
                0
            } else {
                receiver.next_packet_index + 1
            }
            &&& !started.had_packet_loss
            &&& same_content(
                started,
                BufferState { had_packet_loss: started.had_packet_loss, ..buffer },
            )
            &&& started.first_packet_receive_time == if receiver.next_packet_times.first is Some {
                receiver.next_packet_times.first->0
            } else {
                buffer.first_packet_receive_time
            }
            &&& started.last_packet_receive_time == if receiver.next_packet_times.last is Some {
                receiver.next_packet_times.last->0
            } else {
                buffer.last_packet_receive_time
            }
        }),
{
}

/// A packet is assembled exactly as soon as none of its shards is missing.
pub proof fn law_whole_packets_are_assembled(receiver: ReceiverState)
    requires
        receiver.current is Some,
    ensures
        receiver.action() == RecvAction::Assemble <==> {
            &&& receiver.current->0.shards_count is Some
            &&& forall|i: usize|
                i < receiver.current->0.shards_count->0
                    ==> #[trigger] receiver.current->0.shards.contains_key(i)
        },
        receiver.action() != RecvAction::Fail,
{
}

/// Assembling a packet puts its shards, one behind the other, into the buffer, with the part
/// that the losses so far are of its shards, and leaves everything else as it is: the loss, the
/// times, and what is held of the packet behind it. A packet of no shards is empty.
pub proof fn law_packet_is_assembled(
    receiver: ReceiverState,
    buffer: BufferState,
    pieces: Seq<Seq<u8>>,
)
    requires
        receiver.current is Some,
        receiver.current->0.shards_count == Some(pieces.len() as usize),
        pieces.len() <= usize::MAX,
        forall|i: int|
            0 <= i < pieces.len() ==> #[trigger] pieces[i]
                == receiver.current->0.shards[i as usize],
    ensures
        ({
            let delivered = receiver.current->0.delivered(buffer);
            let after = receiver.after_assembly();
            &&& delivered.message == joined(pieces)
            &&& receiver.current->0.fits() <==> joined(pieces).len() <= isize::MAX
            &&& delivered.had_packet_loss == buffer.had_packet_loss
            &&& delivered.packet_loss_count == buffer.packet_loss_count
            &&& delivered.skipping_loss == buffer.skipping_loss
            &&& delivered.first_packet_receive_time == buffer.first_packet_receive_time
            &&& delivered.last_packet_receive_time == buffer.last_packet_receive_time
            &&& pieces.len() > 0 ==> delivered.shard_loss_rate.lost == buffer.packet_loss_count
                && delivered.shard_loss_rate.shards == pieces.len()
            &&& pieces.len() == 0 ==> delivered.shard_loss_rate.lost == 0
                && delivered.shard_loss_rate.shards == 1 && delivered.message.len() == 0
            &&& after.current is None
            &&& after.stream_id == receiver.stream_id
            &&& after.next_packet_shards == receiver.next_packet_shards
            &&& after.next_packet_shards_count == receiver.next_packet_shards_count
            &&& after.next_packet_times == receiver.next_packet_times
            &&& after.next_packet_index == receiver.next_packet_index
        }),
{
    let table = receiver.current->0.shards;
    let whole = lemma_whole_table(table, pieces.len() as usize);
    assert(whole =~= pieces);
}

/// A buffer that nothing was received in is empty, knows of no loss, and carries the times that
/// it was made with.
pub proof fn law_fresh_buffer_is_empty(first: i64, last: i64)
    ensures
        ({
            let buffer = BufferState::fresh(first, last);
            &&& buffer.message.len() == 0
            &&& !buffer.had_packet_loss
            &&& buffer.packet_loss_count == 0
            &&& !buffer.skipping_loss
            &&& buffer.shard_loss_rate.lost == 0
            &&& buffer.shard_loss_rate.shards == 1
            &&& buffer.first_packet_receive_time == first
            &&& buffer.last_packet_receive_time == last
        }),
{
}

} // verus!
