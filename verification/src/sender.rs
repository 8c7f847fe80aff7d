//! Cutting a message into the datagrams that carry it.
use bytes::BytesMut;
use vstd::arithmetic::div_mod::{lemma_div_minus_one, lemma_mod_sub_multiples_vanish};
use vstd::prelude::*;
use vstd::slice::slice_subrange;

use crate::buffer::{put_slice, put_u16, put_u32, put_u8};
#[allow(unused_imports)]
use crate::buffer::{bytes_of, bytes_of_each};
use crate::wire::{
    CHANNEL_UTILITY_PLACEHOLDER, ECN_MARK_PLACEHOLDER, QUEUE_DEPTH_PLACEHOLDER, SHARD_HEADER_SIZE,
};
#[allow(unused_imports)]
use crate::wire::datagram;

verus! {

/// `data` in pieces of `size` bytes, the last of which may be shorter. No piece is empty.
pub open spec fn chunks(data: Seq<u8>, size: nat) -> Seq<Seq<u8>>
    decreases data.len(),
{
    if data.len() == 0 || size == 0 {
        Seq::empty()
    } else if data.len() <= size {
        seq![data]
    } else {
        seq![data.take(size as int)] + chunks(data.skip(size as int), size)
    }
}

/// All the pieces, one behind the other.
pub open spec fn joined(pieces: Seq<Seq<u8>>) -> Seq<u8>
    decreases pieces.len(),
{
    if pieces.len() == 0 {
        Seq::empty()
    } else {
        pieces[0] + joined(pieces.drop_first())
    }
}

/// The data of the shards of a message: the pieces of its header, then those of its payload.
pub open spec fn message_shards(header: Seq<u8>, payload: Seq<u8>, size: nat) -> Seq<Seq<u8>> {
    chunks(header, size) + chunks(payload, size)
}

/// The datagrams that carry the given shards of one packet.
pub open spec fn packet_datagrams(
    stream_id: u16,
    packet_index: u32,
    shards: Seq<Seq<u8>>,
) -> Seq<Seq<u8>> {
    Seq::new(
        shards.len(),
        |i: int| datagram(stream_id, packet_index, shards.len() as u32, i as u32, shards[i]),
    )
}

/// How many pieces `chunks` gives, by the length of the data.
pub open spec fn chunk_count(len: nat, size: nat) -> nat {
    if len % size == 0 {
        len / size
    } else {
        len / size + 1
    }
}

proof fn lemma_chunks_len(data: Seq<u8>, size: nat)
    requires
        size > 0,
    ensures
        chunks(data, size).len() == chunk_count(data.len(), size),
    decreases data.len(),
{
    if data.len() == 0 {
        assert(0nat % size == 0 && 0nat / size == 0) by (nonlinear_arith)
            requires
                size > 0,
        ;
    } else if data.len() < size {
        assert(data.len() % size == data.len() && data.len() / size == 0) by (nonlinear_arith)
            requires
                0 < data.len() < size,
        ;
    } else if data.len() == size {
        assert(size % size == 0 && size / size == 1) by (nonlinear_arith)
            requires
                size > 0,
        ;
    } else {
        lemma_chunks_len(data.skip(size as int), size);
        lemma_div_minus_one(data.len() as int, size as int);
        lemma_mod_sub_multiples_vanish(data.len() as int, size as int);
    }
}

/// The pieces of `data`, put together again, are `data`.
pub proof fn law_chunks_join(data: Seq<u8>, size: nat)
    requires
        size > 0,
    ensures
        joined(chunks(data, size)) == data,
    decreases data.len(),
{
    reveal_with_fuel(joined, 2);
    if data.len() == 0 {
    } else if data.len() <= size {
        assert(chunks(data, size).drop_first() =~= Seq::empty());
        assert(data + Seq::<u8>::empty() =~= data);
    } else {
        let rest = data.skip(size as int);
        law_chunks_join(rest, size);
        assert(chunks(data, size).drop_first() =~= chunks(rest, size));
        assert(data.take(size as int) + rest =~= data);
    }
}

/// Each piece has at least one byte and at most `size`.
pub proof fn law_chunk_sizes(data: Seq<u8>, size: nat)
    ensures
        forall|i: int|
            0 <= i < chunks(data, size).len() ==> 0 < #[trigger] chunks(data, size)[i].len()
                <= size,
    decreases data.len(),
{
    if data.len() > size && size > 0 {
        let rest = data.skip(size as int);
        law_chunk_sizes(rest, size);
        assert forall|i: int| 0 <= i < chunks(data, size).len() implies 0 < #[trigger] chunks(
            data,
            size,
        )[i].len() <= size by {
            if i > 0 {
                assert(chunks(data, size)[i] == chunks(rest, size)[i - 1]);
            }
        }
    }
}

/// Joining a longer list joins its two parts.
pub proof fn lemma_joined_concat(first: Seq<Seq<u8>>, second: Seq<Seq<u8>>)
    ensures
        joined(first + second) == joined(first) + joined(second),
    decreases first.len(),
{
    if first.len() == 0 {
        assert(first + second =~= second);
        assert(joined(first) + joined(second) =~= joined(second));
    } else {
        assert((first + second).drop_first() =~= first.drop_first() + second);
        lemma_joined_concat(first.drop_first(), second);
        assert(first[0] + (joined(first.drop_first()) + joined(second)) =~= (first[0] + joined(
            first.drop_first(),
        )) + joined(second));
    }
}

/// The shards of a message, put together again, are its header and its payload.
pub proof fn law_message_shards_join(header: Seq<u8>, payload: Seq<u8>, size: nat)
    requires
        size > 0,
    ensures
        joined(message_shards(header, payload, size)) == header + payload,
{
    law_chunks_join(header, size);
    law_chunks_join(payload, size);
    lemma_joined_concat(chunks(header, size), chunks(payload, size));
}

fn count_chunks(len: usize, size: usize) -> (count: usize)
    requires
        size > 0,
    ensures
        count == chunk_count(len as nat, size as nat),
{
    let full: usize = len / size;
    if len % size == 0 {
        full
    } else {
        assert(full + 1 <= len) by (nonlinear_arith)
            requires
                size > 0,
                full == len / size,
                len % size != 0,
                size != 1 || len % size == 0,
        ;
        full + 1
    }
}

/// What a sender knows.
pub struct SenderState {
    pub stream_id: u16,
    pub max_packet_size: usize,
    pub next_packet_index: u32,
}

impl SenderState {
    /// How much data one datagram has room for.
    pub open spec fn shard_size(self) -> nat {
        (self.max_packet_size - SHARD_HEADER_SIZE) as nat
    }

    /// How many shards a message with parts of these lengths is cut into.
    pub open spec fn shards_count(self, header_len: nat, payload_len: nat) -> nat {
        chunk_count(header_len, self.shard_size()) + chunk_count(payload_len, self.shard_size())
    }

    /// Whether a message with parts of these lengths can be sent: a datagram has room for data,
    /// and all the datagrams together fit in one allocation.
    pub open spec fn can_carry(self, header_len: nat, payload_len: nat) -> bool {
        &&& self.max_packet_size > SHARD_HEADER_SIZE
        &&& header_len + payload_len + self.shards_count(header_len, payload_len)
            * SHARD_HEADER_SIZE <= isize::MAX
    }

    /// The datagrams of the next message.
    pub open spec fn datagrams(self, header: Seq<u8>, payload: Seq<u8>) -> Seq<Seq<u8>> {
        packet_datagrams(
            self.stream_id,
            self.next_packet_index,
            message_shards(header, payload, self.shard_size()),
        )
    }

    /// The state once a message has gone out. The index starts over at 0 when it overflows.
    pub open spec fn after_message(self) -> SenderState {
        SenderState { next_packet_index: self.next_packet_index.wrapping_add(1), ..self }
    }

    /// The state once the datagrams of a message were flushed or not.
    pub open spec fn after_flush(self, flushed: Result<(), String>) -> SenderState {
        if flushed is Ok {
            self.after_message()
        } else {
            self
        }
    }

    /// The state once this many messages have gone out.
    pub open spec fn after_messages(self, messages: nat) -> SenderState
        decreases messages,
    {
        if messages == 0 {
            self
        } else {
            self.after_messages((messages - 1) as nat).after_message()
        }
    }
}

/// A message is cut into as many datagrams as its parts have pieces.
pub proof fn law_datagram_count(sender: SenderState, header: Seq<u8>, payload: Seq<u8>)
    requires
        sender.max_packet_size > SHARD_HEADER_SIZE,
    ensures
        sender.datagrams(header, payload).len() == sender.shards_count(
            header.len(),
            payload.len(),
        ),
{
    lemma_chunks_len(header, sender.shard_size());
    lemma_chunks_len(payload, sender.shard_size());
}

/// Messages are numbered from 0 on, modulo the range of the index: each datagram of a message
/// carries the number of messages that went out before it.
pub proof fn law_messages_are_numbered(
    sender: SenderState,
    messages: nat,
    header: Seq<u8>,
    payload: Seq<u8>,
    i: int,
)
    requires
        sender.next_packet_index == 0,
        0 <= i < sender.after_messages(messages).datagrams(header, payload).len(),
    ensures
        ({
            let shards = message_shards(header, payload, sender.shard_size());
            sender.after_messages(messages).datagrams(header, payload)[i] == datagram(
                sender.stream_id,
                (messages % 0x1_0000_0000) as u32,
                shards.len() as u32,
                i as u32,
                shards[i],
            )
        }),
{
    lemma_after_messages(sender, messages);
}

proof fn lemma_after_messages(sender: SenderState, messages: nat)
    requires
        sender.next_packet_index == 0,
    ensures
        sender.after_messages(messages) == (SenderState {
            next_packet_index: (messages % 0x1_0000_0000) as u32,
            ..sender
        }),
    decreases messages,
{
    if messages > 0 {
        lemma_after_messages(sender, (messages - 1) as nat);
    }
}

/// The sending end of one stream.
pub struct StreamSender {
    stream_id: u16,
    max_packet_size: usize,
    // if the packet index overflows the worst that happens is a false positive packet loss
    next_packet_index: u32,
}

impl View for StreamSender {
    type V = SenderState;

    closed spec fn view(&self) -> SenderState {
        SenderState {
            stream_id: self.stream_id,
            max_packet_size: self.max_packet_size,
            next_packet_index: self.next_packet_index,
        }
    }
}

impl Clone for StreamSender {
    fn clone(&self) -> (sender: Self)
        ensures
            sender@ == self@,
    {
        StreamSender {
            stream_id: self.stream_id,
            max_packet_size: self.max_packet_size,
            next_packet_index: self.next_packet_index,
        }
    }
}

impl StreamSender {
    /// A sender whose datagrams are at most `max_packet_size` bytes long.
    pub fn new(stream_id: u16, max_packet_size: usize) -> (sender: StreamSender)
        ensures
            sender@ == (SenderState { stream_id, max_packet_size, next_packet_index: 0 }),
    {
        StreamSender { stream_id, max_packet_size, next_packet_index: 0 }
    }

    /// Whether a message with parts of these lengths can be sent.
    pub fn can_send(&self, header_len: usize, payload_len: usize) -> (can: bool)
        ensures
            can == self@.can_carry(header_len as nat, payload_len as nat),
    {
        if self.max_packet_size <= SHARD_HEADER_SIZE {
            return false;
        }
        let size: usize = self.max_packet_size - SHARD_HEADER_SIZE;
        let shards: u128 = count_chunks(header_len, size) as u128 + count_chunks(
            payload_len,
            size,
        ) as u128;
        assert(shards <= 2 * u64::MAX);
        let header_size: u128 = SHARD_HEADER_SIZE as u128;
        assert(header_size == 20);
        header_len as u128 + payload_len as u128 + shards * header_size <= isize::MAX as u128
    }

    /// The datagrams that carry a message, in order: the pieces of its serialized header, then
    /// those of its payload, each with the header of a shard in front.
    pub fn send(&self, header: &[u8], payload: &[u8]) -> (datagrams: Vec<BytesMut>)
        requires
            self@.can_carry(header@.len(), payload@.len()),
        ensures
            bytes_of_each(datagrams@) == self@.datagrams(header@, payload@),
    {
        let max_shard_data_size: usize = self.max_packet_size - SHARD_HEADER_SIZE;
        let header_shards: usize = count_chunks(header.len(), max_shard_data_size);
        let payload_shards: usize = count_chunks(payload.len(), max_shard_data_size);
        let ghost size = max_shard_data_size as nat;
        proof {
            lemma_chunks_len(header@, size);
            lemma_chunks_len(payload@, size);
        }
        let total_shards_count: usize = payload_shards + header_shards;
        let mut shards_buffer = BytesMut::with_capacity(
            header.len() + payload.len() + total_shards_count * SHARD_HEADER_SIZE,
        );
        let mut datagrams: Vec<BytesMut> = Vec::new();
        self.put_shards(
            &mut shards_buffer,
            header,
            max_shard_data_size,
            total_shards_count,
            &mut datagrams,
        );
        self.put_shards(
            &mut shards_buffer,
            payload,
            max_shard_data_size,
            total_shards_count,
            &mut datagrams,
        );
        assert(bytes_of_each(datagrams@) =~= self@.datagrams(header@, payload@));
        datagrams
    }

    /// Appends the datagrams of one part of a message.
    fn put_shards(
        &self,
        shards_buffer: &mut BytesMut,
        data: &[u8],
        size: usize,
        total_shards_count: usize,
        datagrams: &mut Vec<BytesMut>,
    )
        requires
            bytes_of(*old(shards_buffer)) == Seq::<u8>::empty(),
            size > 0,
            data@.len() + SHARD_HEADER_SIZE <= isize::MAX || data@.len() == 0,
        ensures
            bytes_of(*final(shards_buffer)) == Seq::<u8>::empty(),
            final(datagrams)@.len() == old(datagrams)@.len() + chunks(data@, size as nat).len(),
            forall|i: int|
                0 <= i < old(datagrams)@.len() ==> #[trigger] final(datagrams)@[i] == old(
                    datagrams,
                )@[i],
            forall|i: int|
                old(datagrams)@.len() <= i < final(datagrams)@.len() ==> bytes_of(
                    #[trigger] final(datagrams)@[i],
                ) == datagram(
                    self@.stream_id,
                    self@.next_packet_index,
                    total_shards_count as u32,
                    i as u32,
                    chunks(data@, size as nat)[i - old(datagrams)@.len()],
                ),
    {
        let ghost start = datagrams@;
        let ghost pieces = chunks(data@, size as nat);
        let mut position: usize = 0;
        assert(data@.skip(0) =~= data@);
        while position < data.len()
            invariant
                position <= data@.len(),
                size > 0,
                data@.len() + SHARD_HEADER_SIZE <= isize::MAX || data@.len() == 0,
                bytes_of(*shards_buffer) == Seq::<u8>::empty(),
                pieces == chunks(data@, size as nat),
                start.len() <= datagrams@.len() <= start.len() + pieces.len(),
                chunks(data@.skip(position as int), size as nat) == pieces.skip(
                    datagrams@.len() - start.len(),
                ),
                forall|i: int|
                    0 <= i < start.len() ==> #[trigger] datagrams@[i] == start[i],
                forall|i: int|
                    start.len() <= i < datagrams@.len() ==> bytes_of(#[trigger] datagrams@[i])
                        == datagram(
                        self@.stream_id,
                        self@.next_packet_index,
                        total_shards_count as u32,
                        i as u32,
                        pieces[i - start.len()],
                    ),
            decreases data@.len() - position,
        {
            let shard_index: usize = datagrams.len();
            let end: usize = if data.len() - position <= size {
                data.len()
            } else {
                position + size
            };
            let shard = slice_subrange(data, position, end);
            let ghost rest = data@.skip(position as int);
            assert(shard@ =~= rest.take(end - position));
            assert(rest.skip(end - position) =~= data@.skip(end as int));
            assert(pieces.skip(shard_index - start.len())[0] == shard@) by {
                assert(rest.take(rest.len() as int) =~= rest);
            }
            assert(pieces.skip(shard_index - start.len()).drop_first() =~= chunks(
                data@.skip(end as int),
                size as nat,
            ));
            assert(pieces.skip(shard_index - start.len()).drop_first() =~= pieces.skip(
                shard_index - start.len() + 1,
            ));
            put_u16(shards_buffer, self.stream_id);
            put_u16(shards_buffer, self.stream_id);
            put_u32(shards_buffer, self.next_packet_index);
            put_u32(shards_buffer, total_shards_count as u32);
            put_u32(shards_buffer, shard_index as u32);
            put_u8(shards_buffer, ECN_MARK_PLACEHOLDER);
            put_u8(shards_buffer, QUEUE_DEPTH_PLACEHOLDER);
            put_u16(shards_buffer, CHANNEL_UTILITY_PLACEHOLDER);
            put_slice(shards_buffer, shard);
            assert(bytes_of(*shards_buffer) =~= datagram(
                self@.stream_id,
                self@.next_packet_index,
                total_shards_count as u32,
                shard_index as u32,
                shard@,
            ));
            datagrams.push(shards_buffer.split());
            position = end;
        }
    }

    /// Takes note of how flushing the datagrams of a message went: only a message that went out
    /// uses up its index.
    pub fn finish_send(&mut self, flushed: Result<(), String>) -> (result: Result<(), String>)
        ensures
            result == flushed,
            final(self)@ == old(self)@.after_flush(flushed),
    {
        if flushed.is_ok() {
            self.next_packet_index = self.next_packet_index.wrapping_add(1);
        }
        flushed
    }
}

/// All the pieces but the last are as long as a piece can be.
pub proof fn law_chunks_are_full(data: Seq<u8>, size: nat, i: int)
    requires
        0 <= i < chunks(data, size).len() - 1,
    ensures
        chunks(data, size)[i].len() == size,
    decreases data.len(),
{
    let rest = data.skip(size as int);
    if i > 0 {
        assert(chunks(data, size)[i] == chunks(rest, size)[i - 1]);
        law_chunks_are_full(rest, size, i - 1);
    }
}

/// There are as few pieces as can hold the data.
pub proof fn law_chunks_are_fewest(data: Seq<u8>, size: nat)
    requires
        size > 0,
    ensures
        data.len() <= chunks(data, size).len() * size,
        data.len() > 0 ==> (chunks(data, size).len() - 1) * size < data.len(),
        data.len() == 0 ==> chunks(data, size).len() == 0,
    decreases data.len(),
{
    let count = chunks(data, size).len();
    if data.len() == 0 {
    } else if data.len() <= size {
        assert(count == 1);
        assert((count - 1) * size == 0 && count * size == size) by (nonlinear_arith)
            requires
                count == 1,
        ;
    } else {
        let rest = data.skip(size as int);
        law_chunks_are_fewest(rest, size);
        assert(count == chunks(rest, size).len() + 1);
        assert(count * size == (count - 1) * size + size) by (nonlinear_arith);
        assert((count - 1) * size == (count - 2) * size + size) by (nonlinear_arith);
        assert(chunks(rest, size).len() - 1 == count - 2);
    }
}

/// The data of each datagram, which is what comes behind its 20 bytes of header.
pub open spec fn data_parts(datagrams: Seq<Seq<u8>>) -> Seq<Seq<u8>> {
    Seq::new(datagrams.len(), |i: int| datagrams[i].skip(20))
}

/// A message is sent header first. The first datagrams carry the header, the others the
/// payload, which starts in a datagram of its own; each but the last of the header and the last
/// of the payload is as long as a datagram can be, and no datagram is empty or longer.
pub proof fn law_datagrams_are_filled(sender: SenderState, header: Seq<u8>, payload: Seq<u8>)
    requires
        sender.max_packet_size > 20,
    ensures
        ({
            let datagrams = sender.datagrams(header, payload);
            let parts = data_parts(datagrams);
            &&& forall|i: int|
                0 <= i < datagrams.len() ==> 20 < (#[trigger] datagrams[i]).len()
                    <= sender.max_packet_size
            &&& exists|n: int|
                {
                    &&& 0 <= n <= datagrams.len()
                    &&& joined(#[trigger] parts.take(n)) == header
                    &&& joined(parts.skip(n)) == payload
                    &&& forall|i: int|
                        0 <= i < datagrams.len() && i != n - 1 && i != datagrams.len() - 1
                            ==> (#[trigger] datagrams[i]).len() == sender.max_packet_size
                }
        }),
{
    let size = sender.shard_size();
    let of_header = chunks(header, size);
    let of_payload = chunks(payload, size);
    let shards = message_shards(header, payload, size);
    let datagrams = sender.datagrams(header, payload);
    let parts = data_parts(datagrams);
    let n = of_header.len() as int;
    law_chunks_join(header, size);
    law_chunks_join(payload, size);
    law_chunk_sizes(header, size);
    law_chunk_sizes(payload, size);
    assert forall|i: int| 0 <= i < datagrams.len() implies #[trigger] parts[i] == shards[i]
        && datagrams[i].len() == 20 + shards[i].len() by {
        assert(datagrams[i].skip(20) =~= shards[i]);
    }
    assert(parts.take(n) =~= of_header);
    assert(parts.skip(n) =~= of_payload);
    assert forall|i: int| 0 <= i < datagrams.len() implies 20 < (#[trigger] datagrams[i]).len()
        <= sender.max_packet_size by {
        assert(parts[i] == shards[i]);
        if i < n {
            assert(shards[i] == of_header[i]);
        } else {
            assert(shards[i] == of_payload[i - n]);
        }
    }
    assert forall|i: int|
        0 <= i < datagrams.len() && i != n - 1 && i != datagrams.len() - 1 implies (
    #[trigger] datagrams[i]).len() == sender.max_packet_size by {
        assert(parts[i] == shards[i]);
        if i < n {
            law_chunks_are_full(header, size, i);
            assert(shards[i] == of_header[i]);
        } else {
            law_chunks_are_full(payload, size, i - n);
            assert(shards[i] == of_payload[i - n]);
        }
    }
}

proof fn lemma_datagrams_len(sender: SenderState, shards: Seq<Seq<u8>>, count: u32, first: int)
    requires
        0 <= first,
    ensures
        joined(
            Seq::new(
                shards.len(),
                |i: int|
                    datagram(
                        sender.stream_id,
                        sender.next_packet_index,
                        count,
                        (first + i) as u32,
                        shards[i],
                    ),
            ),
        ).len() == joined(shards).len() + shards.len() * 20,
    decreases shards.len(),
{
    let datagrams = Seq::new(
        shards.len(),
        |i: int|
            datagram(
                sender.stream_id,
                sender.next_packet_index,
                count,
                (first + i) as u32,
                shards[i],
            ),
    );
    if shards.len() > 0 {
        let rest = shards.drop_first();
        lemma_datagrams_len(sender, rest, count, first + 1);
        assert(datagrams.drop_first() =~= Seq::new(
            rest.len(),
            |i: int|
                datagram(
                    sender.stream_id,
                    sender.next_packet_index,
                    count,
                    (first + 1 + i) as u32,
                    rest[i],
                ),
        ));
        assert(datagrams[0].len() == shards[0].len() + 20);
    }
}

/// A message can be sent exactly where a datagram has room for data behind its 20 bytes of
/// header and all the datagrams of the message together fit in one allocation.
pub proof fn law_what_can_be_sent(sender: SenderState, header: Seq<u8>, payload: Seq<u8>)
    ensures
        sender.can_carry(header.len(), payload.len()) <==> sender.max_packet_size > 20 && joined(
            sender.datagrams(header, payload),
        ).len() <= isize::MAX,
{
    if sender.max_packet_size > 20 {
        let size = sender.shard_size();
        let shards = message_shards(header, payload, size);
        law_datagram_count(sender, header, payload);
        law_message_shards_join(header, payload, size);
        lemma_datagrams_len(sender, shards, shards.len() as u32, 0);
        assert(sender.datagrams(header, payload) =~= Seq::new(
            shards.len(),
            |i: int|
                datagram(
                    sender.stream_id,
                    sender.next_packet_index,
                    shards.len() as u32,
                    (0 + i) as u32,
                    shards[i],
                ),
        ));
    }
}

/// A message that could not be flushed leaves its index to the next one; one that was flushed
/// uses its index up. Whatever happens, the stream and the size of the datagrams stay.
pub proof fn law_flushed_messages_are_counted(sender: SenderState, flushed: Result<(), String>)
    ensures
        flushed is Err ==> sender.after_flush(flushed).next_packet_index
            == sender.next_packet_index,
        flushed is Ok && sender.next_packet_index < u32::MAX ==> sender.after_flush(
            flushed,
        ).next_packet_index == sender.next_packet_index + 1,
        flushed is Ok && sender.next_packet_index == u32::MAX ==> sender.after_flush(
            flushed,
        ).next_packet_index == 0,
        sender.after_flush(flushed).stream_id == sender.stream_id,
        sender.after_flush(flushed).max_packet_size == sender.max_packet_size,
{
}

} // verus!
