//! Putting packets together again from their shards.
use bytes::BytesMut;
use std::collections::HashMap;
use vstd::prelude::*;

use crate::buffer::{as_slice, put_slice};
#[allow(unused_imports)]
use crate::buffer::bytes_of;
#[allow(unused_imports)]
use crate::clock::is_clock_reading;
use crate::clock::read_clock;
use crate::wire::{ShardHeader, VIDEO};
#[allow(unused_imports)]
use crate::wire::{data_of, header_of, holds_header};

verus! {

broadcast use vstd::std_specs::hash::group_hash_axioms;

/// The part `lost / shards` of a packet's shards that were lost.
#[derive(Clone, Copy, Debug, PartialEq, Eq, Structural)]
pub struct LossRate {
    pub lost: i32,
    pub shards: usize,
}

/// When the first and the last shard of a packet arrived, as far as they did and say so.
#[derive(Clone, Copy, Debug, PartialEq, Eq)]
pub struct ShardTimes {
    pub first: Option<i64>,
    pub last: Option<i64>,
}

impl ShardTimes {
    /// The times of a packet of which nothing arrived.
    pub open spec fn none() -> ShardTimes {
        ShardTimes { first: None, last: None }
    }

    /// The times once a shard of the packet arrived: only video shards say when.
    pub open spec fn noting(self, header: ShardHeader) -> ShardTimes {
        ShardTimes {
            first: if header.stream_id == VIDEO && header.shard_index == 0 {
                Some(header.receive_time)
            } else {
                self.first
            },
            last: if header.stream_id == VIDEO && header.shard_index + 1 == header.shards_count {
                Some(header.receive_time)
            } else {
                self.last
            },
        }
    }

    fn note(&mut self, header: &ShardHeader)
        ensures
            *final(self) == old(self).noting(*header),
    {
        if header.stream_id == VIDEO && header.shard_index == 0 {
            self.first = Some(header.receive_time);
        }
        if header.stream_id == VIDEO && header.shards_count > 0 && header.shard_index
            == header.shards_count - 1 {
            self.last = Some(header.receive_time);
        }
    }
}

/// What a receiver buffer holds.
#[verifier::ext_equal]
pub struct BufferState {
    pub message: Seq<u8>,
    pub had_packet_loss: bool,
    pub packet_loss_count: i32,
    pub skipping_loss: bool,
    pub shard_loss_rate: LossRate,
    pub first_packet_receive_time: i64,
    pub last_packet_receive_time: i64,
}

impl BufferState {
    /// A buffer that nothing was received in yet.
    pub open spec fn fresh(first_receive_time: i64, last_receive_time: i64) -> BufferState {
        BufferState {
            message: Seq::empty(),
            had_packet_loss: false,
            packet_loss_count: 0,
            skipping_loss: false,
            shard_loss_rate: LossRate { lost: 0, shards: 1 },
            first_packet_receive_time: first_receive_time,
            last_packet_receive_time: last_receive_time,
        }
    }

    /// The buffer with the times of the packet that is being put together, as far as they are
    /// known.
    pub open spec fn noting_times(self, times: ShardTimes) -> BufferState {
        BufferState {
            first_packet_receive_time: match times.first {
                Some(time) => time,
                None => self.first_packet_receive_time,
            },
            last_packet_receive_time: match times.last {
                Some(time) => time,
                None => self.last_packet_receive_time,
            },
            ..self
        }
    }

    /// The buffer once a packet was given up for a later one.
    pub open spec fn skipping_packet(self) -> BufferState {
        BufferState {
            had_packet_loss: true,
            packet_loss_count: 1,
            skipping_loss: true,
            shard_loss_rate: LossRate { lost: 1, shards: 1 },
            ..self
        }
    }
}

/// A packet that is being put together.
#[verifier::ext_equal]
pub struct AssemblyState {
    pub packet_index: u32,
    pub shards: Map<usize, Seq<u8>>,
    pub shards_count: Option<usize>,
}

/// The first `count` shards of a table, one behind the other.
pub open spec fn assembled(shards: Map<usize, Seq<u8>>, count: nat) -> Seq<u8>
    decreases count,
{
    if count == 0 {
        Seq::empty()
    } else {
        assembled(shards, (count - 1) as nat) + shards[(count - 1) as usize]
    }
}

/// Whether a table holds as many shards as a packet has, from the first on without a gap.
pub open spec fn is_whole(shards: Map<usize, Seq<u8>>, count: Option<usize>) -> bool {
    count matches Some(count) && forall|i: usize| i < count ==> #[trigger] shards.contains_key(i)
}

impl AssemblyState {
    /// Whether all the shards of the packet are there.
    pub open spec fn is_complete(self) -> bool {
        is_whole(self.shards, self.shards_count)
    }

    /// The bytes of the packet.
    pub open spec fn message(self) -> Seq<u8> {
        assembled(self.shards, self.shards_count->0 as nat)
    }

    /// Whether the packet's bytes fit in one allocation.
    pub open spec fn fits(self) -> bool {
        self.message().len() <= isize::MAX
    }

    /// The buffer once the packet was put into it.
    pub open spec fn delivered(self, buffer: BufferState) -> BufferState {
        let count = self.shards_count->0;
        BufferState {
            message: self.message(),
            shard_loss_rate: if count != 0 {
                LossRate { lost: buffer.packet_loss_count, shards: count }
            } else {
                LossRate { lost: 0, shards: 1 }
            },
            ..buffer
        }
    }
}

/// Whether a packet index is that of packet `next` or of one of the packets behind it. Indices
/// start over at 0 when they overflow, so one that lies below `next` by more than half of the
/// range is that of a packet behind it too.
pub open spec fn reaches(packet_index: u32, next: u32) -> bool {
    packet_index >= next || next - packet_index > 0x8000_0000
}

/// What the receiver waits for.
#[derive(Clone, Copy, Debug, PartialEq, Eq, Structural)]
pub enum RecvAction {
    /// The next shard of the stream's queue.
    AwaitShard,
    /// The packet is complete: assemble it.
    Assemble,
    /// The stream's queue is closed and no packet can come out of it.
    Fail,
}

/// What a receiver holds: the shards of the packet that is being put together, and of one packet
/// behind it.
#[verifier::ext_equal]
pub struct ReceiverState {
    pub stream_id: u16,
    pub next_packet_shards: Map<usize, Seq<u8>>,
    pub next_packet_shards_count: Option<usize>,
    pub next_packet_times: ShardTimes,
    pub next_packet_index: u32,
    pub current: Option<AssemblyState>,
}

impl ReceiverState {
    /// A receiver of a stream that nothing arrived at yet.
    pub open spec fn fresh(stream_id: u16) -> ReceiverState {
        ReceiverState {
            stream_id,
            next_packet_shards: Map::empty(),
            next_packet_shards_count: None,
            next_packet_times: ShardTimes::none(),
            next_packet_index: 0,
            current: None,
        }
    }

    /// The receiver once it turned to the next packet. The index starts over at 0 when it
    /// overflows.
    pub open spec fn turned(self) -> ReceiverState {
        ReceiverState {
            next_packet_shards: Map::empty(),
            next_packet_shards_count: None,
            next_packet_times: ShardTimes::none(),
            next_packet_index: self.next_packet_index.wrapping_add(1),
            current: Some(
                AssemblyState {
                    packet_index: self.next_packet_index,
                    shards: self.next_packet_shards,
                    shards_count: self.next_packet_shards_count,
                },
            ),
            ..self
        }
    }

    /// The buffer once a call of the receiver started.
    pub open spec fn buffer_at_start(self, buffer: BufferState) -> BufferState {
        BufferState { had_packet_loss: false, ..buffer }.noting_times(self.next_packet_times)
    }

    /// What the receiver waits for while a packet is being put together.
    pub open spec fn action(self) -> RecvAction {
        if self.current is Some && self.current->0.is_complete() {
            RecvAction::Assemble
        } else {
            RecvAction::AwaitShard
        }
    }

    /// What the receiver reads at the front of a shard.
    pub open spec fn header(self, shard: Seq<u8>) -> ShardHeader {
        header_of(self.stream_id, shard)
    }

    /// Whether a shard belongs to the packet that is being put together.
    pub open spec fn is_current(self, shard: Seq<u8>) -> bool {
        self.header(shard).packet_index == self.current->0.packet_index
    }

    /// Whether a shard belongs to a packet behind the one that is being put together.
    pub open spec fn is_later(self, shard: Seq<u8>) -> bool {
        !self.is_current(shard) && reaches(
            self.header(shard).packet_index,
            self.next_packet_index,
        )
    }

    /// The receiver with a shard of the current packet put in its place.
    pub open spec fn with_current_shard(self, shard: Seq<u8>) -> ReceiverState {
        let header = self.header(shard);
        ReceiverState {
            current: Some(
                AssemblyState {
                    shards: self.current->0.shards.insert(
                        header.shard_index,
                        data_of(self.stream_id, shard),
                    ),
                    shards_count: Some(header.shards_count),
                    ..self.current->0
                },
            ),
            ..self
        }
    }

    /// The receiver with nothing of the packet behind the current one, if a shard shows that
    /// packet to be another one.
    pub open spec fn making_room(self, shard: Seq<u8>) -> ReceiverState {
        if self.header(shard).packet_index == self.next_packet_index {
            self
        } else {
            ReceiverState {
                next_packet_shards: Map::empty(),
                next_packet_times: ShardTimes::none(),
                ..self
            }
        }
    }

    /// The receiver with a shard of a later packet kept. Only the shards of one later packet
    /// are kept: those of a packet before it go.
    pub open spec fn with_later_shard(self, shard: Seq<u8>) -> ReceiverState {
        let header = self.header(shard);
        let kept = self.making_room(shard);
        ReceiverState {
            next_packet_shards: kept.next_packet_shards.insert(
                header.shard_index,
                data_of(self.stream_id, shard),
            ),
            next_packet_shards_count: Some(header.shards_count),
            next_packet_times: kept.next_packet_times.noting(header),
            next_packet_index: header.packet_index,
            ..self
        }
    }

    /// Whether all the shards of the later packet are there, and no others.
    pub open spec fn later_is_complete(self) -> bool {
        &&& is_whole(self.next_packet_shards, self.next_packet_shards_count)
        &&& self.next_packet_shards.len() == self.next_packet_shards_count->0
    }

    /// Whether a shard makes the receiver give up the current packet: it completes a later one.
    pub open spec fn skips_on(self, shard: Seq<u8>) -> bool {
        self.is_later(shard) && self.with_later_shard(shard).later_is_complete()
    }

    /// The receiver once a shard arrived.
    pub open spec fn after_shard(self, shard: Seq<u8>) -> ReceiverState {
        if self.is_current(shard) {
            self.with_current_shard(shard)
        } else if self.skips_on(shard) {
            self.with_later_shard(shard).turned()
        } else if self.is_later(shard) {
            self.with_later_shard(shard)
        } else {
            self
        }
    }

    /// The buffer once a shard arrived at the receiver. It carries the times of the packet that
    /// is being put together, and of no other.
    pub open spec fn buffer_after_shard(self, buffer: BufferState, shard: Seq<u8>) -> BufferState {
        if self.is_current(shard) {
            buffer.noting_times(ShardTimes::none().noting(self.header(shard)))
        } else if self.skips_on(shard) {
            buffer.noting_times(
                self.with_later_shard(shard).next_packet_times,
            ).skipping_packet()
        } else {
            buffer
        }
    }

    /// The receiver once the current packet was assembled.
    pub open spec fn after_assembly(self) -> ReceiverState {
        ReceiverState { current: None, ..self }
    }
}

/// The bytes of each shard of a table.
pub open spec fn shard_bytes(shards: Map<usize, BytesMut>) -> Map<usize, Seq<u8>> {
    shards.map_values(|shard: BytesMut| bytes_of(shard))
}

proof fn lemma_shard_bytes_insert(shards: Map<usize, BytesMut>, index: usize, shard: BytesMut)
    ensures
        shard_bytes(shards.insert(index, shard)) == shard_bytes(shards).insert(
            index,
            bytes_of(shard),
        ),
{
    assert(shard_bytes(shards.insert(index, shard)) =~= shard_bytes(shards).insert(
        index,
        bytes_of(shard),
    ));
}

proof fn lemma_shard_bytes_len(shards: Map<usize, BytesMut>)
    ensures
        shard_bytes(shards).len() == shards.len(),
        shard_bytes(Map::<usize, BytesMut>::empty()) == Map::<usize, Seq<u8>>::empty(),
{
    assert(shard_bytes(shards).dom() =~= shards.dom());
    assert(shard_bytes(Map::<usize, BytesMut>::empty()) =~= Map::<usize, Seq<u8>>::empty());
}

proof fn lemma_assembled_grows(shards: Map<usize, Seq<u8>>, less: nat, more: nat)
    requires
        less <= more,
    ensures
        assembled(shards, less).len() <= assembled(shards, more).len(),
    decreases more,
{
    if less < more {
        lemma_assembled_grows(shards, less, (more - 1) as nat);
    }
}

/// A set that holds all the indices below a bound has at least so many elements.
pub proof fn lemma_indices_above(indices: Set<usize>, bound: usize)
    requires
        indices.finite(),
        forall|i: usize| i < bound ==> #[trigger] indices.contains(i),
    ensures
        indices.len() >= bound,
    decreases bound,
{
    if bound > 0 {
        let last = (bound - 1) as usize;
        let fewer = indices.remove(last);
        assert(indices.contains(last));
        assert forall|i: usize| i < last implies #[trigger] fewer.contains(i) by {
            assert(indices.contains(i));
        }
        lemma_indices_above(fewer, last);
    }
}

/// A set of indices below a bound has at most so many elements.
pub proof fn lemma_indices_below(indices: Set<usize>, bound: nat)
    requires
        forall|i: usize| #[trigger] indices.contains(i) ==> i < bound,
    ensures
        indices.finite(),
        indices.len() <= bound,
    decreases bound,
{
    if bound == 0 {
        assert(indices =~= Set::empty());
    } else {
        let last = (bound - 1) as usize;
        if indices.contains(last) {
            let fewer = indices.remove(last);
            assert forall|i: usize| #[trigger] fewer.contains(i) implies i < bound - 1 by {
                assert(indices.contains(i));
            }
            lemma_indices_below(fewer, (bound - 1) as nat);
            assert(indices =~= fewer.insert(last));
        } else {
            assert forall|i: usize| #[trigger] indices.contains(i) implies i < bound - 1 by {
                assert(i != last);
            }
            lemma_indices_below(indices, (bound - 1) as nat);
        }
    }
}

/// Whether a table holds all the shards of a packet.
fn holds_all(shards: &HashMap<usize, BytesMut>, shards_count: Option<usize>) -> (whole: bool)
    ensures
        whole == is_whole(shard_bytes(shards@), shards_count),
{
    let count: usize = match shards_count {
        Some(count) => count,
        None => {
            return false;
        },
    };
    let ghost table = shard_bytes(shards@);
    proof {
        lemma_shard_bytes_len(shards@);
        if is_whole(table, shards_count) {
            assert forall|i: usize| i < count implies #[trigger] shards@.dom().contains(i) by {
                assert(table.contains_key(i));
            }
            lemma_indices_above(shards@.dom(), count);
        }
    }
    if shards.len() < count {
        return false;
    }
    for index in 0..count
        invariant
            table == shard_bytes(shards@),
            forall|i: usize| i < index ==> #[trigger] table.contains_key(i),
            shards_count == Some(count),
    {
        if !shards.contains_key(&index) {
            assert(!table.contains_key(index));
            return false;
        }
    }
    true
}

/// Where a packet is delivered to, with what is known of its loss and of its arrival.
pub struct ReceiverBuffer {
    inner: BytesMut,
    had_packet_loss: bool,
    pub packet_loss_count: i32,
    pub skipping_loss: bool,
    pub shard_loss_rate: LossRate,
    pub first_packet_receive_time: i64,
    pub last_packet_receive_time: i64,
}

impl View for ReceiverBuffer {
    type V = BufferState;

    closed spec fn view(&self) -> BufferState {
        BufferState {
            message: bytes_of(self.inner),
            had_packet_loss: self.had_packet_loss,
            packet_loss_count: self.packet_loss_count,
            skipping_loss: self.skipping_loss,
            shard_loss_rate: self.shard_loss_rate,
            first_packet_receive_time: self.first_packet_receive_time,
            last_packet_receive_time: self.last_packet_receive_time,
        }
    }
}

impl Default for ReceiverBuffer {
    fn default() -> (buffer: Self)
        ensures
            buffer@ == BufferState::fresh(0, 0),
    {
        ReceiverBuffer::with_receive_times(0, 0)
    }
}

impl ReceiverBuffer {
    /// An empty buffer whose times of arrival are the present.
    pub fn new() -> (buffer: Self)
        ensures
            buffer@ == BufferState::fresh(
                buffer@.first_packet_receive_time,
                buffer@.last_packet_receive_time,
            ),
            is_clock_reading(buffer@.first_packet_receive_time),
            is_clock_reading(buffer@.last_packet_receive_time),
    {
        ReceiverBuffer::with_receive_times(read_clock(), read_clock())
    }

    /// An empty buffer with the given times of arrival.
    pub fn with_receive_times(first_receive_time: i64, last_receive_time: i64) -> (buffer: Self)
        ensures
            buffer@ == BufferState::fresh(first_receive_time, last_receive_time),
    {
        ReceiverBuffer {
            inner: BytesMut::new(),
            had_packet_loss: false,
            packet_loss_count: 0,
            skipping_loss: false,
            shard_loss_rate: LossRate { lost: 0, shards: 1 },
            first_packet_receive_time: first_receive_time,
            last_packet_receive_time: last_receive_time,
        }
    }

    /// Takes the times of the packet that is being put together, as far as they are known.
    fn note(&mut self, times: ShardTimes)
        ensures
            final(self)@ == old(self)@.noting_times(times),
    {
        if let Some(time) = times.first {
            self.first_packet_receive_time = time;
        }
        if let Some(time) = times.last {
            self.last_packet_receive_time = time;
        }
    }

    /// Whether the last call of the receiver gave up a packet.
    pub fn had_packet_loss(&self) -> (lost: bool)
        ensures
            lost == self@.had_packet_loss,
    {
        self.had_packet_loss
    }

    /// How many losses were counted.
    pub fn packet_loss_count(&self) -> (value: i32)
        ensures
            value == self@.packet_loss_count,
    {
        self.packet_loss_count
    }

    /// Whether a packet was ever given up for a later one.
    pub fn skipping_loss(&self) -> (value: bool)
        ensures
            value == self@.skipping_loss,
    {
        self.skipping_loss
    }

    /// The part of the last packet's shards that were lost.
    pub fn shard_loss_rate(&self) -> (value: LossRate)
        ensures
            value == self@.shard_loss_rate,
    {
        self.shard_loss_rate
    }

    /// When the first shard of the last packet arrived, in microseconds.
    pub fn first_packet_receive_time(&self) -> (value: i64)
        ensures
            value == self@.first_packet_receive_time,
    {
        self.first_packet_receive_time
    }

    /// When the last shard of the last packet arrived, in microseconds.
    pub fn last_packet_receive_time(&self) -> (value: i64)
        ensures
            value == self@.last_packet_receive_time,
    {
        self.last_packet_receive_time
    }

    /// The bytes of the packet: a serialized header and the payload behind it.
    pub fn get(&self) -> (message: &[u8])
        ensures
            message@ == self@.message,
    {
        as_slice(&self.inner)
    }
}

/// The packet that is being put together.
struct Assembly {
    packet_index: u32,
    shards: HashMap<usize, BytesMut>,
    shards_count: Option<usize>,
}

impl Assembly {
    spec fn state(self) -> AssemblyState {
        AssemblyState {
            packet_index: self.packet_index,
            shards: shard_bytes(self.shards@),
            shards_count: self.shards_count,
        }
    }

    fn is_complete(&self) -> (complete: bool)
        ensures
            complete == self.state().is_complete(),
    {
        holds_all(&self.shards, self.shards_count)
    }
}

/// What happens to a receiver.
pub enum RecvEvent {
    /// The next packet is asked for.
    Started,
    /// A shard came out of the stream's queue.
    Shard(BytesMut),
    /// The stream's queue was closed.
    Closed,
}

/// The receiving end of one stream. It keeps the shards of two packets at most: if the
/// reordering entropy is too high, packets will never be successfully reconstructed.
pub struct StreamReceiver {
    stream_id: u16,
    next_packet_shards: HashMap<usize, BytesMut>,
    next_packet_shards_count: Option<usize>,
    next_packet_times: ShardTimes,
    next_packet_index: u32,
    current: Option<Assembly>,
}

impl View for StreamReceiver {
    type V = ReceiverState;

    closed spec fn view(&self) -> ReceiverState {
        ReceiverState {
            stream_id: self.stream_id,
            next_packet_shards: shard_bytes(self.next_packet_shards@),
            next_packet_shards_count: self.next_packet_shards_count,
            next_packet_times: self.next_packet_times,
            next_packet_index: self.next_packet_index,
            current: match self.current {
                Some(assembly) => Some(assembly.state()),
                None => None,
            },
        }
    }
}

impl StreamReceiver {
    /// A receiver of a stream, which waits for the packet with index 0.
    pub fn new(stream_id: u16) -> (receiver: Self)
        ensures
            receiver@ == ReceiverState::fresh(stream_id),
    {
        let receiver = StreamReceiver {
            stream_id,
            next_packet_shards: HashMap::new(),
            next_packet_shards_count: None,
            next_packet_times: ShardTimes { first: None, last: None },
            next_packet_index: 0,
            current: None,
        };
        proof {
            lemma_shard_bytes_len(Map::empty());
        }
        receiver
    }

    /// The stream that the receiver reads.
    pub fn stream_id(&self) -> (stream_id: u16)
        ensures
            stream_id == self@.stream_id,
    {
        self.stream_id
    }

    /// Whether a packet is being put together.
    pub fn is_receiving(&self) -> (receiving: bool)
        ensures
            receiving == self@.current is Some,
    {
        self.current.is_some()
    }

    /// Turns to the next packet, whose times go to `buffer`.
    fn turn(&mut self, buffer: &mut ReceiverBuffer)
        ensures
            final(self)@ == old(self)@.turned(),
            final(buffer)@ == old(buffer)@.noting_times(old(self)@.next_packet_times),
    {
        buffer.note(self.next_packet_times);
        self.next_packet_times = ShardTimes { first: None, last: None };
        let current_packet_index: u32 = self.next_packet_index;
        self.next_packet_index = self.next_packet_index.wrapping_add(1);
        let mut shards: HashMap<usize, BytesMut> = HashMap::new();
        std::mem::swap(&mut shards, &mut self.next_packet_shards);
        let shards_count = self.next_packet_shards_count.take();
        self.current = Some(Assembly { packet_index: current_packet_index, shards, shards_count });
        proof {
            lemma_shard_bytes_len(Map::empty());
        }
    }

    /// What the receiver waits for.
    fn pending(&self) -> (action: RecvAction)
        ensures
            action == self@.action(),
    {
        match &self.current {
            Some(assembly) => if assembly.is_complete() {
                RecvAction::Assemble
            } else {
                RecvAction::AwaitShard
            },
            None => RecvAction::AwaitShard,
        }
    }

    /// Takes one step towards the next packet and says what to do for the one after it. A call
    /// starts with `RecvEvent::Started` and goes on with what the stream's queue gives, until
    /// the packet can be assembled or the queue is closed.
    pub fn recv_buffer(&mut self, buffer: &mut ReceiverBuffer, event: RecvEvent) -> (action:
        RecvAction)
        requires
            event matches RecvEvent::Shard(shard) ==> old(self)@.current is Some && holds_header(
                old(self)@.stream_id,
                bytes_of(shard),
            ),
        ensures
            match event {
                RecvEvent::Started => {
                    &&& final(self)@ == old(self)@.turned()
                    &&& final(buffer)@ == old(self)@.buffer_at_start(old(buffer)@)
                    &&& action == final(self)@.action()
                },
                RecvEvent::Shard(shard) => {
                    &&& final(self)@ == old(self)@.after_shard(bytes_of(shard))
                    &&& final(buffer)@ == old(self)@.buffer_after_shard(
                        old(buffer)@,
                        bytes_of(shard),
                    )
                    &&& action == final(self)@.action()
                },
                RecvEvent::Closed => {
                    &&& final(self)@ == (ReceiverState { current: None, ..old(self)@ })
                    &&& final(buffer)@ == old(buffer)@
                    &&& action == RecvAction::Fail
                },
            },
    {
        match event {
            RecvEvent::Started => {
                buffer.had_packet_loss = false;
                self.turn(buffer);
                self.pending()
            },
            RecvEvent::Shard(shard) => {
                self.take_shard(buffer, shard);
                self.pending()
            },
            RecvEvent::Closed => {
                self.current = None;
                RecvAction::Fail
            },
        }
    }

    /// Puts a shard where it belongs.
    fn take_shard(&mut self, buffer: &mut ReceiverBuffer, shard: BytesMut)
        requires
            old(self)@.current is Some,
            holds_header(old(self)@.stream_id, bytes_of(shard)),
        ensures
            final(self)@ == old(self)@.after_shard(bytes_of(shard)),
            final(buffer)@ == old(self)@.buffer_after_shard(old(buffer)@, bytes_of(shard)),
    {
        let ghost queued = bytes_of(shard);
        let mut shard = shard;
        let header = ShardHeader::read(self.stream_id, &mut shard);
        let mut current = self.current.take().unwrap();
        if header.packet_index == current.packet_index {
            let mut times = ShardTimes { first: None, last: None };
            times.note(&header);
            buffer.note(times);
            proof {
                lemma_shard_bytes_insert(current.shards@, header.shard_index, shard);
            }
            current.shards.insert(header.shard_index, shard);
            current.shards_count = Some(header.shards_count);
            self.current = Some(current);
        } else if header.packet_index >= self.next_packet_index || self.next_packet_index
            - header.packet_index > 0x8000_0000 {
            self.current = Some(current);
            if header.packet_index != self.next_packet_index {
                self.next_packet_shards.clear();
                self.next_packet_times = ShardTimes { first: None, last: None };
            }
            proof {
                lemma_shard_bytes_len(self.next_packet_shards@);
                lemma_shard_bytes_insert(self.next_packet_shards@, header.shard_index, shard);
            }
            self.next_packet_shards.insert(header.shard_index, shard);
            self.next_packet_shards_count = Some(header.shards_count);
            self.next_packet_times.note(&header);
            self.next_packet_index = header.packet_index;
            assert(self@ == old(self)@.with_later_shard(queued));
            proof {
                lemma_shard_bytes_len(self.next_packet_shards@);
            }
            if self.next_packet_shards.len() == header.shards_count && holds_all(
                &self.next_packet_shards,
                self.next_packet_shards_count,
            ) {
                buffer.had_packet_loss = true;
                buffer.packet_loss_count = 1;
                buffer.skipping_loss = true;
                buffer.shard_loss_rate = LossRate { lost: 1, shards: 1 };
                self.turn(buffer);
            }
        } else {
            // an old shard
            self.current = Some(current);
        }
    }

    /// Whether the current packet is complete and can be put into a buffer.
    pub fn can_assemble(&self) -> (can: bool)
        ensures
            can == (self@.action() == RecvAction::Assemble && self@.current->0.fits()),
    {
        let assembly = match &self.current {
            Some(assembly) => assembly,
            None => {
                return false;
            },
        };
        if !assembly.is_complete() {
            return false;
        }
        let count: usize = assembly.shards_count.unwrap();
        let ghost shards = shard_bytes(assembly.shards@);
        let mut len: usize = 0;
        for index in 0..count
            invariant
                self@.current is Some,
                self@.current->0.is_complete(),
                shards == shard_bytes(assembly.shards@),
                shards == self@.current->0.shards,
                self@.current->0.shards_count == Some(count),
                len == assembled(shards, index as nat).len(),
                len <= isize::MAX,
        {
            proof {
                lemma_assembled_grows(shards, index as nat + 1, count as nat);
                assert(shards.contains_key(index));
            }
            let shard = assembly.shards.get(&index).unwrap();
            if shard.len() > isize::MAX as usize - len {
                return false;
            }
            len = len + shard.len();
        }
        true
    }

    /// Puts the current packet into `buffer`, which ends the call.
    pub fn assemble(&mut self, buffer: &mut ReceiverBuffer)
        requires
            old(self)@.action() == RecvAction::Assemble,
            old(self)@.current->0.fits(),
        ensures
            final(self)@ == old(self)@.after_assembly(),
            final(buffer)@ == old(self)@.current->0.delivered(old(buffer)@),
    {
        let ghost start_buffer = buffer@;
        let assembly = self.current.take().unwrap();
        let count: usize = assembly.shards_count.unwrap();
        let ghost shards = shard_bytes(assembly.shards@);
        buffer.inner.clear();
        for index in 0..count
            invariant
                shards == shard_bytes(assembly.shards@),
                is_whole(shards, Some(count)),
                assembled(shards, count as nat).len() <= isize::MAX,
                buffer@ == (BufferState {
                    message: assembled(shards, index as nat),
                    ..start_buffer
                }),
        {
            proof {
                lemma_assembled_grows(shards, index as nat + 1, count as nat);
                assert(shards.contains_key(index));
            }
            let shard = assembly.shards.get(&index).unwrap();
            put_slice(&mut buffer.inner, as_slice(shard));
        }
        if count != 0 {
            buffer.shard_loss_rate = LossRate { lost: buffer.packet_loss_count, shards: count };
        } else {
            buffer.shard_loss_rate = LossRate { lost: 0, shards: 1 };
        }
    }
}

} // verus!
