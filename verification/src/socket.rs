//! The streams of one connection: what is sent on them, and which queue a datagram goes to.
use bytes::BytesMut;
use std::collections::HashMap;
use vstd::prelude::*;

use crate::buffer::{as_slice, get_u16, put_i64};
#[allow(unused_imports)]
use crate::buffer::{bytes_of, i64_bytes, i64_from, lemma_i64_reads_back, u16_bytes, u16_from};
#[allow(unused_imports)]
use crate::clock::is_clock_reading;
use crate::clock::read_clock;
use crate::receiver::StreamReceiver;
#[allow(unused_imports)]
use crate::receiver::ReceiverState;
use crate::sender::StreamSender;
#[allow(unused_imports)]
use crate::sender::SenderState;
use crate::wire::{peek_stream_id, VIDEO};

verus! {

broadcast use vstd::std_specs::hash::group_hash_axioms;

/// The transport of the streams.
#[derive(Clone, Copy, Debug, PartialEq, Eq, Structural)]
pub enum SocketProtocol {
    Udp,
    Tcp,
}

/// How large a buffer of the operating system should be.
#[derive(Clone, Copy, Debug, PartialEq, Eq, Structural)]
pub enum SocketBufferSize {
    /// As it is.
    Default,
    /// As large as can be asked for.
    Maximum,
    /// This many bytes.
    Custom(u32),
}

impl SocketBufferSize {
    /// How many bytes to ask for, if any.
    pub open spec fn spec_requested(self) -> Option<usize> {
        match self {
            SocketBufferSize::Default => None,
            SocketBufferSize::Maximum => Some(0xffff_ffff),
            SocketBufferSize::Custom(size) => Some(size as usize),
        }
    }

    /// How many bytes to ask the operating system for, if any.
    pub fn requested(self) -> (size: Option<usize>)
        ensures
            size == self.spec_requested(),
    {
        match self {
            SocketBufferSize::Default => None,
            SocketBufferSize::Maximum => Some(u32::MAX as usize),
            SocketBufferSize::Custom(size) => Some(size as usize),
        }
    }
}

/// What happened while the buffers of a socket are set.
pub enum BufferEvent {
    Started,
    /// The size of the send buffer was asked for, before anything is set.
    InitialSendQueried(Result<(), String>),
    /// The size of the receive buffer was asked for, before anything is set.
    InitialRecvQueried(Result<(), String>),
    SendSet(Result<(), String>),
    /// The new size of the send buffer was asked for.
    SendQueried(Result<(), String>),
    RecvSet(Result<(), String>),
    /// The new size of the receive buffer was asked for.
    RecvQueried(Result<(), String>),
}

/// What is done next to set the buffers of a socket.
pub enum BufferAction {
    QueryInitialSend,
    QueryInitialRecv,
    SetSend(usize),
    QuerySend,
    SetRecv(usize),
    QueryRecv,
    Return(Result<(), String>),
}

/// The receive buffer is set if a size is requested; else there is nothing left to do.
pub open spec fn recv_action(recv: SocketBufferSize) -> BufferAction {
    match recv.spec_requested() {
        Some(size) => BufferAction::SetRecv(size),
        None => BufferAction::Return(Ok(())),
    }
}

/// The send buffer is set if a size is requested; else it is the receive buffer's turn.
pub open spec fn send_action(send: SocketBufferSize, recv: SocketBufferSize) -> BufferAction {
    match send.spec_requested() {
        Some(size) => BufferAction::SetSend(size),
        None => recv_action(recv),
    }
}

/// What is done next to set the buffers of a socket to the requested sizes. A size that cannot
/// be read is an error; one that cannot be set is not.
pub open spec fn spec_buffer_step(
    event: BufferEvent,
    send: SocketBufferSize,
    recv: SocketBufferSize,
) -> BufferAction {
    match event {
        BufferEvent::Started => BufferAction::QueryInitialSend,
        BufferEvent::InitialSendQueried(Ok(())) => BufferAction::QueryInitialRecv,
        BufferEvent::InitialSendQueried(Err(reason)) => BufferAction::Return(Err(reason)),
        BufferEvent::InitialRecvQueried(Ok(())) => send_action(send, recv),
        BufferEvent::InitialRecvQueried(Err(reason)) => BufferAction::Return(Err(reason)),
        BufferEvent::SendSet(Ok(())) => BufferAction::QuerySend,
        BufferEvent::SendSet(Err(_)) => recv_action(recv),
        BufferEvent::SendQueried(Ok(())) => recv_action(recv),
        BufferEvent::SendQueried(Err(reason)) => BufferAction::Return(Err(reason)),
        BufferEvent::RecvSet(Ok(())) => BufferAction::QueryRecv,
        BufferEvent::RecvSet(Err(_)) => BufferAction::Return(Ok(())),
        BufferEvent::RecvQueried(result) => BufferAction::Return(result),
    }
}

fn set_recv(recv: SocketBufferSize) -> (action: BufferAction)
    ensures
        action == recv_action(recv),
{
    match recv.requested() {
        Some(size) => BufferAction::SetRecv(size),
        None => BufferAction::Return(Ok(())),
    }
}

/// One step of setting the buffers of a socket: what to do next.
pub fn buffer_step(
    event: BufferEvent,
    send: SocketBufferSize,
    recv: SocketBufferSize,
) -> (action: BufferAction)
    ensures
        action == spec_buffer_step(event, send, recv),
{
    match event {
        BufferEvent::Started => BufferAction::QueryInitialSend,
        BufferEvent::InitialSendQueried(result) => match result {
            Ok(()) => BufferAction::QueryInitialRecv,
            Err(reason) => BufferAction::Return(Err(reason)),
        },
        BufferEvent::InitialRecvQueried(result) => match result {
            Ok(()) => match send.requested() {
                Some(size) => BufferAction::SetSend(size),
                None => set_recv(recv),
            },
            Err(reason) => BufferAction::Return(Err(reason)),
        },
        BufferEvent::SendSet(result) => match result {
            Ok(()) => BufferAction::QuerySend,
            Err(_) => set_recv(recv),
        },
        BufferEvent::SendQueried(result) => match result {
            Ok(()) => set_recv(recv),
            Err(reason) => BufferAction::Return(Err(reason)),
        },
        BufferEvent::RecvSet(result) => match result {
            Ok(()) => BufferAction::QueryRecv,
            Err(_) => BufferAction::Return(Ok(())),
        },
        BufferEvent::RecvQueried(result) => BufferAction::Return(result),
    }
}

/// The reason for which the size of a buffer could not be read.
pub open spec fn failed_query(event: BufferEvent) -> Option<String> {
    match event {
        BufferEvent::InitialSendQueried(Err(reason)) => Some(reason),
        BufferEvent::InitialRecvQueried(Err(reason)) => Some(reason),
        BufferEvent::SendQueried(Err(reason)) => Some(reason),
        BufferEvent::RecvQueried(Err(reason)) => Some(reason),
        _ => None,
    }
}

/// Setting the buffers fails exactly where a size cannot be read, for the same reason. A send
/// size that is not set leaves the receive size to be set all the same.
pub proof fn law_buffers_fail_on_queries(
    event: BufferEvent,
    send: SocketBufferSize,
    recv: SocketBufferSize,
)
    ensures
        match spec_buffer_step(event, send, recv) {
            BufferAction::Return(Err(reason)) => failed_query(event) == Some(reason),
            _ => failed_query(event) is None,
        },
        event is SendSet && recv.spec_requested() is Some ==> {
            ||| spec_buffer_step(event, send, recv) is QuerySend
            ||| spec_buffer_step(event, send, recv) == BufferAction::SetRecv(
                recv.spec_requested()->0,
            )
        },
{
}

/// A part of a send buffer that is lent out. It belongs behind the header bytes that it was
/// split off from, and goes back there when it is released.
pub struct SendBufferLock<'a> {
    pub header_bytes: &'a mut BytesMut,
    pub buffer_bytes: BytesMut,
}

impl<'a> SendBufferLock<'a> {
    /// Lends out `buffer_bytes`, which belong behind `header_bytes`.
    pub fn new(header_bytes: &'a mut BytesMut, buffer_bytes: BytesMut) -> (lock: Self)
        ensures
            bytes_of(*lock.header_bytes) == bytes_of(*old(header_bytes)),
            *final(header_bytes) == *final(lock.header_bytes),
            lock.buffer_bytes == buffer_bytes,
    {
        SendBufferLock { header_bytes, buffer_bytes }
    }

    /// The bytes that are lent out.
    pub fn deref(&self) -> (buffer: &BytesMut)
        ensures
            *buffer == self.buffer_bytes,
    {
        &self.buffer_bytes
    }

    /// The bytes that are lent out, to be written to.
    pub fn deref_mut(&mut self) -> (buffer: &mut BytesMut)
        ensures
            *buffer == old(self).buffer_bytes,
            final(self).buffer_bytes == *final(buffer),
            final(self).header_bytes == old(self).header_bytes,
    {
        &mut self.buffer_bytes
    }

    /// Puts the bytes back behind the header.
    pub fn release(self)
        requires
            bytes_of(*old(self.header_bytes)).len() + bytes_of(self.buffer_bytes).len() <= isize::MAX,
        ensures
            bytes_of(*final(self.header_bytes)) == bytes_of(*old(self.header_bytes)) + bytes_of(
                self.buffer_bytes,
            ),
    {
        let mut buffer_bytes = self.buffer_bytes;
        self.header_bytes.unsplit(buffer_bytes.split());
    }
}

/// A datagram as it is put into a queue: without the stream id in front and, if the stream is
/// video, with the time of its arrival put at its very beginning.
pub open spec fn queue_entry(packet: Seq<u8>, now: i64) -> Seq<u8> {
    if u16_from(packet) == VIDEO {
        i64_bytes(now) + packet.skip(2)
    } else {
        packet.skip(2)
    }
}

/// Whether a datagram has a stream id and, if the stream is video, room for the time of its
/// arrival.
pub open spec fn routable(packet: Seq<u8>) -> bool {
    &&& packet.len() >= 2
    &&& u16_from(packet) == VIDEO ==> packet.len() + 6 <= isize::MAX
}

/// Puts the time of arrival in front of the bytes of a packet.
pub fn stamp(packet: &mut BytesMut, now: i64)
    requires
        bytes_of(*old(packet)).len() + 8 <= isize::MAX,
    ensures
        bytes_of(*final(packet)) == i64_bytes(now) + bytes_of(*old(packet)),
{
    packet.reserve(8);
    let len: usize = packet.len();
    let tail = packet.split_to(len);
    assert(bytes_of(tail) =~= bytes_of(*old(packet)));
    assert(bytes_of(*packet) =~= Seq::empty());
    put_i64(packet, now);
    assert(bytes_of(*packet) =~= i64_bytes(now));
    packet.extend_from_slice(as_slice(&tail));
}

/// What the streams of a connection share.
#[verifier::ext_equal]
pub struct SocketState<Q> {
    pub max_packet_size: usize,
    pub packet_queues: Map<u16, Q>,
}

impl<Q> SocketState<Q> {
    /// The state once the datagrams of a stream go to `queue`.
    pub open spec fn subscribed(self, stream_id: u16, queue: Q) -> SocketState<Q> {
        SocketState { packet_queues: self.packet_queues.insert(stream_id, queue), ..self }
    }

    /// The queue that a datagram goes to. A datagram that does not come from the peer is
    /// dropped, and so is one of a stream that nobody subscribed to.
    pub open spec fn queue_for(self, from_peer: bool, packet: Seq<u8>) -> Option<Q> {
        if from_peer && self.packet_queues.contains_key(u16_from(packet)) {
            Some(self.packet_queues[u16_from(packet)])
        } else {
            None
        }
    }
}

/// The datagrams that the peer sends on a stream go to whoever subscribed to it last, and
/// subscribing to a stream changes nothing for the others.
pub proof fn law_subscriber_gets_datagrams<Q>(
    state: SocketState<Q>,
    stream_id: u16,
    queue: Q,
    from_peer: bool,
    packet: Seq<u8>,
)
    ensures
        state.subscribed(stream_id, queue).queue_for(from_peer, packet) == (if u16_from(packet)
            != stream_id {
            state.queue_for(from_peer, packet)
        } else if from_peer {
            Some(queue)
        } else {
            None
        }),
        state.subscribed(stream_id, queue).max_packet_size == state.max_packet_size,
{
}

/// The streams of one connection. `Q` is what a queue is written through.
pub struct StreamSocket<Q> {
    max_packet_size: usize,
    packet_queues: HashMap<u16, Q>,
}

impl<Q> View for StreamSocket<Q> {
    type V = SocketState<Q>;

    closed spec fn view(&self) -> SocketState<Q> {
        SocketState { max_packet_size: self.max_packet_size, packet_queues: self.packet_queues@ }
    }
}

impl<Q> StreamSocket<Q> {
    /// A connection with no queues yet.
    pub fn new(max_packet_size: usize) -> (socket: Self)
        ensures
            socket@ == (SocketState { max_packet_size, packet_queues: Map::<u16, Q>::empty() }),
    {
        StreamSocket { max_packet_size, packet_queues: HashMap::new() }
    }

    /// The sending end of a stream.
    pub fn request_stream(&self, stream_id: u16) -> (sender: StreamSender)
        ensures
            sender@ == (SenderState {
                stream_id,
                max_packet_size: self@.max_packet_size,
                next_packet_index: 0,
            }),
    {
        StreamSender::new(stream_id, self.max_packet_size)
    }

    /// The receiving end of a stream, whose datagrams go to `queue` from now on.
    pub fn subscribe_to_stream(&mut self, stream_id: u16, queue: Q) -> (receiver: StreamReceiver)
        ensures
            receiver@ == ReceiverState::fresh(stream_id),
            final(self)@ == old(self)@.subscribed(stream_id, queue),
    {
        self.packet_queues.insert(stream_id, queue);
        StreamReceiver::new(stream_id)
    }

    /// Whether the datagram can be routed.
    pub fn can_route(packet: &BytesMut) -> (can: bool)
        ensures
            can == routable(bytes_of(*packet)),
    {
        packet.len() >= 2 && (peek_stream_id(packet) != VIDEO || packet.len()
            <= isize::MAX as usize - 6)
    }

    /// The queue of a stream.
    fn queue(&self, stream_id: u16) -> (queue: Option<&Q>)
        ensures
            match queue {
                Some(queue) => self@.packet_queues.contains_key(stream_id) && *queue
                    == self@.packet_queues[stream_id],
                None => !self@.packet_queues.contains_key(stream_id),
            },
    {
        self.packet_queues.get(&stream_id)
    }

    /// Which queue a datagram that arrived at time `now` goes to, and what is put there. `None`
    /// where it is dropped.
    pub fn route_at(&self, from_peer: bool, packet: BytesMut, now: i64) -> (entry: Option<
        (&Q, BytesMut),
    >)
        requires
            from_peer ==> routable(bytes_of(packet)),
        ensures
            match entry {
                Some((queue, queued)) => {
                    &&& self@.queue_for(from_peer, bytes_of(packet)) == Some(*queue)
                    &&& bytes_of(queued) == queue_entry(bytes_of(packet), now)
                },
                None => self@.queue_for(from_peer, bytes_of(packet)) is None,
            },
    {
        if !from_peer {
            return None;
        }
        let mut packet = packet;
        let stream_id = get_u16(&mut packet);
        if stream_id == VIDEO {
            stamp(&mut packet, now);
        }
        match self.queue(stream_id) {
            Some(queue) => Some((queue, packet)),
            None => None,
        }
    }

    /// Which queue a datagram that arrives at present goes to, and what is put there. The clock
    /// is read for each video datagram, and for video only: a video datagram is put there with
    /// what the clock said during the call.
    pub fn route(&self, from_peer: bool, packet: BytesMut) -> (entry: Option<(&Q, BytesMut)>)
        requires
            from_peer ==> routable(bytes_of(packet)),
        ensures
            match entry {
                Some((queue, queued)) => {
                    &&& self@.queue_for(from_peer, bytes_of(packet)) == Some(*queue)
                    &&& exists|now: i64|
                        (u16_from(bytes_of(packet)) == VIDEO ==> is_clock_reading(now))
                            && bytes_of(queued) == #[trigger] queue_entry(bytes_of(packet), now)
                },
                None => self@.queue_for(from_peer, bytes_of(packet)) is None,
            },
    {
        if !from_peer {
            return None;
        }
        let now: i64 = if peek_stream_id(&packet) == VIDEO {
            read_clock()
        } else {
            0
        };
        self.route_at(true, packet, now)
    }
}

/// The sizes that the operating system is asked for are those of the settings, to the byte: a
/// custom size as it is, the greatest that 32 bits can hold for the maximum, and none for the
/// default, which leaves the buffer alone.
pub proof fn law_buffers_get_their_sizes(
    event: BufferEvent,
    send: SocketBufferSize,
    recv: SocketBufferSize,
)
    ensures
        event matches BufferEvent::InitialRecvQueried(Ok(_)) ==> match send {
            SocketBufferSize::Custom(size) => spec_buffer_step(event, send, recv) matches
                BufferAction::SetSend(asked) && asked == size,
            SocketBufferSize::Maximum => spec_buffer_step(event, send, recv) matches
                BufferAction::SetSend(asked) && asked == u32::MAX,
            SocketBufferSize::Default => !(spec_buffer_step(event, send, recv) is SetSend),
        },
        (event matches BufferEvent::SendSet(Err(_))) || (event matches BufferEvent::SendQueried(
            Ok(_),
        )) || (event matches BufferEvent::InitialRecvQueried(Ok(_)) && send is Default)
            ==> match recv {
            SocketBufferSize::Custom(size) => spec_buffer_step(event, send, recv) matches
                BufferAction::SetRecv(asked) && asked == size,
            SocketBufferSize::Maximum => spec_buffer_step(event, send, recv) matches
                BufferAction::SetRecv(asked) && asked == u32::MAX,
            SocketBufferSize::Default => spec_buffer_step(event, send, recv) matches
                BufferAction::Return(Ok(_)),
        },
        spec_buffer_step(event, send, recv) is SetSend ==> (event matches
            BufferEvent::InitialRecvQueried(Ok(_))),
{
}

/// A size that was set is read, one that could not be set is not, and neither keeps the other
/// buffer from its turn. Whatever the reason of a failure, it changes nothing but the reason.
pub proof fn law_buffers_are_set_in_turn(
    event: BufferEvent,
    send: SocketBufferSize,
    recv: SocketBufferSize,
)
    ensures
        event is Started <==> spec_buffer_step(event, send, recv) is QueryInitialSend,
        (event matches BufferEvent::InitialSendQueried(Ok(_))) <==> spec_buffer_step(
            event,
            send,
            recv,
        ) is QueryInitialRecv,
        (event matches BufferEvent::SendSet(Ok(_))) <==> spec_buffer_step(
            event,
            send,
            recv,
        ) is QuerySend,
        (event matches BufferEvent::RecvSet(Ok(_))) <==> spec_buffer_step(
            event,
            send,
            recv,
        ) is QueryRecv,
        (event matches BufferEvent::RecvSet(Err(_))) || (event matches BufferEvent::RecvQueried(
            Ok(_),
        )) ==> (spec_buffer_step(event, send, recv) matches BufferAction::Return(Ok(_))),
{
}

/// Routing leaves the bytes of a datagram alone but for the stream id in front, which it takes
/// off, and the time of arrival, which it puts in front of video, whatever the datagram holds.
pub proof fn law_routing_keeps_bytes(packet: Seq<u8>, now: i64)
    requires
        packet.len() >= 2,
    ensures
        u16_from(packet) != 3 ==> u16_bytes(u16_from(packet)) + queue_entry(packet, now) == packet,
        u16_from(packet) == 3 ==> {
            &&& queue_entry(packet, now).len() == packet.len() + 6
            &&& i64_from(queue_entry(packet, now)) == now
            &&& u16_bytes(3) + queue_entry(packet, now).skip(8) == packet
        },
{
    let id = u16_from(packet);
    assert(u16_bytes(id) =~= packet.take(2));
    assert(packet =~= packet.take(2) + packet.skip(2));
    if id == 3 {
        lemma_i64_reads_back(now, packet.skip(2));
        assert(queue_entry(packet, now).skip(8) =~= packet.skip(2));
    }
}

/// Any datagram with a stream id can be routed, unless the time of arrival makes it longer than
/// an allocation can be.
pub proof fn law_what_can_be_routed(packet: Seq<u8>)
    ensures
        routable(packet) <==> packet.len() >= 2 && (u16_from(packet) == 3 ==> packet.len() + 6
            <= isize::MAX),
{
}

/// A datagram of a stranger goes nowhere, and one of the peer goes to the queue that is kept
/// for its stream, if there is one.
pub proof fn law_datagrams_find_their_queue<Q>(state: SocketState<Q>, packet: Seq<u8>)
    ensures
        state.queue_for(false, packet) is None,
        state.queue_for(true, packet) is Some <==> state.packet_queues.contains_key(
            u16_from(packet),
        ),
        state.queue_for(true, packet) is Some ==> state.queue_for(true, packet)->0
            == state.packet_queues[u16_from(packet)],
{
}

} // verus!
