//! Which video packets are shown, and what is reported of them.
use vstd::prelude::*;

verus! {

/// How much time the packet loss is counted over, in nanoseconds.
pub const LOSS_WINDOW_NANOS: u128 = 300_000_000;

/// The decoder could not take the packet.
pub const DECODER_SATURATION: i32 = 1;

/// The packet was dropped while a key frame is waited for.
pub const WAITING_FOR_IDR: i32 = 2;

/// The network lost packets.
pub const NETWORK_DROP: i32 = 3;

/// The part `lost / total` of the packets that were lost.
#[derive(Clone, Copy, Debug, PartialEq, Eq, Structural)]
pub struct PacketLossRate {
    pub lost: i32,
    pub total: i32,
}

/// What is known of a video packet once it is delivered.
#[derive(Clone, Copy, Debug, PartialEq, Eq, Structural)]
pub struct VideoPacket {
    /// Whether the client is in the foreground.
    pub resumed: bool,
    /// Whether statistics are collected.
    pub statistics: bool,
    /// Whether the packet is a key frame.
    pub is_idr: bool,
    /// Whether packets or parts of packets were lost on the way to this one.
    pub had_packet_loss: bool,
    /// How long ago the packet loss was last reported, in nanoseconds.
    pub elapsed_nanos: u128,
}

/// What is done about a video packet. Reports are made where statistics are collected, and
/// requests where the control connection stands.
#[derive(Clone, Copy, Debug, PartialEq, Eq, Structural)]
pub enum VideoAction {
    /// Report when the packet arrived, and how large it is.
    ReportReceived,
    /// Report which part of its shards was lost.
    ReportShardLoss,
    /// Report that it is a key frame.
    ReportIdr,
    /// Ask the streamer for a key frame.
    RequestIdr,
    /// Report why the picture is not what it should be.
    ReportBugReason(i32),
    /// Report the packet loss, and start to count anew.
    ReportPacketLoss(PacketLossRate),
    /// Hand the packet to the decoder.
    PushNal,
    /// End the stream.
    Stop,
}

/// What is known of a video stream.
pub struct VideoState {
    pub stream_corrupted: bool,
    pub total_packets: i32,
    pub lost_packets: i32,
    pub avoid_video_glitching: bool,
}

impl VideoState {
    /// Whether the counters have room for a packet.
    pub open spec fn can_count(self, packet: VideoPacket) -> bool {
        packet.resumed ==> {
            &&& packet.statistics ==> self.total_packets < i32::MAX
            &&& packet.had_packet_loss && !packet.is_idr ==> self.lost_packets < i32::MAX
        }
    }

    /// The state with a packet counted: a key frame mends the stream, a loss before any other
    /// packet corrupts it.
    pub open spec fn counting(self, packet: VideoPacket) -> VideoState {
        VideoState {
            stream_corrupted: !packet.is_idr && (packet.had_packet_loss || self.stream_corrupted),
            total_packets: if packet.statistics {
                (self.total_packets + 1) as i32
            } else {
                self.total_packets
            },
            lost_packets: if packet.had_packet_loss && !packet.is_idr {
                (self.lost_packets + 1) as i32
            } else {
                self.lost_packets
            },
            ..self
        }
    }

    /// The part of the packets counted so far that were lost.
    pub open spec fn packet_loss_rate(self) -> PacketLossRate {
        if self.total_packets != 0 {
            PacketLossRate { lost: self.lost_packets, total: self.total_packets }
        } else {
            PacketLossRate { lost: 0, total: 1 }
        }
    }

    /// Whether packets are shown: never while the stream is corrupted, if glitches are avoided.
    pub open spec fn shows(self) -> bool {
        !self.stream_corrupted || !self.avoid_video_glitching
    }

    /// The state once a packet was taken.
    pub open spec fn after_packet(self, packet: VideoPacket) -> VideoState {
        if !packet.resumed {
            self
        } else if packet.elapsed_nanos >= LOSS_WINDOW_NANOS {
            VideoState { total_packets: 0, lost_packets: 0, ..self.counting(packet) }
        } else {
            self.counting(packet)
        }
    }

    /// What is done about a packet, in order.
    pub open spec fn actions(self, packet: VideoPacket) -> Seq<VideoAction> {
        let counted = self.counting(packet);
        if !packet.resumed {
            seq![VideoAction::Stop]
        } else {
            seq![VideoAction::ReportReceived] + (if packet.had_packet_loss {
                seq![VideoAction::ReportShardLoss]
            } else {
                seq![]
            }) + (if packet.is_idr {
                seq![VideoAction::ReportIdr]
            } else if packet.had_packet_loss {
                seq![VideoAction::RequestIdr, VideoAction::ReportBugReason(NETWORK_DROP)]
            } else {
                seq![]
            }) + (if packet.elapsed_nanos >= LOSS_WINDOW_NANOS {
                seq![VideoAction::ReportPacketLoss(counted.packet_loss_rate())]
            } else {
                seq![]
            }) + (if counted.shows() {
                seq![VideoAction::PushNal]
            } else {
                seq![VideoAction::ReportBugReason(WAITING_FOR_IDR)]
            })
        }
    }

    /// The state once the decoder took a packet or not.
    pub open spec fn after_push(self, accepted: bool) -> VideoState {
        VideoState { stream_corrupted: self.stream_corrupted || !accepted, ..self }
    }

    /// The state once a packet was taken and, if it is shown, handed to the decoder.
    pub open spec fn after_frame(self, frame: Frame) -> VideoState {
        let taken = self.after_packet(frame.packet);
        if taken.shows() {
            taken.after_push(frame.accepted)
        } else {
            taken
        }
    }

    /// The state once all the packets were taken.
    pub open spec fn after_frames(self, frames: Seq<Frame>) -> VideoState
        decreases frames.len(),
    {
        if frames.len() == 0 {
            self
        } else {
            self.after_frames(frames.drop_last()).after_frame(frames.last())
        }
    }
}

/// A packet, and whether the decoder would take it.
pub struct Frame {
    pub packet: VideoPacket,
    pub accepted: bool,
}

/// What is done about a packet that the decoder took or not, in order.
pub open spec fn push_actions(accepted: bool) -> Seq<VideoAction> {
    if accepted {
        seq![]
    } else {
        seq![VideoAction::RequestIdr, VideoAction::ReportBugReason(DECODER_SATURATION)]
    }
}

/// A video stream as it is received.
pub struct VideoStream {
    stream_corrupted: bool,
    total_packets: i32,
    lost_packets: i32,
    avoid_video_glitching: bool,
}

impl View for VideoStream {
    type V = VideoState;

    closed spec fn view(&self) -> VideoState {
        VideoState {
            stream_corrupted: self.stream_corrupted,
            total_packets: self.total_packets,
            lost_packets: self.lost_packets,
            avoid_video_glitching: self.avoid_video_glitching,
        }
    }
}

impl VideoStream {
    /// A stream that nothing was received of yet.
    pub fn new(avoid_video_glitching: bool) -> (stream: Self)
        ensures
            stream@ == (VideoState {
                stream_corrupted: false,
                total_packets: 0,
                lost_packets: 0,
                avoid_video_glitching,
            }),
    {
        VideoStream {
            stream_corrupted: false,
            total_packets: 0,
            lost_packets: 0,
            avoid_video_glitching,
        }
    }

    /// Whether the counters have room for a packet.
    pub fn can_count(&self, packet: VideoPacket) -> (can: bool)
        ensures
            can == self@.can_count(packet),
    {
        !packet.resumed || ((!packet.statistics || self.total_packets < i32::MAX) && (
        !packet.had_packet_loss || packet.is_idr || self.lost_packets < i32::MAX))
    }

    /// Takes a packet, and says what to do about it, in order.
    pub fn on_packet(&mut self, packet: VideoPacket) -> (actions: Vec<VideoAction>)
        requires
            old(self)@.can_count(packet),
        ensures
            actions@ == old(self)@.actions(packet),
            final(self)@ == old(self)@.after_packet(packet),
    {
        let mut actions: Vec<VideoAction> = Vec::new();
        if !packet.resumed {
            actions.push(VideoAction::Stop);
            return actions;
        }
        if packet.statistics {
            self.total_packets = self.total_packets + 1;
        }
        actions.push(VideoAction::ReportReceived);
        if packet.had_packet_loss {
            actions.push(VideoAction::ReportShardLoss);
        }
        if packet.is_idr {
            actions.push(VideoAction::ReportIdr);
            self.stream_corrupted = false;
        } else if packet.had_packet_loss {
            self.stream_corrupted = true;
            self.lost_packets = self.lost_packets + 1;
            actions.push(VideoAction::RequestIdr);
            actions.push(VideoAction::ReportBugReason(NETWORK_DROP));
        }
        assert(self@ == old(self)@.counting(packet));
        if packet.elapsed_nanos >= LOSS_WINDOW_NANOS {
            let rate = if self.total_packets != 0 {
                PacketLossRate { lost: self.lost_packets, total: self.total_packets }
            } else {
                PacketLossRate { lost: 0, total: 1 }
            };
            actions.push(VideoAction::ReportPacketLoss(rate));
            self.total_packets = 0;
            self.lost_packets = 0;
        }
        if !self.stream_corrupted || !self.avoid_video_glitching {
            actions.push(VideoAction::PushNal);
        } else {
            actions.push(VideoAction::ReportBugReason(WAITING_FOR_IDR));
        }
        assert(actions@ =~= old(self)@.actions(packet));
        actions
    }

    /// Takes note of whether the decoder took a packet, and says what to do about it, in order.
    pub fn on_pushed(&mut self, accepted: bool) -> (actions: Vec<VideoAction>)
        ensures
            actions@ == push_actions(accepted),
            final(self)@ == old(self)@.after_push(accepted),
    {
        let mut actions: Vec<VideoAction> = Vec::new();
        if !accepted {
            self.stream_corrupted = true;
            actions.push(VideoAction::RequestIdr);
            actions.push(VideoAction::ReportBugReason(DECODER_SATURATION));
        }
        actions
    }
}

/// A corrupted stream is corrupted until a key frame arrives, whatever else does.
pub proof fn law_corrupted_until_idr(state: VideoState, packet: VideoPacket)
    requires
        state.stream_corrupted,
    ensures
        packet.resumed ==> state.after_packet(packet).stream_corrupted == !packet.is_idr,
        !packet.resumed ==> state.after_packet(packet) == state,
        forall|accepted: bool| #[trigger] state.after_push(accepted) == state,
{
}

/// Where glitches are avoided, the decoder is handed no packet other than a key frame while the
/// stream is corrupted or right after a loss. It is handed every key frame, and every packet
/// where glitches are not avoided.
pub proof fn law_no_glitches(state: VideoState, packet: VideoPacket)
    requires
        packet.resumed,
    ensures
        packet.is_idr ==> state.actions(packet).contains(VideoAction::PushNal),
        state.avoid_video_glitching && !packet.is_idr && (state.stream_corrupted
            || packet.had_packet_loss) ==> !state.actions(packet).contains(VideoAction::PushNal),
        !state.avoid_video_glitching ==> state.actions(packet).contains(VideoAction::PushNal),
{
    let actions = state.actions(packet);
    if state.counting(packet).shows() {
        assert(actions.last() == VideoAction::PushNal);
    } else {
        assert forall|i: int| 0 <= i < actions.len() implies actions[i] != VideoAction::PushNal by {
        }
    }
}

/// A key frame is asked for exactly when a packet other than a key frame comes after a loss, and
/// when the decoder does not take a packet.
pub proof fn law_idr_is_requested(state: VideoState, packet: VideoPacket, accepted: bool)
    ensures
        state.actions(packet).contains(VideoAction::RequestIdr) <==> packet.resumed
            && packet.had_packet_loss && !packet.is_idr,
        push_actions(accepted).contains(VideoAction::RequestIdr) <==> !accepted,
{
    let actions = state.actions(packet);
    if packet.resumed && packet.had_packet_loss && !packet.is_idr {
        assert(actions[2] == VideoAction::RequestIdr);
    }
    if !accepted {
        assert(push_actions(accepted)[0] == VideoAction::RequestIdr);
    }
}

/// Whether the decoder is handed the packet with index `i` of those that are taken.
pub open spec fn is_shown(state: VideoState, frames: Seq<Frame>, i: int) -> bool {
    state.after_frames(frames.take(i)).actions(frames[i].packet).contains(VideoAction::PushNal)
}

/// Whether the packet with index `j` leaves the ones behind it without what they build on: a
/// loss came before it and it is no key frame, or the decoder did not take it.
pub open spec fn breaks(state: VideoState, frames: Seq<Frame>, j: int) -> bool {
    ||| frames[j].packet.had_packet_loss && !frames[j].packet.is_idr
    ||| is_shown(state, frames, j) && !frames[j].accepted
}

/// Whether none of the packets from index `from` on and before index `to` is a key frame.
pub open spec fn no_idr(frames: Seq<Frame>, from: int, to: int) -> bool {
    forall|k: int| from <= k < to ==> !(#[trigger] frames[k]).packet.is_idr
}

/// Whether the stream is broken after the first `n` packets: one of them broke it, and no key
/// frame came since.
pub open spec fn broken(state: VideoState, frames: Seq<Frame>, n: int) -> bool {
    exists|j: int| 0 <= j < n && #[trigger] breaks(state, frames, j) && no_idr(frames, j + 1, n)
}

/// Over any packets that a stream is made of, one is withheld from the decoder exactly where
/// glitches are avoided and a loss or a refusal of the decoder came since the last key frame. A
/// loss right before the packet counts, unless it is a key frame itself.
pub proof fn law_frames_are_withheld(state: VideoState, frames: Seq<Frame>, i: int)
    requires
        !state.stream_corrupted,
        forall|k: int| 0 <= k < frames.len() ==> (#[trigger] frames[k]).packet.resumed,
        0 <= i < frames.len(),
    ensures
        !is_shown(state, frames, i) <==> state.avoid_video_glitching
            && !frames[i].packet.is_idr && (frames[i].packet.had_packet_loss || broken(
            state,
            frames,
            i,
        )),
{
    lemma_corrupted_is_broken(state, frames, i);
    let before = state.after_frames(frames.take(i));
    law_no_glitches(before, frames[i].packet);
    if before.counting(frames[i].packet).shows() {
        assert(before.actions(frames[i].packet).last() == VideoAction::PushNal);
    }
}

proof fn lemma_corrupted_is_broken(state: VideoState, frames: Seq<Frame>, n: int)
    requires
        !state.stream_corrupted,
        forall|k: int| 0 <= k < frames.len() ==> (#[trigger] frames[k]).packet.resumed,
        0 <= n <= frames.len(),
    ensures
        state.after_frames(frames.take(n)).stream_corrupted <==> broken(state, frames, n),
        state.after_frames(frames.take(n)).avoid_video_glitching == state.avoid_video_glitching,
    decreases n,
{
    if n > 0 {
        let m = n - 1;
        lemma_corrupted_is_broken(state, frames, m);
        let frame = frames[m];
        let before = state.after_frames(frames.take(m));
        assert(frames.take(n).drop_last() =~= frames.take(m));
        assert(frames.take(n).last() == frame);
        let after = before.after_frame(frame);
        assert(state.after_frames(frames.take(n)) == after);
        let actions = before.actions(frame.packet);
        if before.counting(frame.packet).shows() {
            assert(actions.last() == VideoAction::PushNal);
        }
        law_no_glitches(before, frame.packet);
        assert(is_shown(state, frames, m) == before.counting(frame.packet).shows());
        if after.stream_corrupted {
            if breaks(state, frames, m) {
                assert(no_idr(frames, m + 1, n));
            } else {
                let j = choose|j: int|
                    0 <= j < m && #[trigger] breaks(state, frames, j) && no_idr(frames, j + 1, m);
                assert(no_idr(frames, j + 1, n));
            }
            assert(broken(state, frames, n));
        }
        if broken(state, frames, n) {
            let j = choose|j: int|
                0 <= j < n && #[trigger] breaks(state, frames, j) && no_idr(frames, j + 1, n);
            if j < m {
                assert(no_idr(frames, j + 1, m));
                assert(!frames[m].packet.is_idr);
                assert(broken(state, frames, m));
            }
        }
    } else {
        assert(frames.take(0).len() == 0);
    }
}

/// While statistics are collected, no more packets are lost than counted, so that the reported
/// loss lies between nothing and everything.
pub proof fn law_loss_rate_is_a_part(state: VideoState, packet: VideoPacket)
    requires
        state.can_count(packet),
        0 <= state.lost_packets <= state.total_packets,
        packet.statistics,
    ensures
        0 <= state.after_packet(packet).lost_packets <= state.after_packet(packet).total_packets,
        forall|accepted: bool|
            0 <= #[trigger] state.after_push(accepted).lost_packets <= state.after_push(
                accepted,
            ).total_packets,
        packet.resumed ==> {
            let rate = state.counting(packet).packet_loss_rate();
            0 <= rate.lost <= rate.total && rate.total > 0
        },
{
}

/// The place of an action among those about one packet.
pub open spec fn place(action: VideoAction) -> int {
    match action {
        VideoAction::Stop => 0,
        VideoAction::ReportReceived => 1,
        VideoAction::ReportShardLoss => 2,
        VideoAction::ReportIdr => 3,
        VideoAction::RequestIdr => 4,
        VideoAction::ReportBugReason(reason) => if reason == 3 {
            5
        } else {
            7
        },
        VideoAction::ReportPacketLoss(_) => 6,
        VideoAction::PushNal => 8,
    }
}

/// What is done about a packet depends on the packet alone, but for whether it is shown: its
/// arrival is always reported, the loss before it where there is one, a key frame as such, a
/// drop of the network where a packet builds on what was lost, and the packet loss where 300 ms
/// have passed. It is either handed to the decoder or reported as dropped. All of this is done
/// in a fixed order, and nothing twice.
pub proof fn law_what_is_done(state: VideoState, packet: VideoPacket)
    requires
        packet.resumed,
    ensures
        ({
            let actions = state.actions(packet);
            &&& forall|i: int, j: int|
                0 <= i < j < actions.len() ==> place(#[trigger] actions[i]) < place(
                    #[trigger] actions[j],
                )
            &&& actions.contains(VideoAction::ReportReceived)
            &&& actions.contains(VideoAction::ReportShardLoss) <==> packet.had_packet_loss
            &&& actions.contains(VideoAction::ReportIdr) <==> packet.is_idr
            &&& actions.contains(VideoAction::RequestIdr) <==> packet.had_packet_loss
                && !packet.is_idr
            &&& actions.contains(VideoAction::ReportBugReason(3)) <==> packet.had_packet_loss
                && !packet.is_idr
            &&& actions.contains(VideoAction::ReportBugReason(2)) <==> !actions.contains(
                VideoAction::PushNal,
            )
            &&& forall|reason: i32|
                #[trigger] actions.contains(VideoAction::ReportBugReason(reason)) ==> reason == 2
                    || reason == 3
            &&& forall|rate: PacketLossRate|
                #[trigger] actions.contains(VideoAction::ReportPacketLoss(rate))
                    ==> packet.elapsed_nanos >= 300_000_000
            &&& !actions.contains(VideoAction::Stop)
        }),
{
    let actions = state.actions(packet);
    assert(actions[0] == VideoAction::ReportReceived);
    if packet.had_packet_loss {
        assert(actions[1] == VideoAction::ReportShardLoss);
    }
    let at = if packet.had_packet_loss {
        2int
    } else {
        1
    };
    if packet.is_idr {
        assert(actions[at] == VideoAction::ReportIdr);
    } else if packet.had_packet_loss {
        assert(actions[at] == VideoAction::RequestIdr);
        assert(actions[at + 1] == VideoAction::ReportBugReason(3));
    }
    if state.counting(packet).shows() {
        assert(actions.last() == VideoAction::PushNal);
    } else {
        assert(actions.last() == VideoAction::ReportBugReason(2));
    }
}

/// A packet that comes while the client is in the background only ends the stream.
pub proof fn law_background_ends_stream(state: VideoState, packet: VideoPacket)
    ensures
        state.actions(packet).contains(VideoAction::Stop) <==> !packet.resumed,
        !packet.resumed ==> {
            &&& forall|action: VideoAction| #[trigger]
                state.actions(packet).contains(action) ==> action == VideoAction::Stop
            &&& state.actions(packet).len() == 1
            &&& state.after_packet(packet) == state
        },
{
    if !packet.resumed {
        assert(state.actions(packet)[0] == VideoAction::Stop);
    }
}

/// How many of the packets had a loss before them and are no key frame.
pub open spec fn lossy(frames: Seq<Frame>) -> nat
    decreases frames.len(),
{
    if frames.len() == 0 {
        0
    } else {
        let packet = frames.last().packet;
        lossy(frames.drop_last()) + (if packet.had_packet_loss && !packet.is_idr {
            1nat
        } else {
            0nat
        })
    }
}

/// How many of the packets came while statistics were collected.
pub open spec fn counted(frames: Seq<Frame>) -> nat
    decreases frames.len(),
{
    if frames.len() == 0 {
        0
    } else {
        counted(frames.drop_last()) + (if frames.last().packet.statistics {
            1nat
        } else {
            0nat
        })
    }
}

/// Whether the packets all come within one window, in which no loss is reported.
pub open spec fn within_window(frames: Seq<Frame>) -> bool {
    forall|k: int|
        0 <= k < frames.len() ==> (#[trigger] frames[k]).packet.resumed
            && frames[k].packet.elapsed_nanos < 300_000_000
}

/// The loss that is reported when a window ends is the number of packets of the window that had
/// a loss before them and are no key frame, over the number of packets of the window that came
/// while statistics were collected, and nothing over one where there are none. The next window
/// starts at nothing again.
pub proof fn law_window_loss_is_reported(state: VideoState, frames: Seq<Frame>, end: Frame)
    requires
        state.total_packets == 0,
        state.lost_packets == 0,
        within_window(frames),
        frames.len() < i32::MAX,
        end.packet.resumed,
        end.packet.elapsed_nanos >= 300_000_000,
    ensures
        ({
            let window = frames.push(end);
            let before = state.after_frames(frames);
            &&& forall|rate: PacketLossRate|
                #[trigger] before.actions(end.packet).contains(VideoAction::ReportPacketLoss(rate))
                    <==> if counted(window) > 0 {
                    rate.lost == lossy(window) && rate.total == counted(window)
                } else {
                    rate.lost == 0 && rate.total == 1
                }
            &&& state.after_frames(window).total_packets == 0
            &&& state.after_frames(window).lost_packets == 0
        }),
{
    let window = frames.push(end);
    let before = state.after_frames(frames);
    lemma_window_is_counted(state, frames);
    assert(window.drop_last() =~= frames);
    assert(window.last() == end);
    let counting = before.counting(end.packet);
    assert(counting.total_packets == counted(window));
    assert(counting.lost_packets == lossy(window));
    let actions = before.actions(end.packet);
    assert(actions[actions.len() - 2] == VideoAction::ReportPacketLoss(
        counting.packet_loss_rate(),
    ));
}

proof fn lemma_window_is_counted(state: VideoState, frames: Seq<Frame>)
    requires
        state.total_packets == 0,
        state.lost_packets == 0,
        within_window(frames),
        frames.len() < i32::MAX,
    ensures
        state.after_frames(frames).total_packets == counted(frames) <= frames.len(),
        state.after_frames(frames).lost_packets == lossy(frames) <= frames.len(),
    decreases frames.len(),
{
    if frames.len() > 0 {
        let before = frames.drop_last();
        assert forall|k: int| 0 <= k < before.len() implies (#[trigger] before[k]).packet.resumed
            && before[k].packet.elapsed_nanos < 300_000_000 by {
            assert(before[k] == frames[k]);
        }
        assert(frames[frames.len() - 1].packet.resumed);
        lemma_window_is_counted(state, before);
    }
}

/// Packets are counted as long as there is a number left to count them by.
pub proof fn law_what_can_be_counted(state: VideoState, packet: VideoPacket)
    ensures
        !state.can_count(packet) <==> packet.resumed && ((packet.statistics && state.total_packets
            == i32::MAX) || (packet.had_packet_loss && !packet.is_idr && state.lost_packets
            == i32::MAX)),
{
}

} // verus!
