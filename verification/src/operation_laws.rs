//! Laws of what the operations of the library give back and change, stated of their
//! arguments and results.

use vstd::prelude::*;
use crate::ack::AckTracker;
use crate::algorithms::{HashAlgorithm, IntegrityHashAlgorithm};
use crate::channel_frame;
use crate::channel_frame::{ChannelDatagram, ChannelFrame, ChannelFrameView};
use crate::channel_wire_laws;
use crate::codec::{Decoder, Encoder};
use crate::error::{Error, Res};
use crate::frame;
use crate::receive::{ChannelReceiveState, ReceiveStageView, ReceiveStep, ReceiveView, ReleaseQueueView};
use crate::receive_laws;
use crate::send::ChannelSendState;
use crate::send_laws;
use crate::stream_id::{Role, StreamId, StreamType};
use crate::stream_use_laws;
use crate::streams;
use crate::streams::{FrameOutcome, FrameStats, InitialLimits, NewStream, StreamAction, StreamFrame, Streams, StreamsView, WritableStream};
use crate::types::{Announce, Frame, Integrity, IpAddr, Key, KeyView, Sender};
use crate::wire_laws;

verus! {

// ---------------------------------------------------------------------------
// Control frames
// ---------------------------------------------------------------------------

/// Clients send MC_ACK, MC_LIMITS and MC_STATE, and servers the other frames. All but
/// MC_ACK are acknowledged and sent again when they are lost. Only hashes without a
/// count take up the rest of a packet.
pub proof fn law_frame_handling(
    control: Frame,
    sender: Sender,
    eliciting: bool,
    retransmit: bool,
    last: bool,
)
    requires
        call_ensures(Frame::sender, (&control,), sender),
        call_ensures(Frame::ack_eliciting, (&control,), eliciting),
        call_ensures(Frame::retransmit_on_loss, (&control,), retransmit),
        call_ensures(Frame::requires_packet_end, (&control,), last),
    ensures
        match control {
            Frame::Announce(_) => sender == Sender::Server,
            Frame::Key(_) => sender == Sender::Server,
            Frame::Join(_) => sender == Sender::Server,
            Frame::Leave(_) => sender == Sender::Server,
            Frame::Integrity(_) => sender == Sender::Server,
            Frame::Ack(_) => sender == Sender::Client,
            Frame::Limits(_) => sender == Sender::Client,
            Frame::Retire(_) => sender == Sender::Server,
            Frame::State(_) => sender == Sender::Client,
        },
        eliciting <==> !(control is Ack),
        retransmit <==> !(control is Ack),
        last <==> (control matches Frame::Integrity(hashes) && hashes.packet_hash_count is None),
{
}

/// The bytes of an announcement: behind the type, the length of the channel ID and the
/// channel ID stand the octets of the source, one by one, and then those of the group.
pub proof fn law_announcement_bytes(announce: Announce, out: Res<Vec<u8>>, j: int)
    requires
        call_ensures(Frame::to_vec, (&Frame::Announce(announce),), out),
        1 <= announce.channel_id@.len() <= 20,
        0 <= j,
    ensures
        ({
            let at = 5 + announce.channel_id@.len();
            match (announce.source, announce.group) {
                (IpAddr::V4(source), IpAddr::V4(group)) => {
                    &&& out matches Ok(bytes)
                    &&& j < 4 ==> bytes@[at + j] == source@[j]
                    &&& j < 4 ==> bytes@[at + 4 + j] == group@[j]
                },
                (IpAddr::V6(source), IpAddr::V6(group)) => {
                    &&& out matches Ok(bytes)
                    &&& j < 16 ==> bytes@[at + j] == source@[j]
                    &&& j < 16 ==> bytes@[at + 16 + j] == group@[j]
                },
                _ => out == Err::<Vec<u8>, Error>(Error::FrameEncoding),
            }
        }),
{
    let control = Frame::Announce(announce);
    if control@.valid() {
        wire_laws::law_announce_octets(announce@, j);
    }
}

/// The octets of an address are written one by one, in their order.
pub proof fn law_address_written(enc: &mut Encoder, addr: IpAddr, j: int)
    requires
        call_ensures(frame::encode_ip_addr, (enc, &addr), ()),
        0 <= j,
    ensures
        ({
            let at = old(enc)@.len();
            &&& final(enc)@.take(at as int) == old(enc)@
            &&& addr matches IpAddr::V4(octets) ==> {
                &&& final(enc)@.len() == at + 4
                &&& j < 4 ==> final(enc)@[at + j] == octets@[j]
            }
            &&& addr matches IpAddr::V6(octets) ==> {
                &&& final(enc)@.len() == at + 16
                &&& j < 16 ==> final(enc)@[at + j] == octets@[j]
            }
        }),
{
    wire_laws::law_address_octets(addr@, j);
    assert(final(enc)@.take(old(enc)@.len() as int) =~= old(enc)@);
}

/// The octets of an address are read one by one, in their order: four for the IPv4
/// announcement and sixteen for the IPv6 one.
pub proof fn law_address_read(dec: &mut Decoder, frame_type: u64, out: Res<IpAddr>, j: int)
    requires
        call_ensures(frame::decode_ip_addr, (dec, frame_type), out),
        0 <= j,
    ensures
        frame_type == 0xff3e811 ==> if old(dec)@.len() < 4 {
            out == Err::<IpAddr, Error>(Error::NoMoreData)
        } else {
            &&& out matches Ok(IpAddr::V4(octets))
            &&& j < 4 ==> octets@[j] == old(dec)@[j]
            &&& final(dec)@ == old(dec)@.skip(4)
        },
        frame_type == 0xff3e812 ==> if old(dec)@.len() < 16 {
            out == Err::<IpAddr, Error>(Error::NoMoreData)
        } else {
            &&& out matches Ok(IpAddr::V6(octets))
            &&& j < 16 ==> octets@[j] == old(dec)@[j]
            &&& final(dec)@ == old(dec)@.skip(16)
        },
        frame_type != 0xff3e811 && frame_type != 0xff3e812 ==> out == Err::<IpAddr, Error>(
            Error::FrameEncoding,
        ),
{
    wire_laws::law_address_read(old(dec)@, frame_type, j);
}

/// A channel packet may carry MC_KEY, MC_LEAVE, MC_INTEGRITY and MC_RETIRE, and no other
/// control frame.
pub proof fn law_control_frame_checked(control: Frame, result: Res<()>)
    requires
        call_ensures(channel_frame::validate_channel_control_frame, (&control,), result),
    ensures
        control is Key || control is Leave || control is Integrity || control is Retire
            ==> result == Ok::<(), Error>(()),
        control is Announce || control is Join || control is Ack || control is Limits
            || control is State ==> result == Err::<(), Error>(Error::FrameEncoding),
{
    channel_wire_laws::law_control_frames_written(control@);
}

/// A channel carries STREAM frames on streams that the server opened for one
/// direction: those whose numbers leave the remainder 3.
pub proof fn law_channel_stream_checked(stream_id: u64, result: Res<()>)
    requires
        call_ensures(channel_frame::validate_channel_stream_id, (stream_id,), result),
    ensures
        result == if stream_id % 4 == 3 {
            Ok::<(), Error>(())
        } else {
            Err(Error::FrameEncoding)
        },
{
}

/// Of a frame that is written to a packet, all bytes stand behind what was there. An
/// MC_KEY, MC_LEAVE, MC_INTEGRITY or MC_RETIRE that can be put on the wire is written, and
/// every other control frame is refused, with nothing written.
pub proof fn law_control_frame_written(enc: &mut Encoder, control: Frame, result: Res<()>)
    requires
        call_ensures(
            channel_frame::encode_channel_frame,
            (enc, &ChannelFrame::Multicast(control)),
            result,
        ),
        control@.valid(),
    ensures
        control is Key || control is Leave || control is Integrity || control is Retire ==> result
            == Ok::<(), Error>(()) && final(enc)@ == old(enc)@ + control@.wire_bytes(),
        control is Announce || control is Join || control is Ack || control is Limits
            || control is State ==> result == Err::<(), Error>(Error::FrameEncoding)
            && final(enc)@ == old(enc)@,
{
    let carried = ChannelFrame::Multicast(control);
    assert(old(enc)@ + Seq::<u8>::empty() =~= old(enc)@);
    channel_wire_laws::law_carried_frames(carried@);
}

// ---------------------------------------------------------------------------
// Algorithms
// ---------------------------------------------------------------------------

/// What is kept of a digest is how it begins, as far as the hash is long.
pub proof fn law_packet_hash(
    algorithm: IntegrityHashAlgorithm,
    digest: Vec<u8>,
    len: usize,
    function: HashAlgorithm,
    out: Vec<u8>,
)
    requires
        call_ensures(IntegrityHashAlgorithm::output_len, (algorithm,), len),
        call_ensures(IntegrityHashAlgorithm::algorithm, (algorithm,), function),
        call_ensures(IntegrityHashAlgorithm::hash, (algorithm, digest), out),
    ensures
        out@.len() <= len,
        out@.is_prefix_of(digest@),
        out@.len() == len || out@ == digest@,
        match algorithm {
            IntegrityHashAlgorithm::Sha256 { output_len } => len == output_len && function
                == HashAlgorithm::Sha256,
            IntegrityHashAlgorithm::Sha384 => len == 48 && function == HashAlgorithm::Sha384,
            IntegrityHashAlgorithm::Sha512 => len == 64 && function == HashAlgorithm::Sha512,
        },
{
}

// ---------------------------------------------------------------------------
// The receiving end
// ---------------------------------------------------------------------------

/// After an MC_INTEGRITY with `n` hashes was taken, byte `j` of the hash that is kept for
/// the packet `start + i` is byte `i * hash_len + j` of the hashes in the frame. The
/// hashes of other packets, and everything else that is known, stay.
pub proof fn law_integrity_inserted(
    state: &mut ChannelReceiveState,
    integrity: Integrity,
    n: u64,
    step: ReceiveStep,
)
    requires
        old(state).wf(),
        call_ensures(ChannelReceiveState::insert_integrity, (state, integrity), step),
        integrity.channel_id@ == old(state)@.announce.channel_id,
        n * old(state)@.integrity_hash.len() == integrity.packet_hashes@.len(),
        integrity.packet_hash_count is None || integrity.packet_hash_count == Some(n),
        integrity.packet_number_start + n <= u64::MAX + 1,
    ensures
        ({
            let start = integrity.packet_number_start;
            let len = old(state)@.integrity_hash.len() as int;
            let before = old(state)@.integrity_hashes;
            let after = final(state)@.integrity_hashes;
            &&& forall|k: u64|
                start <= k < start + n ==> #[trigger] after.contains_key(k) && after[k].len() == len
            &&& forall|k: u64, j: int|
                start <= k < start + n && 0 <= j < len ==> #[trigger] after[k][j]
                    == integrity.packet_hashes@[(k - start) * len + j]
            &&& forall|k: u64|
                !(start <= k < start + n) ==> (#[trigger] after.contains_key(k)
                    <==> before.contains_key(k))
            &&& forall|k: u64|
                !(start <= k < start + n) && before.contains_key(k) ==> #[trigger] after[k]
                    == before[k]
            &&& final(state)@.keys == old(state)@.keys
            &&& final(state)@.pending == old(state)@.pending
            &&& final(state)@.accepted == old(state)@.accepted
            &&& final(state)@.datagrams == old(state)@.datagrams
            &&& final(state)@.acks == old(state)@.acks
            &&& final(state)@.largest == old(state)@.largest
            &&& final(state)@.announce == old(state)@.announce
        }),
{
    old(state).lemma_wf();
    receive_laws::law_hashes_taken(old(state)@, integrity@, n);
}

/// Once the payload of a packet is opened and read as `frames`, the data of its DATAGRAM
/// frames waits to be taken behind what waited: as many datagrams as there are such frames,
/// whatever their size, the k-th with the data of the k-th frame.
pub proof fn law_datagrams_released(
    state: &mut ChannelReceiveState,
    plaintext: Vec<u8>,
    packet_number: u64,
    key: KeyView,
    key_phase: bool,
    queue: ReleaseQueueView,
    frames: Seq<ChannelFrameView>,
    step: ReceiveStep,
)
    requires
        call_ensures(ChannelReceiveState::resume, (state, Ok(plaintext)), step),
        old(state)@.stage == Some(
            ReceiveStageView::Payload { packet_number, key, key_phase, queue },
        ),
        key.channel_id == old(state)@.announce.channel_id,
        channel_frame::parse_channel_frames(old(state)@.announce.channel_id, plaintext@) == Ok::<
            Seq<ChannelFrameView>,
            Error,
        >(frames),
    ensures
        ({
            let sent = frames.filter(|f: ChannelFrameView| f is Datagram);
            let at = old(state)@.datagrams.len() as int;
            let after = final(state)@.datagrams;
            &&& after.len() == at + sent.len()
            &&& after.take(at) == old(state)@.datagrams
            &&& forall|k: int|
                0 <= k < sent.len() ==> {
                    &&& (#[trigger] after[at + k]).channel_id == old(state)@.announce.channel_id
                    &&& after[at + k].packet_number == packet_number
                    &&& sent[k] == (ChannelFrameView::Datagram { data: after[at + k].data })
                }
            &&& final(state)@.acks.recorded.contains(packet_number)
        }),
{
    receive_laws::law_payload_released(
        old(state)@,
        packet_number,
        key,
        key_phase,
        queue,
        plaintext@,
    );
    let at = old(state)@.datagrams.len() as int;
    let after = final(state)@.datagrams;
    let new = after.skip(at);
    let sent = frames.filter(|f: ChannelFrameView| f is Datagram);
    assert(sent == receive_laws::datagram_frames(frames));
    assert forall|k: int| 0 <= k < sent.len() implies (#[trigger] after[at + k]).channel_id
        == old(state)@.announce.channel_id && after[at + k].packet_number == packet_number
        && sent[k] == (ChannelFrameView::Datagram { data: after[at + k].data }) by {
        assert(new[k] == after[at + k]);
    }
}

/// A key that is taken is known under its number from then on, and the other keys, the
/// hashes and the packets that wait stay. One that is refused changes no key.
pub proof fn law_key_inserted(state: &mut ChannelReceiveState, key: Key, step: ReceiveStep)
    requires
        old(state).wf(),
        call_ensures(ChannelReceiveState::insert_key, (state, key), step),
    ensures
        ({
            let before = old(state)@;
            let after = final(state)@;
            let known = before.keys.contains_key(key.key_sequence);
            let refused = key.channel_id@ != before.announce.channel_id || known && (
            before.keys[key.key_sequence].from_packet_number != key.from_packet_number
                || before.keys[key.key_sequence].secret != key.secret@);
            &&& refused ==> after.keys == before.keys && (step matches ReceiveStep::Done(Err(e))
                && e == Error::FrameEncoding)
            &&& !refused ==> {
                &&& after.keys.contains_key(key.key_sequence)
                &&& after.keys[key.key_sequence] == key@
                &&& forall|k: u64|
                    k != key.key_sequence ==> (#[trigger] after.keys.contains_key(k)
                        <==> before.keys.contains_key(k))
                &&& forall|k: u64|
                    k != key.key_sequence && before.keys.contains_key(k)
                        ==> #[trigger] after.keys[k] == before.keys[k]
            }
            &&& after.integrity_hashes == before.integrity_hashes
            &&& after.pending == before.pending
            &&& after.accepted == before.accepted
            &&& after.datagrams == before.datagrams
            &&& after.acks == before.acks
        }),
{
    old(state).lemma_wf();
    receive_laws::law_key_taken(old(state)@, key@);
}

/// The oldest datagram is taken first, and nothing else changes by it.
pub proof fn law_datagram_popped(
    state: &mut ChannelReceiveState,
    datagram: Option<ChannelDatagram>,
)
    requires
        call_ensures(ChannelReceiveState::pop_datagram, (state,), datagram),
    ensures
        ({
            let waiting = old(state)@.datagrams;
            &&& datagram is None <==> waiting.len() == 0
            &&& datagram matches Some(datagram) ==> {
                &&& seq![datagram@] + final(state)@.datagrams == waiting
                &&& final(state)@ == (ReceiveView {
                    datagrams: final(state)@.datagrams,
                    ..old(state)@
                })
            }
            &&& datagram is None ==> final(state)@ == old(state)@
        }),
{
    if datagram is Some {
        assert(seq![datagram->Some_0@] + old(state)@.datagrams.skip(1) =~= old(state)@.datagrams);
    }
}

/// Once the acknowledgment was sent, none waits, and the packets stay recorded.
pub proof fn law_acknowledgment_sent(state: &mut ChannelReceiveState)
    requires
        call_ensures(ChannelReceiveState::mark_ack_sent, (state,), ()),
    ensures
        !final(state)@.acks.pending,
        final(state)@.acks.recorded == old(state)@.acks.recorded,
        final(state)@ == (ReceiveView { acks: final(state)@.acks, ..old(state)@ }),
{
}

/// A tracker starts with no packets. A packet that is recorded is so from then on,
/// beside those that were.
pub proof fn law_tracker(tracker: &mut AckTracker, packet_number: u64, new: AckTracker)
    requires
        call_ensures(AckTracker::record_packet, (tracker, packet_number), ()),
        call_ensures(<AckTracker as Default>::default, (), new),
    ensures
        final(tracker)@.pending,
        forall|n: u64| #[trigger]
            final(tracker)@.recorded.contains(n) <==> n == packet_number || old(
                tracker,
            )@.recorded.contains(n),
        new@.recorded == Set::<u64>::empty(),
        !new@.pending,
{
}

// ---------------------------------------------------------------------------
// The sending end
// ---------------------------------------------------------------------------

/// A sender tells the channel, the key and the next packet number that it has.
pub proof fn law_sender_tells(
    state: ChannelSendState,
    announce: &Announce,
    key: &Key,
    packet_number: u64,
)
    requires
        call_ensures(ChannelSendState::announce, (&state,), announce),
        call_ensures(ChannelSendState::key, (&state,), key),
        call_ensures(ChannelSendState::next_packet_number, (&state,), packet_number),
    ensures
        announce@ == state@.announce,
        key@ == state@.key,
        packet_number == state@.next_packet_number,
{
}

/// A key that is refused changes nothing. One that is taken is the key in use, and no
/// packet number is used again.
pub proof fn law_key_updated(state: &mut ChannelSendState, key: Key, result: Res<()>)
    requires
        call_ensures(ChannelSendState::update_key, (state, key), result),
    ensures
        ({
            let before = old(state)@;
            let after = final(state)@;
            let refused = key.channel_id@ != before.announce.channel_id || key.key_sequence
                < before.key.key_sequence || key.from_packet_number
                < before.key.from_packet_number;
            &&& refused ==> result == Err::<(), Error>(Error::FrameEncoding) && after == before
            &&& !refused ==> {
                &&& result is Ok
                &&& after.key == key@
                &&& after.next_packet_number >= before.next_packet_number
                &&& after.next_packet_number >= key.from_packet_number
                &&& after.next_packet_number == before.next_packet_number
                    || after.next_packet_number == key.from_packet_number
                &&& after.announce == before.announce
            }
        }),
{
    send_laws::law_key_updated(old(state)@, key@);
}

// ---------------------------------------------------------------------------
// Streams
// ---------------------------------------------------------------------------

/// What a stream ID says: even numbers are opened by clients, and of every four numbers
/// the last two are for one direction.
pub proof fn law_stream_id(
    stream_id: StreamId,
    role: Role,
    bidi: bool,
    uni: bool,
    server: bool,
    remote: bool,
    send_only: bool,
    index: u64,
    my_role: Role,
)
    requires
        call_ensures(StreamId::role, (stream_id,), role),
        call_ensures(StreamId::is_bidi, (stream_id,), bidi),
        call_ensures(StreamId::is_uni, (stream_id,), uni),
        call_ensures(StreamId::is_server_initiated, (stream_id,), server),
        call_ensures(StreamId::is_remote_initiated, (stream_id, my_role), remote),
        call_ensures(StreamId::is_send_only, (stream_id, my_role), send_only),
        call_ensures(StreamId::index, (stream_id,), index),
    ensures
        role == Role::Client <==> stream_id@ % 2 == 0,
        bidi <==> stream_id@ % 4 == 0 || stream_id@ % 4 == 1,
        uni <==> stream_id@ % 4 == 2 || stream_id@ % 4 == 3,
        server <==> stream_id@ % 2 == 1,
        my_role == Role::Client ==> (remote <==> stream_id@ % 2 == 1),
        my_role == Role::Server ==> (remote <==> stream_id@ % 2 == 0),
        my_role == Role::Client ==> (send_only <==> stream_id@ % 4 == 2),
        my_role == Role::Server ==> (send_only <==> stream_id@ % 4 == 3),
        4 * index <= stream_id@ < 4 * index + 4,
{
}

/// A new connection has no streams. The peer may open as many as it was told, and this
/// end none yet. Streams that are passed over are not opened where this end told that it
/// supports multicast.
pub proof fn law_new_streams(
    role: Role,
    limit_bidi: u64,
    limit_uni: u64,
    client_params: bool,
    server_support: bool,
    state: Streams,
)
    requires
        call_ensures(
            Streams::new,
            (role, limit_bidi, limit_uni, client_params, server_support),
            state,
        ),
    ensures
        state@.role == role,
        state@.send == Set::<u64>::empty(),
        state@.recv == Set::<u64>::empty(),
        state@.remote_bidi.max == limit_bidi && state@.remote_bidi.next == 0,
        state@.remote_uni.max == limit_uni && state@.remote_uni.next == 0,
        state@.local_bidi.limit == 0 && state@.local_bidi.used == 0,
        state@.local_uni.limit == 0 && state@.local_uni.used == 0,
        client_params || server_support ==> state@.sparse == Some(Map::<u64, u64>::empty()),
        !client_params && !server_support ==> state@.sparse is None,
{
}

/// A STREAM frame on a stream that has a receiving side once the stream was opened is a
/// delivery to that stream, at the offset of the frame and with its FIN bit, each as it
/// came. It is counted, and the application is told nothing.
pub proof fn law_stream_frame_delivered(
    state: &mut Streams,
    stats: &mut FrameStats,
    stream_id: StreamId,
    offset: u64,
    fin: bool,
    outcome: FrameOutcome,
)
    requires
        old(state).wf(),
        old(stats).stream < usize::MAX,
        call_ensures(
            Streams::input_frame,
            (state, &StreamFrame::Stream { stream_id, offset, fin }, stats),
            outcome,
        ),
    ensures
        outcome.stop_sending is None,
        final(stats).stream == old(stats).stream + 1,
        outcome.result is Ok ==> if final(state)@.recv.contains(stream_id@) {
            &&& outcome.result matches Ok(
                StreamAction::Deliver { stream_id: to, offset: at, fin: last },
            )
            &&& to == stream_id
            &&& at == offset
            &&& last == fin
        } else {
            outcome.result == Ok::<StreamAction, Error>(StreamAction::Nothing)
        },
        stream_id@ % 2 == (if old(state)@.role == Role::Client {
            1int
        } else {
            0int
        }) && stream_id@ / 4 < stream_use_laws::limit_of(old(state)@, stream_id@).max
            ==> outcome.result is Ok,
{
    let f = StreamFrame::Stream { stream_id, offset, fin };
    let id = stream_id@;
    stream_use_laws::law_refused_stream(old(state)@, f);
    stream_use_laws::law_frame_counted(*old(stats), f);
    stream_use_laws::law_stream_obtained(old(state)@, id);
    if old(state)@.obtained(id) is Ok {
        stream_use_laws::law_stream_frame(old(state)@, stream_id, offset, fin);
    }
}

/// What the application is told of a frame: the stream that the peer does not want more
/// of and its reason, if the frame is STOP_SENDING.
pub proof fn law_application_told(
    state: &mut Streams,
    stats: &mut FrameStats,
    input: StreamFrame,
    outcome: FrameOutcome,
)
    requires
        call_ensures(Streams::input_frame, (state, &input, stats), outcome),
    ensures
        match input {
            StreamFrame::StopSending { stream_id, application_error_code } => {
                outcome.stop_sending == Some((stream_id, application_error_code))
            },
            _ => outcome.stop_sending is None,
        },
{
}

/// This end opens the next stream of a type, or tells that its limit is reached and
/// changes nothing.
pub proof fn law_stream_created(
    state: &mut Streams,
    stream_type: StreamType,
    out: Res<NewStream>,
)
    requires
        old(state).wf(),
        call_ensures(Streams::stream_create, (state, stream_type), out),
    ensures
        ({
            let limit = match stream_type {
                StreamType::BiDi => old(state)@.local_bidi,
                StreamType::UniDi => old(state)@.local_uni,
            };
            let id = 4 * limit.used + match (stream_type, old(state)@.role) {
                (StreamType::BiDi, Role::Client) => 0int,
                (StreamType::BiDi, Role::Server) => 1int,
                (StreamType::UniDi, Role::Client) => 2int,
                (StreamType::UniDi, Role::Server) => 3int,
            };
            let room = limit.used < limit.limit && id <= u64::MAX;
            &&& !room ==> out == Err::<NewStream, Error>(Error::StreamLimit) && final(state)@
                == old(state)@
            &&& room ==> {
                &&& out matches Ok(stream)
                &&& stream.stream_id@ == id
                &&& stream.recv_limit is Some <==> stream_type == StreamType::BiDi
                &&& stream.send_limit is Some
                &&& final(state)@.send.contains(id as u64)
                &&& final(state)@.recv.contains(id as u64) <==> stream_type == StreamType::BiDi
                    || old(state)@.recv.contains(id as u64)
            }
        }),
{
    let id = old(state)@.next_local(stream_type);
    stream_use_laws::law_stream_of_this_end_opened(old(state)@, stream_type, id);
    if let Ok(stream) = out {
        stream_use_laws::law_new_stream_of_this_end(stream, id);
    }
}

/// The limit on the streams of the peer is raised, and never lowered. Nothing else
/// changes.
pub proof fn law_remote_limit_raised(state: &mut Streams, stream_type: StreamType, max: u64)
    requires
        call_ensures(Streams::raise_remote_limit, (state, stream_type, max), ()),
    ensures
        ({
            let before = old(state)@;
            let after = final(state)@;
            let (was, is, other_was, other_is) = match stream_type {
                StreamType::BiDi => (
                    before.remote_bidi,
                    after.remote_bidi,
                    before.remote_uni,
                    after.remote_uni,
                ),
                StreamType::UniDi => (
                    before.remote_uni,
                    after.remote_uni,
                    before.remote_bidi,
                    after.remote_bidi,
                ),
            };
            &&& is.max >= max && is.max >= was.max
            &&& is.max == max || is.max == was.max
            &&& is.next == was.next
            &&& other_is == other_was
            &&& after.local_bidi == before.local_bidi && after.local_uni == before.local_uni
            &&& after.send == before.send && after.recv == before.recv
            &&& after.sparse == before.sparse && after.role == before.role
        }),
{
}

/// A limit that the peer tells on the streams of this end counts if it is higher, and
/// whether it is comes back. Nothing else changes.
pub proof fn law_local_limit_raised(
    state: &mut Streams,
    stream_type: StreamType,
    maximum_streams: u64,
    increased: bool,
)
    requires
        call_ensures(
            Streams::handle_max_streams,
            (state, stream_type, maximum_streams),
            increased,
        ),
    ensures
        ({
            let before = old(state)@;
            let after = final(state)@;
            &&& stream_type == StreamType::BiDi ==> {
                &&& increased <==> maximum_streams > before.local_bidi.limit
                &&& increased ==> after.local_bidi.limit == maximum_streams
                &&& !increased ==> after.local_bidi.limit == before.local_bidi.limit
                &&& after.local_bidi.used == before.local_bidi.used
                &&& after == (StreamsView { local_bidi: after.local_bidi, ..before })
            }
            &&& stream_type == StreamType::UniDi ==> {
                &&& increased <==> maximum_streams > before.local_uni.limit
                &&& increased ==> after.local_uni.limit == maximum_streams
                &&& !increased ==> after.local_uni.limit == before.local_uni.limit
                &&& after.local_uni.used == before.local_uni.used
                &&& after == (StreamsView { local_uni: after.local_uni, ..before })
            }
        }),
{
}

/// Once the first limits of the peer are known, clients raise those of their sending
/// streams, and the application is told of each type of which a stream can be opened.
pub proof fn law_initial_limits(
    state: &mut Streams,
    max_bidi: u64,
    max_uni: u64,
    limits: InitialLimits,
)
    requires
        call_ensures(Streams::set_initial_limits, (state, max_bidi, max_uni), limits),
    ensures
        ({
            let before = old(state)@;
            let after = final(state)@;
            &&& after.local_bidi.limit >= max_bidi && after.local_bidi.limit
                >= before.local_bidi.limit
            &&& after.local_bidi.limit == max_bidi || after.local_bidi.limit
                == before.local_bidi.limit
            &&& after.local_uni.limit >= max_uni && after.local_uni.limit >= before.local_uni.limit
            &&& after.local_uni.limit == max_uni || after.local_uni.limit == before.local_uni.limit
            &&& after.local_bidi.used == before.local_bidi.used
            &&& after.local_uni.used == before.local_uni.used
            &&& after == (StreamsView {
                local_bidi: after.local_bidi,
                local_uni: after.local_uni,
                ..before
            })
            &&& limits.update_send_streams <==> before.role == Role::Client
            &&& limits.bidi_creatable <==> after.local_bidi.used < after.local_bidi.limit
            &&& limits.uni_creatable <==> after.local_uni.used < after.local_uni.limit
        }),
{
}

/// Clearing the streams leaves none and forgets which were seen. Where early data was
/// refused, the limits of the peer are forgotten too.
pub proof fn law_streams_cleared(state: &mut Streams, early: &mut Streams)
    requires
        call_ensures(Streams::clear_streams, (state,), ()),
        call_ensures(Streams::zero_rtt_rejected, (early,), ()),
    ensures
        final(state)@.send == Set::<u64>::empty(),
        final(state)@.recv == Set::<u64>::empty(),
        old(state)@.sparse is Some ==> final(state)@.sparse == Some(Map::<u64, u64>::empty()),
        old(state)@.sparse is None ==> final(state)@.sparse is None,
        final(state)@.local_bidi == old(state)@.local_bidi,
        final(state)@.local_uni == old(state)@.local_uni,
        final(state)@.remote_bidi == old(state)@.remote_bidi,
        final(state)@.remote_uni == old(state)@.remote_uni,
        final(state)@.role == old(state)@.role,
        final(early)@.send == Set::<u64>::empty(),
        final(early)@.recv == Set::<u64>::empty(),
        old(early)@.sparse is Some ==> final(early)@.sparse == Some(Map::<u64, u64>::empty()),
        old(early)@.sparse is None ==> final(early)@.sparse is None,
        final(early)@.local_bidi.limit == 0 && final(early)@.local_bidi.used == 0,
        final(early)@.local_uni.limit == 0 && final(early)@.local_uni.used == 0,
        final(early)@.remote_bidi == old(early)@.remote_bidi,
        final(early)@.remote_uni == old(early)@.remote_uni,
        final(early)@.role == old(early)@.role,
{
}

/// Streams that have ended have no such side any more, and every other stream keeps its
/// sides. Of the receiving sides, those on streams of the peer are counted that were
/// there, by the type of the stream.
pub proof fn law_ended_streams_forgotten(
    state: &mut Streams,
    ended_send: &[StreamId],
    ended_recv: &[StreamId],
    removed: (u64, u64),
    x: u64,
)
    requires
        call_ensures(
            Streams::cleanup_closed_streams,
            (state, ended_send, ended_recv),
            removed,
        ),
    ensures
        ({
            let before = old(state)@;
            let after = final(state)@;
            let gone = Set::new(
                |id: u64|
                    before.recv.contains(id) && !after.recv.contains(id)
                        && stream_use_laws::of_peer(before.role, id),
            );
            &&& after.send.contains(x) <==> before.send.contains(x) && !(exists|i: int|
                0 <= i < ended_send@.len() && (#[trigger] ended_send@[i])@ == x)
            &&& after.recv.contains(x) <==> before.recv.contains(x) && !(exists|i: int|
                0 <= i < ended_recv@.len() && (#[trigger] ended_recv@[i])@ == x)
            &&& after == (StreamsView { send: after.send, recv: after.recv, ..before })
            &&& removed.0 == gone.filter(|id: u64| stream_use_laws::both_ways(id)).len()
            &&& removed.1 == gone.filter(|id: u64| !stream_use_laws::both_ways(id)).len()
        }),
{
    let before = old(state)@;
    let after = final(state)@;
    stream_use_laws::law_numbers_of_streams(ended_send@, x);
    stream_use_laws::law_numbers_of_streams(ended_recv@, x);
    stream_use_laws::law_ended_streams_counted(
        before.recv,
        ended_recv@,
        before.role,
        StreamType::BiDi,
    );
    stream_use_laws::law_ended_streams_counted(
        before.recv,
        ended_recv@,
        before.role,
        StreamType::UniDi,
    );
    let gone = Set::new(
        |id: u64|
            before.recv.contains(id) && !after.recv.contains(id) && stream_use_laws::of_peer(
                before.role,
                id,
            ),
    );
    let bidi = Set::new(
        |x: u64|
            before.recv.contains(x) && stream_use_laws::of_peer(before.role, x) && (
            StreamType::BiDi == StreamType::BiDi <==> stream_use_laws::both_ways(x))
                && streams::id_set(ended_recv@).contains(x),
    );
    let uni = Set::new(
        |x: u64|
            before.recv.contains(x) && stream_use_laws::of_peer(before.role, x) && (
            StreamType::UniDi == StreamType::BiDi <==> stream_use_laws::both_ways(x))
                && streams::id_set(ended_recv@).contains(x),
    );
    assert(gone.filter(|id: u64| stream_use_laws::both_ways(id)) =~= bidi);
    assert(gone.filter(|id: u64| !stream_use_laws::both_ways(id)) =~= uni);
}

/// When the connection may send more, each stream with a sending side is told once, with
/// the limit before and the limit now. Otherwise none is.
pub proof fn law_connection_limit_told(
    state: Streams,
    previous_limit: usize,
    current_limit: Option<usize>,
    told: Vec<WritableStream>,
    i: int,
)
    requires
        call_ensures(Streams::handle_max_data, (&state, previous_limit, current_limit), told),
        0 <= i < told@.len(),
    ensures
        current_limit is Some,
        told@.len() == state@.send.len(),
        state@.send.contains(told@[i].stream_id@),
        told@[i].previous_limit == previous_limit,
        Some(told@[i].current_limit) == current_limit,
        forall|id: u64|
            state@.send.contains(id) ==> exists|k: int|
                0 <= k < told@.len() && (#[trigger] told@[k]).stream_id@ == id,
{
    let ids = streams::told_streams(told@);
    assert(ids[i]@ == told@[i].stream_id@);
    stream_use_laws::law_numbers_of_streams(ids, told@[i].stream_id@);
    assert forall|id: u64| state@.send.contains(id) implies exists|k: int|
        0 <= k < told@.len() && (#[trigger] told@[k]).stream_id@ == id by {
        stream_use_laws::law_numbers_of_streams(ids, id);
        let k = choose|k: int| 0 <= k < ids.len() && (#[trigger] ids[k])@ == id;
        assert(told@[k].stream_id@ == id);
    }
}

/// A stream is found by a side that it has.
pub proof fn law_stream_found(
    state: Streams,
    stream_id: StreamId,
    send: Res<StreamId>,
    recv: Res<StreamId>,
    count: usize,
)
    requires
        call_ensures(Streams::get_send_stream, (&state, stream_id), send),
        call_ensures(Streams::get_recv_stream, (&state, stream_id), recv),
        call_ensures(Streams::recv_stream_count, (&state,), count),
    ensures
        state@.send.contains(stream_id@) ==> send == Ok::<StreamId, Error>(stream_id),
        !state@.send.contains(stream_id@) ==> send == Err::<StreamId, Error>(
            Error::InvalidStreamId,
        ),
        state@.recv.contains(stream_id@) ==> recv == Ok::<StreamId, Error>(stream_id),
        !state@.recv.contains(stream_id@) ==> recv == Err::<StreamId, Error>(
            Error::InvalidStreamId,
        ),
        count == state@.recv.len(),
{
}

} // verus!
