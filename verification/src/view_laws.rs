//! Laws of what values hold, field by field.

use vstd::prelude::*;
use crate::ack;
use crate::channel_frame;
use crate::channel_frame::{ChannelDatagram, ChannelFrame, ChannelFrameView, QuicFrame, QuicFrameView};
use crate::codec;
use crate::error::{Error, Res};
use crate::frame;
use crate::packet;
use crate::packet::{ChannelPacket, ChannelPacketView, CryptoRequest, CryptoRequestView};
use crate::params;
use crate::params::{ClientTransportParams, ClientTransportParamsView};
use crate::receive;
use crate::receive::{ReceiveStep, ReceiveStepView};
use crate::send::{ChannelSendOutput, SendStep, SendStepView};
use crate::types::{Ack, AckRange, Announce, Frame, FrameView, Integrity, IpAddr, IpAddrView, Join, Key, Leave, Retire, State};

verus! {

/// An address holds its octets, in their order.
pub proof fn law_address(addr: IpAddr)
    ensures
        addr matches IpAddr::V4(octets) ==> addr@ == IpAddrView::V4(octets@),
        addr matches IpAddr::V6(octets) ==> addr@ == IpAddrView::V6(octets@),
        frame::ip_valid(addr@),
{
}

/// An announcement holds its fields.
pub proof fn law_announce(announce: Announce)
    ensures
        announce@.channel_id == announce.channel_id@,
        announce@.source == announce.source@,
        announce@.group == announce.group@,
        announce@.udp_port == announce.udp_port,
        announce@.header_protection_algorithm == announce.header_protection_algorithm,
        announce@.header_secret == announce.header_secret@,
        announce@.aead_algorithm == announce.aead_algorithm,
        announce@.integrity_hash_algorithm == announce.integrity_hash_algorithm,
        announce@.max_rate_kibps == announce.max_rate_kibps,
        announce@.max_ack_delay_ms == announce.max_ack_delay_ms,
{
}

/// The frames that name a channel hold their fields.
pub proof fn law_control_frames(
    key: Key,
    join: Join,
    leave: Leave,
    integrity: Integrity,
    retire: Retire,
)
    ensures
        key@.channel_id == key.channel_id@,
        key@.key_sequence == key.key_sequence,
        key@.from_packet_number == key.from_packet_number,
        key@.secret == key.secret@,
        join@.channel_id == join.channel_id@,
        join@.mc_limits_sequence == join.mc_limits_sequence,
        join@.mc_state_sequence == join.mc_state_sequence,
        join@.mc_key_sequence == join.mc_key_sequence,
        leave@.channel_id == leave.channel_id@,
        leave@.mc_state_sequence == leave.mc_state_sequence,
        leave@.after_packet_number == leave.after_packet_number,
        integrity@.channel_id == integrity.channel_id@,
        integrity@.packet_number_start == integrity.packet_number_start,
        integrity@.packet_hash_count == integrity.packet_hash_count,
        integrity@.packet_hashes == integrity.packet_hashes@,
        retire@.channel_id == retire.channel_id@,
        retire@.after_packet_number == retire.after_packet_number,
{
}

/// The frames of a client hold their fields.
pub proof fn law_client_frames(ack: Ack, state: State)
    ensures
        ack@.channel_id == ack.channel_id@,
        ack@.largest_acknowledged == ack.largest_acknowledged,
        ack@.ack_delay == ack.ack_delay,
        ack@.first_ack_range == ack.first_ack_range,
        ack@.ack_ranges == ack.ack_ranges@,
        ack@.ecn_counts == ack.ecn_counts,
        state@.channel_id == state.channel_id@,
        state@.sequence == state.sequence,
        state@.state == state.state,
        state@.reason_scope == state.reason_scope,
        state@.reason_code == state.reason_code,
        state@.reason_phrase == state.reason_phrase@,
{
}

/// A control frame is of its kind.
pub proof fn law_frame(frame: Frame)
    ensures
        match frame {
            Frame::Announce(f) => frame@ == FrameView::Announce(f@),
            Frame::Key(f) => frame@ == FrameView::Key(f@),
            Frame::Join(f) => frame@ == FrameView::Join(f@),
            Frame::Leave(f) => frame@ == FrameView::Leave(f@),
            Frame::Integrity(f) => frame@ == FrameView::Integrity(f@),
            Frame::Ack(f) => frame@ == FrameView::Ack(f@),
            Frame::Limits(f) => frame@ == FrameView::Limits(f),
            Frame::Retire(f) => frame@ == FrameView::Retire(f@),
            Frame::State(f) => frame@ == FrameView::State(f@),
        },
{
}

/// Transport parameters hold their fields.
pub proof fn law_params(params: ClientTransportParams)
    ensures
        params@.limits == params.limits,
        params@.hash_algorithms == params.hash_algorithms@,
        params@.encryption_algorithms == params.encryption_algorithms@,
{
}

/// A frame in a channel packet is of its kind, and holds its fields.
pub proof fn law_channel_frame(frame: ChannelFrame)
    ensures
        match frame {
            ChannelFrame::Padding { len } => frame@ == (ChannelFrameView::Padding { len }),
            ChannelFrame::Ping => frame@ == ChannelFrameView::Ping,
            ChannelFrame::ResetStream { stream_id, error_code, final_size } => frame@ == (
            ChannelFrameView::ResetStream { stream_id, error_code, final_size }),
            ChannelFrame::Stream { stream_id, offset, fin, data } => frame@ == (
            ChannelFrameView::Stream { stream_id, offset, fin, data: data@ }),
            ChannelFrame::Datagram { data } => frame@ == (ChannelFrameView::Datagram {
                data: data@,
            }),
            ChannelFrame::Multicast(control) => frame@ == ChannelFrameView::Multicast(control@),
        },
{
}

/// A frame that was read is of its kind, and holds its fields.
pub proof fn law_quic_frame(frame: QuicFrame)
    ensures
        match frame {
            QuicFrame::Padding(len) => frame@ == QuicFrameView::Padding(len),
            QuicFrame::Ping => frame@ == QuicFrameView::Ping,
            QuicFrame::ResetStream { stream_id, application_error_code, final_size } => frame@ == (
            QuicFrameView::ResetStream { stream_id, application_error_code, final_size }),
            QuicFrame::Stream { stream_id, offset, fin, data } => frame@ == (
            QuicFrameView::Stream { stream_id, offset, fin, data: data@ }),
            QuicFrame::Datagram { data } => frame@ == (QuicFrameView::Datagram { data: data@ }),
            QuicFrame::Mcquic(control) => frame@ == QuicFrameView::Mcquic(control@),
            QuicFrame::Other => frame@ == QuicFrameView::Other,
        },
{
}

/// A packet and a datagram hold their fields; lists hold what their items do, in the
/// same order.
pub proof fn law_packets(
    packet: ChannelPacket,
    datagram: ChannelDatagram,
    frames: Seq<ChannelFrame>,
    datagrams: Seq<ChannelDatagram>,
    i: int,
)
    ensures
        packet@.channel_id == packet.channel_id@,
        packet@.packet_number == packet.packet_number,
        packet@.key_sequence == packet.key_sequence,
        packet@.key_phase == packet.key_phase,
        packet@.frames == channel_frame::frame_views(packet.frames@),
        datagram@.channel_id == datagram.channel_id@,
        datagram@.packet_number == datagram.packet_number,
        datagram@.data == datagram.data@,
        channel_frame::frame_views(frames).len() == frames.len(),
        0 <= i < frames.len() ==> channel_frame::frame_views(frames)[i] == frames[i]@,
        receive::datagram_views(datagrams).len() == datagrams.len(),
        0 <= i < datagrams.len() ==> receive::datagram_views(datagrams)[i] == datagrams[i]@,
{
}

/// A request holds its fields.
pub proof fn law_request(request: CryptoRequest)
    ensures
        match request {
            CryptoRequest::HeaderMask { cipher, secret, sample } => request@ == (
            CryptoRequestView::HeaderMask { cipher, secret: secret@, sample: sample@ }),
            CryptoRequest::Hash { algorithm, data } => request@ == (CryptoRequestView::Hash {
                algorithm,
                data: data@,
            }),
            CryptoRequest::Seal {
                cipher,
                secret,
                min_packet_number,
                packet_number,
                header,
                plaintext,
            } => request@ == (CryptoRequestView::Seal {
                cipher,
                secret: secret@,
                min_packet_number,
                packet_number,
                header: header@,
                plaintext: plaintext@,
            }),
            CryptoRequest::Open {
                cipher,
                secret,
                min_packet_number,
                packet_number,
                header,
                ciphertext,
            } => request@ == (CryptoRequestView::Open {
                cipher,
                secret: secret@,
                min_packet_number,
                packet_number,
                header: header@,
                ciphertext: ciphertext@,
            }),
        },
{
}

/// The steps of either end are of their kind, and hold the request, the outcome or the
/// error.
pub proof fn law_steps(output: ChannelSendOutput, sent: SendStep, received: ReceiveStep)
    ensures
        output@.packet_number == output.packet_number,
        output@.key_sequence == output.key_sequence,
        output@.key_phase == output.key_phase,
        output@.packet_len == output.packet_len,
        output@.integrity == output.integrity@,
        match sent {
            SendStep::Await(request) => sent@ == SendStepView::Await(request@),
            SendStep::Done(Ok(output)) => sent@ == SendStepView::Done(Ok(output@)),
            SendStep::Done(Err(e)) => sent@ == SendStepView::Done(Err(e)),
        },
        match received {
            ReceiveStep::Await(request) => received@ == ReceiveStepView::Await(request@),
            ReceiveStep::Done(Ok(released)) => received@ == ReceiveStepView::Done(
                Ok(receive::datagram_views(released@)),
            ),
            ReceiveStep::Done(Err(e)) => received@ == ReceiveStepView::Done(Err(e)),
        },
{
}

/// A result holds what its value does, or its error.
pub proof fn law_results(
    bytes: Res<Vec<u8>>,
    control: Res<Frame>,
    quic: Res<QuicFrame>,
    carried: Res<ChannelFrame>,
    frames: Res<Vec<ChannelFrame>>,
    packet: Res<ChannelPacket>,
    request: Res<CryptoRequest>,
    client: Res<ClientTransportParams>,
    list: Res<Vec<u16>>,
    ranges: Res<Vec<AckRange>>,
    ack: Option<Ack>,
)
    ensures
        match bytes {
            Ok(v) => codec::bytes_result(bytes) == Ok::<Seq<u8>, Error>(v@),
            Err(e) => codec::bytes_result(bytes) == Err::<Seq<u8>, Error>(e),
        },
        match control {
            Ok(v) => frame::frame_result(control) == Ok::<FrameView, Error>(v@),
            Err(e) => frame::frame_result(control) == Err::<FrameView, Error>(e),
        },
        match quic {
            Ok(v) => channel_frame::quic_frame_result(quic) == Ok::<QuicFrameView, Error>(v@),
            Err(e) => channel_frame::quic_frame_result(quic) == Err::<QuicFrameView, Error>(e),
        },
        match carried {
            Ok(v) => channel_frame::channel_frame_result(carried) == Ok::<ChannelFrameView, Error>(
                v@,
            ),
            Err(e) => channel_frame::channel_frame_result(carried) == Err::<
                ChannelFrameView,
                Error,
            >(e),
        },
        match frames {
            Ok(v) => channel_frame::channel_frames_result(frames) == Ok::<
                Seq<ChannelFrameView>,
                Error,
            >(channel_frame::frame_views(v@)),
            Err(e) => channel_frame::channel_frames_result(frames) == Err::<
                Seq<ChannelFrameView>,
                Error,
            >(e),
        },
        match packet {
            Ok(v) => packet::packet_result(packet) == Ok::<ChannelPacketView, Error>(v@),
            Err(e) => packet::packet_result(packet) == Err::<ChannelPacketView, Error>(e),
        },
        match request {
            Ok(v) => packet::request_result(request) == Ok::<CryptoRequestView, Error>(v@),
            Err(e) => packet::request_result(request) == Err::<CryptoRequestView, Error>(e),
        },
        match client {
            Ok(v) => params::params_result(client) == Ok::<ClientTransportParamsView, Error>(v@),
            Err(e) => params::params_result(client) == Err::<ClientTransportParamsView, Error>(e),
        },
        match list {
            Ok(v) => params::u16_list_result(list) == Ok::<Seq<u16>, Error>(v@),
            Err(e) => params::u16_list_result(list) == Err::<Seq<u16>, Error>(e),
        },
        match ranges {
            Ok(v) => frame::ack_ranges_result(ranges) == Ok::<Seq<AckRange>, Error>(v@),
            Err(e) => frame::ack_ranges_result(ranges) == Err::<Seq<AckRange>, Error>(e),
        },
        match ack {
            Some(v) => ack::ack_option(ack) == Some(v@),
            None => ack::ack_option(ack) is None,
        },
{
}

} // verus!
