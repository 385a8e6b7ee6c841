//! Laws of where the fields of a multicast control frame stand on the wire, and of
//! what is read of them there.

use vstd::prelude::*;
use crate::codec;
use crate::codec_laws;
use crate::error::Error;
use crate::frame;
use crate::frame_laws;
use crate::types::{AckEcnCounts, AckRange, AckView, AnnounceView, ChannelState, ClientLimits, FrameView, IntegrityView, IpAddrView, JoinView, KeyView, LeaveView, Limits, RetireView, StateReasonScope, StateView};

verus! {

// ---------------------------------------------------------------------------
// Which frames there are
// ---------------------------------------------------------------------------

/// The type of each frame. Two announced addresses of different families have none.
pub proof fn law_frame_types(frame: FrameView)
    ensures
        frame is Key ==> frame.wire_type() == Ok::<u64, Error>(0xff3e801),
        frame is Join ==> frame.wire_type() == Ok::<u64, Error>(0xff3e802),
        frame is Leave ==> frame.wire_type() == Ok::<u64, Error>(0xff3e803),
        frame matches FrameView::Integrity(f) ==> frame.wire_type() == Ok::<u64, Error>(
            if f.packet_hash_count is None {
                0xff3e804
            } else {
                0xff3e805
            },
        ),
        frame matches FrameView::Ack(f) ==> frame.wire_type() == Ok::<u64, Error>(
            if f.ecn_counts is None {
                0xff3e806
            } else {
                0xff3e807
            },
        ),
        frame is Limits ==> frame.wire_type() == Ok::<u64, Error>(0xff3e809),
        frame is Retire ==> frame.wire_type() == Ok::<u64, Error>(0xff3e80a),
        frame matches FrameView::State(f) ==> frame.wire_type() == Ok::<u64, Error>(
            if f.reason_scope is Transport {
                0xff3e80b
            } else {
                0xff3e80c
            },
        ),
        frame matches FrameView::Announce(f) ==> frame.wire_type() == (if f.source is V4
            && f.group is V4 {
            Ok::<u64, Error>(0xff3e811)
        } else if f.source is V6 && f.group is V6 {
            Ok(0xff3e812)
        } else {
            Err(Error::FrameEncoding)
        }),
{
}

/// A frame can be put on the wire unless its channel ID is empty or longer than 20
/// bytes, its addresses are of two families, or it reports a joined or a retired
/// channel for another reason than that the server asked for it.
pub proof fn law_valid_frames(frame: FrameView)
    ensures
        frame.valid() <==> match frame {
            FrameView::Announce(f) => 1 <= f.channel_id.len() <= 20 && (f.source is V4
                <==> f.group is V4),
            FrameView::Key(f) => 1 <= f.channel_id.len() <= 20,
            FrameView::Join(f) => 1 <= f.channel_id.len() <= 20,
            FrameView::Leave(f) => 1 <= f.channel_id.len() <= 20,
            FrameView::Integrity(f) => 1 <= f.channel_id.len() <= 20,
            FrameView::Ack(f) => 1 <= f.channel_id.len() <= 20,
            FrameView::Limits(_) => true,
            FrameView::Retire(f) => 1 <= f.channel_id.len() <= 20,
            FrameView::State(f) => 1 <= f.channel_id.len() <= 20 && (f.reason_code == 1 || f.state
                is Left || f.state is DeclinedJoin),
        },
        frame.valid() ==> frame.written_bytes() == frame.wire_bytes(),
        !frame.valid() && frame.wire_type() is Ok ==> frame.written_bytes() == codec::varint_bytes(
            frame.wire_type()->Ok_0,
        ),
        frame.wire_type() is Err ==> frame.written_bytes().len() == 0,
{
}

/// A number fits in its field if it is below 2 to the power of 62, and so does the
/// length of a byte string.
pub proof fn law_fitting_frames(frame: FrameView)
    ensures
        frame.fits() <==> match frame {
            FrameView::Announce(f) => f.header_secret.len() < 0x4000_0000_0000_0000
                && f.max_rate_kibps < 0x4000_0000_0000_0000 && f.max_ack_delay_ms
                < 0x4000_0000_0000_0000,
            FrameView::Key(f) => f.key_sequence < 0x4000_0000_0000_0000 && f.from_packet_number
                < 0x4000_0000_0000_0000 && f.secret.len() < 0x4000_0000_0000_0000,
            FrameView::Join(f) => f.mc_limits_sequence < 0x4000_0000_0000_0000
                && f.mc_state_sequence < 0x4000_0000_0000_0000 && f.mc_key_sequence
                < 0x4000_0000_0000_0000,
            FrameView::Leave(f) => f.mc_state_sequence < 0x4000_0000_0000_0000
                && f.after_packet_number < 0x4000_0000_0000_0000,
            FrameView::Integrity(f) => f.packet_number_start < 0x4000_0000_0000_0000 && (
            f.packet_hash_count matches Some(count) ==> count < 0x4000_0000_0000_0000),
            FrameView::Ack(f) => f.largest_acknowledged < 0x4000_0000_0000_0000 && f.ack_delay
                < 0x4000_0000_0000_0000 && f.first_ack_range < 0x4000_0000_0000_0000
                && f.ack_ranges.len() < 0x4000_0000_0000_0000 && (forall|i: int|
                0 <= i < f.ack_ranges.len() ==> (#[trigger] f.ack_ranges[i]).gap
                    < 0x4000_0000_0000_0000 && f.ack_ranges[i].ack_range_length
                    < 0x4000_0000_0000_0000) && (f.ecn_counts matches Some(counts)
                ==> counts.ect0_count < 0x4000_0000_0000_0000 && counts.ect1_count
                < 0x4000_0000_0000_0000 && counts.ecn_ce_count < 0x4000_0000_0000_0000),
            FrameView::Limits(f) => f.sequence < 0x4000_0000_0000_0000
                && f.limits.max_aggregate_rate_kibps < 0x4000_0000_0000_0000
                && f.limits.max_channel_ids < 0x4000_0000_0000_0000 && f.max_joined_count
                < 0x4000_0000_0000_0000,
            FrameView::Retire(f) => f.after_packet_number < 0x4000_0000_0000_0000,
            FrameView::State(f) => f.sequence < 0x4000_0000_0000_0000 && f.reason_code
                < 0x4000_0000_0000_0000 && f.reason_phrase.len() < 0x4000_0000_0000_0000,
        },
{
}

// ---------------------------------------------------------------------------
// Where the fields stand
// ---------------------------------------------------------------------------

proof fn lemma_type_bytes(frame_type: u64)
    requires
        0xff3e801 <= frame_type <= 0xff3e812,
    ensures
        codec::varint_bytes(frame_type) == seq![
            0x8fu8,
            0xf3u8,
            0xe8u8,
            (frame_type - 0xff3e800) as u8,
        ],
{
    codec_laws::law_varint_written(frame_type);
    assert(frame_type / 0x100 == 0xff3e8);
    assert(frame_type % 0x100 == frame_type - 0xff3e800);
    assert(frame_type / 0x1_0000 == 0xff3);
    assert(frame_type / 0x100_0000 == 0xf);
}

/// Only announcements have addresses, and each has as many octets as its family. A frame
/// that can be put on the wire is read again unless it has more than 32768 ACK ranges
/// behind the first.
pub proof fn law_readable_frames(frame: FrameView)
    ensures
        frame.addresses_valid() <==> (frame matches FrameView::Announce(f) ==> {
            &&& match f.source {
                IpAddrView::V4(octets) => octets.len() == 4,
                IpAddrView::V6(octets) => octets.len() == 16,
            }
            &&& match f.group {
                IpAddrView::V4(octets) => octets.len() == 4,
                IpAddrView::V6(octets) => octets.len() == 16,
            }
        }),
        frame_laws::readable(frame) <==> {
            &&& frame.valid()
            &&& frame.fits()
            &&& frame.addresses_valid()
            &&& frame matches FrameView::Ack(f) ==> f.ack_ranges.len() <= 32768
        },
{
}

/// Behind the four bytes of its type, an announcement of either family has the
/// length of the channel ID and the channel ID, the octets of the source one by
/// one, and those of the group.
pub proof fn law_announce_octets(announce: AnnounceView, j: int)
    requires
        FrameView::Announce(announce).valid(),
        FrameView::Announce(announce).addresses_valid(),
    ensures
        ({
            let wire = FrameView::Announce(announce).wire_bytes();
            let at = 5 + announce.channel_id.len();
            &&& wire[4] == announce.channel_id.len()
            &&& 0 <= j < announce.channel_id.len() ==> wire[5 + j] == announce.channel_id[j]
            &&& announce.source is V4 && 0 <= j < 4 ==> {
                &&& wire[at + j] == announce.source->V4_0[j]
                &&& wire[at + 4 + j] == announce.group->V4_0[j]
            }
            &&& announce.source is V6 && 0 <= j < 16 ==> {
                &&& wire[at + j] == announce.source->V6_0[j]
                &&& wire[at + 16 + j] == announce.group->V6_0[j]
            }
        }),
{
    lemma_type_bytes(FrameView::Announce(announce).wire_type()->Ok_0);
}

/// The addresses of an announcement that is read are the octets that stand behind
/// the channel ID, one by one, in their order.
pub proof fn law_announced_octets_read(s: Seq<u8>, hash_len: Option<usize>, j: int)
    ensures
        frame::parse_payload(s, 0xff3e811, hash_len).0 matches Ok(FrameView::Announce(f)) ==> {
            let at = 1 + f.channel_id.len();
            &&& s[0] == f.channel_id.len()
            &&& 0 <= j < f.channel_id.len() ==> f.channel_id[j] == s[1 + j]
            &&& f.source is V4 && f.group is V4
            &&& f.source->V4_0.len() == 4 && f.group->V4_0.len() == 4
            &&& 0 <= j < 4 ==> f.source->V4_0[j] == s[at + j] && f.group->V4_0[j] == s[at + 4 + j]
        },
        frame::parse_payload(s, 0xff3e812, hash_len).0 matches Ok(FrameView::Announce(f)) ==> {
            let at = 1 + f.channel_id.len();
            &&& s[0] == f.channel_id.len()
            &&& 0 <= j < f.channel_id.len() ==> f.channel_id[j] == s[1 + j]
            &&& f.source is V6 && f.group is V6
            &&& f.source->V6_0.len() == 16 && f.group->V6_0.len() == 16
            &&& 0 <= j < 16 ==> f.source->V6_0[j] == s[at + j] && f.group->V6_0[j] == s[at + 16 + j]
        },
{
}

/// `MC_KEY`: the channel ID, the number of the key, the packet number that it
/// begins at, and the secret behind its length.
pub proof fn law_key_layout(f: KeyView)
    requires
        FrameView::Key(f).valid(),
    ensures
        FrameView::Key(f).wire_bytes() == seq![
            0x8fu8,
            0xf3u8,
            0xe8u8,
            0x01u8,
            f.channel_id.len() as u8,
        ] + f.channel_id + codec::varint_bytes(f.key_sequence)
            + codec::varint_bytes(f.from_packet_number)
            + codec::varint_bytes(f.secret.len() as u64) + f.secret,
{
    lemma_type_bytes(FrameView::Key(f).wire_type()->Ok_0);
}

/// `MC_JOIN`: the channel ID, and the numbers of the limits, of the state and of
/// the key.
pub proof fn law_join_layout(f: JoinView)
    requires
        FrameView::Join(f).valid(),
    ensures
        FrameView::Join(f).wire_bytes() == seq![
            0x8fu8,
            0xf3u8,
            0xe8u8,
            0x02u8,
            f.channel_id.len() as u8,
        ] + f.channel_id + codec::varint_bytes(f.mc_limits_sequence)
            + codec::varint_bytes(f.mc_state_sequence) + codec::varint_bytes(f.mc_key_sequence),
{
    lemma_type_bytes(FrameView::Join(f).wire_type()->Ok_0);
}

/// `MC_LEAVE`: the channel ID, the number of the state, and the last packet.
pub proof fn law_leave_layout(f: LeaveView)
    requires
        FrameView::Leave(f).valid(),
    ensures
        FrameView::Leave(f).wire_bytes() == seq![
            0x8fu8,
            0xf3u8,
            0xe8u8,
            0x03u8,
            f.channel_id.len() as u8,
        ] + f.channel_id + codec::varint_bytes(f.mc_state_sequence)
            + codec::varint_bytes(f.after_packet_number),
{
    lemma_type_bytes(FrameView::Leave(f).wire_type()->Ok_0);
}

/// `MC_INTEGRITY`: the channel ID, the first packet, how many hashes there are,
/// where it is told, and the hashes.
pub proof fn law_integrity_layout(f: IntegrityView)
    requires
        FrameView::Integrity(f).valid(),
    ensures
        f.packet_hash_count is None ==> FrameView::Integrity(f).wire_bytes() == seq![
            0x8fu8,
            0xf3u8,
            0xe8u8,
            0x04u8,
            f.channel_id.len() as u8,
        ] + f.channel_id + codec::varint_bytes(f.packet_number_start) + f.packet_hashes,
        f.packet_hash_count matches Some(count) ==> FrameView::Integrity(f).wire_bytes() == seq![
            0x8fu8,
            0xf3u8,
            0xe8u8,
            0x05u8,
            f.channel_id.len() as u8,
        ] + f.channel_id + codec::varint_bytes(f.packet_number_start)
            + codec::varint_bytes(count) + f.packet_hashes,
{
    lemma_type_bytes(FrameView::Integrity(f).wire_type()->Ok_0);
}

/// `MC_ACK`: the channel ID, the largest packet, the delay, the count of the ranges
/// behind the first, the first range, the others, and the three ECN counters, where
/// it has them.
pub proof fn law_ack_layout(f: AckView)
    requires
        FrameView::Ack(f).valid(),
    ensures
        f.ecn_counts is None ==> FrameView::Ack(f).wire_bytes() == seq![
            0x8fu8,
            0xf3u8,
            0xe8u8,
            0x06u8,
            f.channel_id.len() as u8,
        ] + f.channel_id + codec::varint_bytes(f.largest_acknowledged)
            + codec::varint_bytes(f.ack_delay) + codec::varint_bytes(f.ack_ranges.len() as u64)
            + codec::varint_bytes(f.first_ack_range) + frame::ack_ranges_bytes(f.ack_ranges),
        f.ecn_counts matches Some(counts) ==> FrameView::Ack(f).wire_bytes() == seq![
            0x8fu8,
            0xf3u8,
            0xe8u8,
            0x07u8,
            f.channel_id.len() as u8,
        ] + f.channel_id + codec::varint_bytes(f.largest_acknowledged)
            + codec::varint_bytes(f.ack_delay) + codec::varint_bytes(f.ack_ranges.len() as u64)
            + codec::varint_bytes(f.first_ack_range) + frame::ack_ranges_bytes(f.ack_ranges)
            + codec::varint_bytes(counts.ect0_count) + codec::varint_bytes(counts.ect1_count)
            + codec::varint_bytes(counts.ecn_ce_count),
{
    lemma_type_bytes(FrameView::Ack(f).wire_type()->Ok_0);
}

/// ACK ranges stand one behind the other, each as its gap and its length.
pub proof fn law_ack_ranges_layout(ranges: Seq<AckRange>, next: AckRange)
    ensures
        frame::ack_ranges_bytes(Seq::empty()).len() == 0,
        frame::ack_ranges_bytes(ranges.push(next)) == frame::ack_ranges_bytes(ranges)
            + codec::varint_bytes(next.gap) + codec::varint_bytes(next.ack_range_length),
{
    assert(ranges.push(next).drop_last() =~= ranges);
}

/// Limits: one byte whose lowest bit is set where IPv4 channels are allowed and the
/// next one where IPv6 channels are, the rate, and the count of channel IDs.
pub proof fn law_client_limits_layout(limits: ClientLimits)
    ensures
        frame::limits_bytes(limits) == seq![
            match (limits.ipv6_channels_allowed, limits.ipv4_channels_allowed) {
                (false, false) => 0u8,
                (false, true) => 1u8,
                (true, false) => 2u8,
                (true, true) => 3u8,
            },
        ] + codec::varint_bytes(limits.max_aggregate_rate_kibps) + codec::varint_bytes(
            limits.max_channel_ids,
        ),
{
}

/// `MC_LIMITS`: the number of the limits, the limits, and how many channels may be
/// joined. It names no channel.
pub proof fn law_limits_layout(f: Limits)
    requires
        FrameView::Limits(f).valid(),
    ensures
        FrameView::Limits(f).wire_bytes() == seq![
            0x8fu8,
            0xf3u8,
            0xe8u8,
            0x09u8,
        ] + codec::varint_bytes(f.sequence) + frame::limits_bytes(f.limits)
            + codec::varint_bytes(f.max_joined_count),
{
    lemma_type_bytes(FrameView::Limits(f).wire_type()->Ok_0);
}

/// `MC_RETIRE`: the channel ID, and the last packet.
pub proof fn law_retire_layout(f: RetireView)
    requires
        FrameView::Retire(f).valid(),
    ensures
        FrameView::Retire(f).wire_bytes() == seq![
            0x8fu8,
            0xf3u8,
            0xe8u8,
            0x0au8,
            f.channel_id.len() as u8,
        ] + f.channel_id + codec::varint_bytes(f.after_packet_number),
{
    lemma_type_bytes(FrameView::Retire(f).wire_type()->Ok_0);
}

/// `MC_STATE`: the channel ID, the number of the state, one byte for the state, the
/// reason, and the reason phrase behind its length. The type tells whose reason it
/// is.
pub proof fn law_state_layout(f: StateView)
    requires
        FrameView::State(f).valid(),
    ensures
        FrameView::State(f).wire_bytes() == seq![
            0x8fu8,
            0xf3u8,
            0xe8u8,
            if f.reason_scope is Transport {
                0x0bu8
            } else {
                0x0cu8
            },
            f.channel_id.len() as u8,
        ] + f.channel_id + codec::varint_bytes(f.sequence) + seq![
            match f.state {
                ChannelState::Left => 1u8,
                ChannelState::DeclinedJoin => 2u8,
                ChannelState::Joined => 3u8,
                ChannelState::Retired => 4u8,
            },
        ] + codec::varint_bytes(f.reason_code) + codec::varint_bytes(f.reason_phrase.len() as u64)
            + f.reason_phrase,
{
    lemma_type_bytes(FrameView::State(f).wire_type()->Ok_0);
}

/// `MC_ANNOUNCE`, behind its addresses: the port, the header protection, the header
/// secret behind its length, the AEAD, the integrity hash, the rate and the delay.
/// Numbers of two bytes have the upper one first.
pub proof fn law_announce_layout(f: AnnounceView)
    requires
        FrameView::Announce(f).valid(),
        FrameView::Announce(f).addresses_valid(),
    ensures
        ({
            let at = 5 + f.channel_id.len() + if f.source is V4 {
                8int
            } else {
                32int
            };
            FrameView::Announce(f).wire_bytes().skip(at) == seq![
                (f.udp_port / 256) as u8,
                (f.udp_port % 256) as u8,
                (f.header_protection_algorithm / 256) as u8,
                (f.header_protection_algorithm % 256) as u8,
            ] + codec::varint_bytes(f.header_secret.len() as u64) + f.header_secret + seq![
                (f.aead_algorithm / 256) as u8,
                (f.aead_algorithm % 256) as u8,
                (f.integrity_hash_algorithm / 256) as u8,
                (f.integrity_hash_algorithm % 256) as u8,
            ] + codec::varint_bytes(f.max_rate_kibps) + codec::varint_bytes(f.max_ack_delay_ms)
        }),
        f.source is V4 ==> FrameView::Announce(f).wire_bytes().take(4) == seq![
            0x8fu8,
            0xf3u8,
            0xe8u8,
            0x11u8,
        ],
        f.source is V6 ==> FrameView::Announce(f).wire_bytes().take(4) == seq![
            0x8fu8,
            0xf3u8,
            0xe8u8,
            0x12u8,
        ],
{
    lemma_type_bytes(FrameView::Announce(f).wire_type()->Ok_0);
    codec_laws::law_u16_bytes(f.udp_port);
    codec_laws::law_u16_bytes(f.header_protection_algorithm);
    codec_laws::law_u16_bytes(f.aead_algorithm);
    codec_laws::law_u16_bytes(f.integrity_hash_algorithm);
}

// ---------------------------------------------------------------------------
// What is read
// ---------------------------------------------------------------------------

/// A channel ID is read if it has 1 to 20 bytes and all of them are there.
pub proof fn law_channel_id_read(s: Seq<u8>)
    ensures
        s.len() == 0 ==> frame::parse_channel_id(s).0 == Err::<Seq<u8>, Error>(Error::NoMoreData),
        s.len() >= 1 && (s[0] == 0 || s[0] > 20) ==> frame::parse_channel_id(s).0 == Err::<
            Seq<u8>,
            Error,
        >(Error::FrameEncoding),
        s.len() >= 1 && 1 <= s[0] <= 20 && s.len() <= s[0] ==> frame::parse_channel_id(s).0 == Err::<
            Seq<u8>,
            Error,
        >(Error::NoMoreData),
        s.len() >= 1 && 1 <= s[0] <= 20 && s.len() > s[0] ==> frame::parse_channel_id(s) == (
            Ok::<Seq<u8>, Error>(s.subrange(1, 1 + s[0])),
            s.skip(1 + s[0]),
        ),
{
    if s.len() >= 1 && 1 <= s[0] <= 20 && s.len() > s[0] {
        assert(s.skip(1).take(s[0] as int) =~= s.subrange(1, 1 + s[0]));
        assert(s.skip(1).skip(s[0] as int) =~= s.skip(1 + s[0]));
    }
}

/// `MC_KEY` is read field by field. A field that is cut off is missing data.
pub proof fn law_key_read(s: Seq<u8>, hash_len: Option<usize>)
    ensures
        ({
            let read = frame::parse_payload(s, 0xff3e801, hash_len);
            let (id, s1) = frame::parse_channel_id(s);
            let (sequence, s2) = codec::parse_varint(s1);
            let (from, s3) = codec::parse_varint(s2);
            let (secret, s4) = codec::parse_vvec(s3);
            &&& id matches Err(e) ==> read.0 == Err::<FrameView, Error>(e)
            &&& id is Ok && (sequence is None || from is None || secret is None)
                ==> read.0 == Err::<FrameView, Error>(Error::NoMoreData)
            &&& id is Ok && sequence is Some && from is Some && secret is Some ==> read == (
                Ok::<FrameView, Error>(
                    FrameView::Key(
                        KeyView {
                            channel_id: id->Ok_0,
                            key_sequence: sequence->Some_0,
                            from_packet_number: from->Some_0,
                            secret: secret->Some_0,
                        },
                    ),
                ),
                s4,
            )
        }),
{
}

/// `MC_JOIN` is read field by field.
pub proof fn law_join_read(s: Seq<u8>, hash_len: Option<usize>)
    ensures
        ({
            let read = frame::parse_payload(s, 0xff3e802, hash_len);
            let (id, s1) = frame::parse_channel_id(s);
            let (limits, s2) = codec::parse_varint(s1);
            let (state, s3) = codec::parse_varint(s2);
            let (key, s4) = codec::parse_varint(s3);
            &&& id matches Err(e) ==> read.0 == Err::<FrameView, Error>(e)
            &&& id is Ok && (limits is None || state is None || key is None)
                ==> read.0 == Err::<FrameView, Error>(Error::NoMoreData)
            &&& id is Ok && limits is Some && state is Some && key is Some ==> read == (
                Ok::<FrameView, Error>(
                    FrameView::Join(
                        JoinView {
                            channel_id: id->Ok_0,
                            mc_limits_sequence: limits->Some_0,
                            mc_state_sequence: state->Some_0,
                            mc_key_sequence: key->Some_0,
                        },
                    ),
                ),
                s4,
            )
        }),
{
}

/// `MC_LEAVE` is read field by field.
pub proof fn law_leave_read(s: Seq<u8>, hash_len: Option<usize>)
    ensures
        ({
            let read = frame::parse_payload(s, 0xff3e803, hash_len);
            let (id, s1) = frame::parse_channel_id(s);
            let (state, s2) = codec::parse_varint(s1);
            let (after, s3) = codec::parse_varint(s2);
            &&& id matches Err(e) ==> read.0 == Err::<FrameView, Error>(e)
            &&& id is Ok && (state is None || after is None)
                ==> read.0 == Err::<FrameView, Error>(Error::NoMoreData)
            &&& id is Ok && state is Some && after is Some ==> read == (
                Ok::<FrameView, Error>(
                    FrameView::Leave(
                        LeaveView {
                            channel_id: id->Ok_0,
                            mc_state_sequence: state->Some_0,
                            after_packet_number: after->Some_0,
                        },
                    ),
                ),
                s3,
            )
        }),
{
}

/// `MC_RETIRE` is read field by field.
pub proof fn law_retire_read(s: Seq<u8>, hash_len: Option<usize>)
    ensures
        ({
            let read = frame::parse_payload(s, 0xff3e80a, hash_len);
            let (id, s1) = frame::parse_channel_id(s);
            let (after, s2) = codec::parse_varint(s1);
            &&& id matches Err(e) ==> read.0 == Err::<FrameView, Error>(e)
            &&& id is Ok && (after is None) ==> read.0 == Err::<FrameView, Error>(Error::NoMoreData)
            &&& id is Ok && after is Some ==> read == (
                Ok::<FrameView, Error>(
                    FrameView::Retire(
                        RetireView {
                            channel_id: id->Ok_0,
                            after_packet_number: after->Some_0,
                        },
                    ),
                ),
                s2,
            )
        }),
{
}

/// `MC_INTEGRITY` without a count is read to the end of the packet.
pub proof fn law_integrity_read(s: Seq<u8>, hash_len: Option<usize>)
    ensures
        ({
            let read = frame::parse_payload(s, 0xff3e804, hash_len);
            let (id, s1) = frame::parse_channel_id(s);
            let (start, s2) = codec::parse_varint(s1);
            &&& id matches Err(e) ==> read.0 == Err::<FrameView, Error>(e)
            &&& id is Ok && (start is None) ==> read.0 == Err::<FrameView, Error>(Error::NoMoreData)
            &&& id is Ok && start is Some ==> read == (
                Ok::<FrameView, Error>(
                    FrameView::Integrity(
                        IntegrityView {
                            channel_id: id->Ok_0,
                            packet_number_start: start->Some_0,
                            packet_hash_count: None,
                            packet_hashes: s2,
                        },
                    ),
                ),
                Seq::<u8>::empty(),
            )
        }),
{
}

/// `MC_INTEGRITY` with a count is read to the end of the packet where the length of
/// a hash is not known. Where it is, as many hashes are read as the count says.
pub proof fn law_counted_integrity_read(s: Seq<u8>, hash_len: Option<usize>)
    ensures
        ({
            let read = frame::parse_payload(s, 0xff3e805, hash_len);
            let (id, s1) = frame::parse_channel_id(s);
            let (start, s2) = codec::parse_varint(s1);
            let (count, s3) = codec::parse_varint(s2);
            &&& id matches Err(e) ==> read.0 == Err::<FrameView, Error>(e)
            &&& id is Ok && (start is None || count is None) ==> read.0 == Err::<FrameView, Error>(
                Error::NoMoreData,
            )
            &&& id is Ok && start is Some && count is Some ==> match hash_len {
                None => read == (
                    Ok::<FrameView, Error>(
                        FrameView::Integrity(
                            IntegrityView {
                                channel_id: id->Ok_0,
                                packet_number_start: start->Some_0,
                                packet_hash_count: count,
                                packet_hashes: s3,
                            },
                        ),
                    ),
                    Seq::<u8>::empty(),
                ),
                Some(len) => {
                    let end = count->Some_0 * len;
                    if end > usize::MAX {
                        read.0 == Err::<FrameView, Error>(Error::FrameEncoding)
                    } else if end > s3.len() {
                        read.0 == Err::<FrameView, Error>(Error::NoMoreData)
                    } else {
                        read == (
                            Ok::<FrameView, Error>(
                                FrameView::Integrity(
                                    IntegrityView {
                                        channel_id: id->Ok_0,
                                        packet_number_start: start->Some_0,
                                        packet_hash_count: count,
                                        packet_hashes: s3.subrange(0, end),
                                    },
                                ),
                            ),
                            s3.subrange(end, s3.len() as int),
                        )
                    }
                },
            }
        }),
{
    let s1 = frame::parse_channel_id(s).1;
    let s2 = codec::parse_varint(s1).1;
    let (count, s3) = codec::parse_varint(s2);
    if count is Some && hash_len is Some {
        assert(count->Some_0 * hash_len->Some_0 >= 0) by (nonlinear_arith);
        assert(s3.subrange(0, 0) =~= s3.take(0));
    }
}

/// Limits are read field by field. Of the first byte only the lowest two bits have
/// a meaning.
pub proof fn law_client_limits_read(s: Seq<u8>)
    ensures
        ({
            let read = frame::parse_limits(s);
            let (rate, s2) = codec::parse_varint(s.skip(1));
            let (ids, s3) = codec::parse_varint(s2);
            &&& s.len() == 0 || rate is None || ids is None ==> read.0 == Err::<
                ClientLimits,
                Error,
            >(Error::NoMoreData)
            &&& s.len() > 0 && rate is Some && ids is Some ==> read == (
                Ok::<ClientLimits, Error>(
                    ClientLimits {
                        ipv4_channels_allowed: s[0] % 2 == 1,
                        ipv6_channels_allowed: s[0] / 2 % 2 == 1,
                        max_aggregate_rate_kibps: rate->Some_0,
                        max_channel_ids: ids->Some_0,
                    },
                ),
                s3,
            )
        }),
{
    if s.len() > 0 {
        let flags = s[0];
        assert((flags & 0x01 != 0) == (flags % 2 == 1)) by (bit_vector);
        assert((flags & 0x02 != 0) == (flags / 2 % 2 == 1)) by (bit_vector);
    } else {
        codec_laws::law_fixed_fields_read(s, 0);
    }
}

/// `MC_LIMITS` is read field by field.
pub proof fn law_limits_read(s: Seq<u8>, hash_len: Option<usize>)
    ensures
        ({
            let read = frame::parse_payload(s, 0xff3e809, hash_len);
            let (sequence, s1) = codec::parse_varint(s);
            let (limits, s2) = frame::parse_limits(s1);
            let (joined, s3) = codec::parse_varint(s2);
            &&& sequence is None || limits is Err || joined is None ==> read.0 == Err::<
                FrameView,
                Error,
            >(Error::NoMoreData)
            &&& sequence is Some && limits is Ok && joined is Some ==> read == (
                Ok::<FrameView, Error>(
                    FrameView::Limits(
                        Limits {
                            sequence: sequence->Some_0,
                            limits: limits->Ok_0,
                            max_joined_count: joined->Some_0,
                        },
                    ),
                ),
                s3,
            )
        }),
{
}

/// `MC_STATE` is read field by field. A state that has no code, and a state that
/// may not have its reason, are refused.
pub proof fn law_state_read(s: Seq<u8>, hash_len: Option<usize>, frame_type: u64)
    requires
        frame_type == 0xff3e80b || frame_type == 0xff3e80c,
    ensures
        ({
            let read = frame::parse_payload(s, frame_type, hash_len);
            let (id, s1) = frame::parse_channel_id(s);
            let (sequence, s2) = codec::parse_varint(s1);
            let (reason, s3) = codec::parse_varint(s2.skip(1));
            let (phrase, s4) = codec::parse_vvec(s3);
            &&& id matches Err(e) ==> read.0 == Err::<FrameView, Error>(e)
            &&& id is Ok && (sequence is None || s2.len() == 0) ==> read.0 == Err::<
                FrameView,
                Error,
            >(Error::NoMoreData)
            &&& id is Ok && sequence is Some && s2.len() > 0 ==> {
                &&& s2[0] == 0 || s2[0] > 4 ==> read.0 == Err::<FrameView, Error>(
                    Error::FrameEncoding,
                )
                &&& 1 <= s2[0] <= 4 && (reason is None || phrase is None) ==> read.0 == Err::<
                    FrameView,
                    Error,
                >(Error::NoMoreData)
                &&& 3 <= s2[0] <= 4 && reason is Some && phrase is Some && reason != Some(1u64)
                    ==> read.0 == Err::<FrameView, Error>(Error::FrameEncoding)
                &&& 1 <= s2[0] <= 4 && reason is Some && phrase is Some && (s2[0] <= 2 || reason
                    == Some(1u64)) ==> read == (
                    Ok::<FrameView, Error>(
                        FrameView::State(
                            StateView {
                                channel_id: id->Ok_0,
                                sequence: sequence->Some_0,
                                state: if s2[0] == 1 {
                                    ChannelState::Left
                                } else if s2[0] == 2 {
                                    ChannelState::DeclinedJoin
                                } else if s2[0] == 3 {
                                    ChannelState::Joined
                                } else {
                                    ChannelState::Retired
                                },
                                reason_scope: if frame_type == 0xff3e80b {
                                    StateReasonScope::Transport
                                } else {
                                    StateReasonScope::Application
                                },
                                reason_code: reason->Some_0,
                                reason_phrase: phrase->Some_0,
                            },
                        ),
                    ),
                    s4,
                )
            }
        }),
{
}

/// `MC_ACK` is read up to its first range field by field. More than 32768 further
/// ranges are too many.
pub proof fn law_ack_read(s: Seq<u8>, hash_len: Option<usize>, frame_type: u64)
    requires
        frame_type == 0xff3e806 || frame_type == 0xff3e807,
    ensures
        ({
            let read = frame::parse_payload(s, frame_type, hash_len);
            let (id, s1) = frame::parse_channel_id(s);
            let (largest, s2) = codec::parse_varint(s1);
            let (delay, s3) = codec::parse_varint(s2);
            let (count, s4) = codec::parse_varint(s3);
            let (first, s5) = codec::parse_varint(s4);
            &&& id matches Err(e) ==> read.0 == Err::<FrameView, Error>(e)
            &&& id is Ok && (largest is None || delay is None || count is None) ==> read.0 == Err::<
                FrameView,
                Error,
            >(Error::NoMoreData)
            &&& id is Ok && largest is Some && delay is Some && count is Some ==> {
                let n = count->Some_0;
                let (ranges, s6) = frame::parse_ack_range_list(s5, n as nat);
                let (ect0, s7) = codec::parse_varint(s6);
                let (ect1, s8) = codec::parse_varint(s7);
                let (ce, s9) = codec::parse_varint(s8);
                &&& n > 32768 ==> read.0 == Err::<FrameView, Error>(Error::TooMuchData)
                &&& n <= 32768 && first is None ==> read.0 == Err::<FrameView, Error>(
                    Error::NoMoreData,
                )
                &&& n <= 32768 && first is Some && s5.len() < 2 * n ==> read.0 == Err::<
                    FrameView,
                    Error,
                >(Error::FrameEncoding)
                &&& n <= 32768 && first is Some && s5.len() >= 2 * n && ranges is Err ==> read.0
                    == Err::<FrameView, Error>(Error::NoMoreData)
                &&& n <= 32768 && first is Some && s5.len() >= 2 * n && ranges is Ok && frame_type
                    == 0xff3e807 && (ect0 is None || ect1 is None || ce is None) ==> read.0
                    == Err::<FrameView, Error>(Error::NoMoreData)
                &&& n <= 32768 && first is Some && s5.len() >= 2 * n && ranges is Ok && (frame_type
                    == 0xff3e806 || ect0 is Some && ect1 is Some && ce is Some) ==> read == (
                    Ok::<FrameView, Error>(
                        FrameView::Ack(
                            AckView {
                                channel_id: id->Ok_0,
                                largest_acknowledged: largest->Some_0,
                                ack_delay: delay->Some_0,
                                first_ack_range: first->Some_0,
                                ack_ranges: ranges->Ok_0,
                                ecn_counts: if frame_type == 0xff3e806 {
                                    None
                                } else {
                                    Some(
                                        AckEcnCounts {
                                            ect0_count: ect0->Some_0,
                                            ect1_count: ect1->Some_0,
                                            ecn_ce_count: ce->Some_0,
                                        },
                                    )
                                },
                            },
                        ),
                    ),
                    if frame_type == 0xff3e806 {
                        s6
                    } else {
                        s9
                    },
                )
            }
        }),
{
    let s1 = frame::parse_channel_id(s).1;
    let s2 = codec::parse_varint(s1).1;
    let s3 = codec::parse_varint(s2).1;
    let (count, s4) = codec::parse_varint(s3);
    let s5 = codec::parse_varint(s4).1;
    if count is Some {
        law_ack_range_list_read(s5, count->Some_0 as nat);
    }
}

/// ACK ranges are read one behind the other, each as its gap and its length, and
/// there are as many as were asked for.
pub proof fn law_ack_range_list_read(s: Seq<u8>, n: nat)
    ensures
        frame::parse_ack_range_list(s, 0) == (Ok::<Seq<AckRange>, Error>(Seq::empty()), s),
        frame::parse_ack_range_list(s, n).0 matches Err(e) ==> e == Error::NoMoreData,
        frame::parse_ack_range_list(s, n).0 matches Ok(ranges) ==> ranges.len() == n,
        n > 0 ==> ({
            let (gap, s1) = codec::parse_varint(s);
            let (length, s2) = codec::parse_varint(s1);
            let (others, rest) = frame::parse_ack_range_list(s2, (n - 1) as nat);
            &&& gap is None || length is None ==> frame::parse_ack_range_list(s, n).0 is Err
            &&& gap is Some && length is Some && others is Err ==> frame::parse_ack_range_list(
                s,
                n,
            ).0 is Err
            &&& gap is Some && length is Some && others is Ok ==> frame::parse_ack_range_list(s, n)
                == (
                Ok::<Seq<AckRange>, Error>(
                    seq![
                        AckRange { gap: gap->Some_0, ack_range_length: length->Some_0 },
                    ] + others->Ok_0,
                ),
                rest,
            )
        }),
    decreases n,
{
    if n > 0 {
        let s1 = codec::parse_varint(s).1;
        let s2 = codec::parse_varint(s1).1;
        law_ack_range_list_read(s2, (n - 1) as nat);
    }
}

/// What follows the addresses of an announcement is read field by field, and the
/// addresses are of the family that the type tells.
pub proof fn law_announce_read(s: Seq<u8>, hash_len: Option<usize>, frame_type: u64)
    requires
        frame_type == 0xff3e811 || frame_type == 0xff3e812,
    ensures
        ({
            let octets = if frame_type == 0xff3e811 {
                4nat
            } else {
                16nat
            };
            let read = frame::parse_payload(s, frame_type, hash_len);
            let (id, s1) = frame::parse_channel_id(s);
            let (source, s2) = codec::parse_bytes(s1, octets);
            let (group, s3) = codec::parse_bytes(s2, octets);
            let (port, s4) = codec::parse_u16(s3);
            let (header, s5) = codec::parse_u16(s4);
            let (secret, s6) = codec::parse_vvec(s5);
            let (aead, s7) = codec::parse_u16(s6);
            let (hash, s8) = codec::parse_u16(s7);
            let (rate, s9) = codec::parse_varint(s8);
            let (delay, s10) = codec::parse_varint(s9);
            let missing = source is None || group is None || port is None || header is None
                || secret is None || aead is None || hash is None || rate is None || delay is None;
            &&& id matches Err(e) ==> read.0 == Err::<FrameView, Error>(e)
            &&& id is Ok && missing ==> read.0 == Err::<FrameView, Error>(Error::NoMoreData)
            &&& id is Ok && !missing ==> read == (
                Ok::<FrameView, Error>(
                    FrameView::Announce(
                        AnnounceView {
                            channel_id: id->Ok_0,
                            source: if frame_type == 0xff3e811 {
                                IpAddrView::V4(source->Some_0)
                            } else {
                                IpAddrView::V6(source->Some_0)
                            },
                            group: if frame_type == 0xff3e811 {
                                IpAddrView::V4(group->Some_0)
                            } else {
                                IpAddrView::V6(group->Some_0)
                            },
                            udp_port: port->Some_0,
                            header_protection_algorithm: header->Some_0,
                            header_secret: secret->Some_0,
                            aead_algorithm: aead->Some_0,
                            integrity_hash_algorithm: hash->Some_0,
                            max_rate_kibps: rate->Some_0,
                            max_ack_delay_ms: delay->Some_0,
                        },
                    ),
                ),
                s10,
            )
        }),
{
}

/// A frame is what its type says and what follows the type; every other type is
/// unknown, and nothing may be left behind a frame that is read alone.
pub proof fn law_frame_read(s: Seq<u8>, hash_len: Option<usize>)
    ensures
        ({
            let (frame_type, payload) = codec::parse_varint(s);
            let (frame, rest) = frame::parse_frame(s);
            &&& frame_type is None ==> frame == Err::<FrameView, Error>(Error::NoMoreData)
            &&& frame_type matches Some(frame_type) ==> (frame, rest) == frame::parse_payload(
                payload,
                frame_type,
                None,
            )
            &&& frame_type matches Some(frame_type) ==> (!(0xff3e801 <= frame_type <= 0xff3e807
                || 0xff3e809 <= frame_type <= 0xff3e80c || 0xff3e811 <= frame_type <= 0xff3e812)
                <==> frame::parse_payload(payload, frame_type, hash_len).0 == Err::<
                FrameView,
                Error,
            >(Error::UnknownFrameType))
            &&& frame matches Err(e) ==> frame::parse_whole_frame(s) == Err::<FrameView, Error>(e)
            &&& frame is Ok && rest.len() > 0 ==> frame::parse_whole_frame(s) == Err::<
                FrameView,
                Error,
            >(Error::TooMuchData)
            &&& frame is Ok && rest.len() == 0 ==> frame::parse_whole_frame(s) == frame
        }),
{
    let (frame_type, payload) = codec::parse_varint(s);
    if let Some(t) = frame_type {
        if 0xff3e801 <= t <= 0xff3e807 || 0xff3e809 <= t <= 0xff3e80c || 0xff3e811 <= t
            <= 0xff3e812 {
            lemma_known_types(payload, t, hash_len);
        }
    }
}

proof fn lemma_known_types(s: Seq<u8>, frame_type: u64, hash_len: Option<usize>)
    requires
        0xff3e801 <= frame_type <= 0xff3e807 || 0xff3e809 <= frame_type <= 0xff3e80c || 0xff3e811
            <= frame_type <= 0xff3e812,
    ensures
        frame::parse_payload(s, frame_type, hash_len).0 != Err::<FrameView, Error>(
            Error::UnknownFrameType,
        ),
{
    if frame_type == 0xff3e801 {
        law_key_read(s, hash_len);
    } else if frame_type == 0xff3e802 {
        law_join_read(s, hash_len);
    } else if frame_type == 0xff3e803 {
        law_leave_read(s, hash_len);
    } else if frame_type == 0xff3e804 {
        law_integrity_read(s, hash_len);
    } else if frame_type == 0xff3e805 {
        law_counted_integrity_read(s, hash_len);
    } else if frame_type == 0xff3e806 || frame_type == 0xff3e807 {
        law_ack_read(s, hash_len, frame_type);
    } else if frame_type == 0xff3e809 {
        law_limits_read(s, hash_len);
    } else if frame_type == 0xff3e80a {
        law_retire_read(s, hash_len);
    } else if frame_type == 0xff3e80b || frame_type == 0xff3e80c {
        law_state_read(s, hash_len, frame_type);
    } else {
        law_announce_read(s, hash_len, frame_type);
    }
    law_channel_id_read(s);
}

// ---------------------------------------------------------------------------
// Fields
// ---------------------------------------------------------------------------

/// Thirteen frame types are those of multicast frames.
pub proof fn law_multicast_types(frame_type: u64)
    ensures
        frame::multicast_type(frame_type) <==> 0xff3e801 <= frame_type <= 0xff3e807 || 0xff3e809
            <= frame_type <= 0xff3e80c || 0xff3e811 <= frame_type <= 0xff3e812,
{
}

/// A channel ID has 1 to 20 bytes, and stands behind one byte with its length.
pub proof fn law_channel_ids(channel_id: Seq<u8>, j: int)
    ensures
        frame::channel_id_valid(channel_id) <==> 1 <= channel_id.len() <= 20,
        frame::channel_id_valid(channel_id) ==> {
            let bytes = frame::channel_id_bytes(channel_id);
            &&& bytes.len() == 1 + channel_id.len()
            &&& bytes[0] == channel_id.len()
            &&& 0 <= j < channel_id.len() ==> bytes[1 + j] == channel_id[j]
        },
{
}

/// The octets of an address stand on the wire in their order.
pub proof fn law_address_octets(addr: IpAddrView, j: int)
    ensures
        frame::ip_valid(addr) <==> match addr {
            IpAddrView::V4(octets) => octets.len() == 4,
            IpAddrView::V6(octets) => octets.len() == 16,
        },
        addr matches IpAddrView::V4(octets) ==> {
            &&& frame::ip_bytes(addr).len() == octets.len()
            &&& 0 <= j < octets.len() ==> frame::ip_bytes(addr)[j] == octets[j]
        },
        addr matches IpAddrView::V6(octets) ==> {
            &&& frame::ip_bytes(addr).len() == octets.len()
            &&& 0 <= j < octets.len() ==> frame::ip_bytes(addr)[j] == octets[j]
        },
{
}

/// The octets of an address are read in their order: four for the IPv4 announcement,
/// sixteen for the IPv6 one, and no other frame has an address.
pub proof fn law_address_read(s: Seq<u8>, frame_type: u64, j: int)
    ensures
        frame_type == 0xff3e811 ==> if s.len() < 4 {
            frame::parse_ip(s, frame_type).0 == Err::<IpAddrView, Error>(Error::NoMoreData)
        } else {
            &&& frame::parse_ip(s, frame_type).0 matches Ok(IpAddrView::V4(octets))
            &&& octets.len() == 4
            &&& 0 <= j < 4 ==> octets[j] == s[j]
            &&& frame::parse_ip(s, frame_type).1 == s.skip(4)
        },
        frame_type == 0xff3e812 ==> if s.len() < 16 {
            frame::parse_ip(s, frame_type).0 == Err::<IpAddrView, Error>(Error::NoMoreData)
        } else {
            &&& frame::parse_ip(s, frame_type).0 matches Ok(IpAddrView::V6(octets))
            &&& octets.len() == 16
            &&& 0 <= j < 16 ==> octets[j] == s[j]
            &&& frame::parse_ip(s, frame_type).1 == s.skip(16)
        },
        frame_type != 0xff3e811 && frame_type != 0xff3e812 ==> frame::parse_ip(s, frame_type).0
            == Err::<IpAddrView, Error>(Error::FrameEncoding),
{
}

/// The flags of limits: the lowest bit for IPv4 and the next one for IPv6.
pub proof fn law_limit_flags(limits: ClientLimits)
    ensures
        frame::limit_flags(limits) < 4,
        limits.ipv4_channels_allowed <==> frame::limit_flags(limits) % 2 == 1,
        limits.ipv6_channels_allowed <==> frame::limit_flags(limits) / 2 == 1,
        frame::limits_fit(limits) <==> limits.max_aggregate_rate_kibps < 0x4000_0000_0000_0000
            && limits.max_channel_ids < 0x4000_0000_0000_0000,
{
}

/// Each channel state has a code from 1 to 4, and every other code is refused.
pub proof fn law_channel_states(state: ChannelState, code: u8)
    ensures
        frame::parse_state(frame::state_code(state)) == Ok::<ChannelState, Error>(state),
        frame::parse_state(code) is Ok <==> 1 <= code <= 4,
        frame::parse_state(code) matches Err(e) ==> e == Error::FrameEncoding,
        state is Left ==> frame::state_code(state) == 1,
        state is DeclinedJoin ==> frame::state_code(state) == 2,
        state is Joined ==> frame::state_code(state) == 3,
        state is Retired ==> frame::state_code(state) == 4,
{
}

/// A channel is joined or retired because the server asked for it, which is the reason
/// 1. The other states can have any reason.
pub proof fn law_state_reasons(state: ChannelState, reason_code: u64)
    ensures
        frame::state_reason_valid(state, reason_code) <==> state is Left || state is DeclinedJoin
            || reason_code == 1,
{
}

/// ACK ranges are read as so many, unless fewer than two bytes are left for each.
pub proof fn law_ack_ranges_read(s: Seq<u8>, n: nat)
    ensures
        s.len() < 2 * n ==> frame::parse_ack_ranges(s, n).0 == Err::<Seq<AckRange>, Error>(
            Error::FrameEncoding,
        ),
        s.len() >= 2 * n ==> frame::parse_ack_ranges(s, n) == frame::parse_ack_range_list(s, n),
{
}

} // verus!
