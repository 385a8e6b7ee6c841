//! The wire format of multicast control frames.

use vstd::prelude::*;
use crate::codec;
use crate::codec::{Decoder, Encoder, Parsed, VARINT_LIMIT};
use crate::error::{Error, Res};
use crate::types::{Ack, AckEcnCounts, AckRange, AckView, Announce, AnnounceView, ChannelState, ClientLimits, Frame, FrameView, Integrity, IntegrityView, IpAddr, IpAddrView, Join, JoinView, Key, KeyView, Leave, LeaveView, Limits, Retire, RetireView, Sender, State, StateReasonScope, StateView, STATE_REASON_REQUESTED_BY_SERVER};

verus! {

const IP_FLAG_V4_ALLOWED: u8 = 0x01;

const IP_FLAG_V6_ALLOWED: u8 = 0x02;

/// The most ACK ranges that a received `MC_ACK` may announce.
pub const MAX_ACK_RANGE_COUNT: u64 = 32768;

/// The longest connection ID, and so the longest channel ID.
pub const CHANNEL_ID_MAX_LEN: usize = 20;

/// Experimental frame type for `MC_KEY`.
pub const FRAME_TYPE_KEY: u64 = 0xff3e801;

/// Experimental frame type for `MC_JOIN`.
pub const FRAME_TYPE_JOIN: u64 = 0xff3e802;

/// Experimental frame type for `MC_LEAVE`.
pub const FRAME_TYPE_LEAVE: u64 = 0xff3e803;

/// Experimental frame type for `MC_INTEGRITY`.
pub const FRAME_TYPE_INTEGRITY: u64 = 0xff3e804;

/// Experimental frame type for `MC_INTEGRITY_WITH_LENGTH`.
pub const FRAME_TYPE_INTEGRITY_WITH_LENGTH: u64 = 0xff3e805;

/// Experimental frame type for `MC_ACK`.
pub const FRAME_TYPE_ACK: u64 = 0xff3e806;

/// Experimental frame type for `MC_ACK_ECN`.
pub const FRAME_TYPE_ACK_ECN: u64 = 0xff3e807;

/// Experimental frame type for `MC_LIMITS`.
pub const FRAME_TYPE_LIMITS: u64 = 0xff3e809;

/// Experimental frame type for `MC_RETIRE`.
pub const FRAME_TYPE_RETIRE: u64 = 0xff3e80a;

/// Experimental frame type for transport-scoped `MC_STATE`.
pub const FRAME_TYPE_STATE: u64 = 0xff3e80b;

/// Experimental frame type for application-scoped `MC_STATE`.
pub const FRAME_TYPE_STATE_APPLICATION: u64 = 0xff3e80c;

/// Experimental frame type for IPv4 `MC_ANNOUNCE`.
pub const FRAME_TYPE_ANNOUNCE_V4: u64 = 0xff3e811;

/// Experimental frame type for IPv6 `MC_ANNOUNCE`.
pub const FRAME_TYPE_ANNOUNCE_V6: u64 = 0xff3e812;

// ---------------------------------------------------------------------------
// Model: fields
// ---------------------------------------------------------------------------

/// Whether `frame_type` is one of the multicast frame types.
pub open spec fn multicast_type(frame_type: u64) -> bool {
    ||| frame_type == FRAME_TYPE_KEY
    ||| frame_type == FRAME_TYPE_JOIN
    ||| frame_type == FRAME_TYPE_LEAVE
    ||| frame_type == FRAME_TYPE_INTEGRITY
    ||| frame_type == FRAME_TYPE_INTEGRITY_WITH_LENGTH
    ||| frame_type == FRAME_TYPE_ACK
    ||| frame_type == FRAME_TYPE_ACK_ECN
    ||| frame_type == FRAME_TYPE_LIMITS
    ||| frame_type == FRAME_TYPE_RETIRE
    ||| frame_type == FRAME_TYPE_STATE
    ||| frame_type == FRAME_TYPE_STATE_APPLICATION
    ||| frame_type == FRAME_TYPE_ANNOUNCE_V4
    ||| frame_type == FRAME_TYPE_ANNOUNCE_V6
}

/// Whether `channel_id` can name a channel.
pub open spec fn channel_id_valid(channel_id: Seq<u8>) -> bool {
    1 <= channel_id.len() <= CHANNEL_ID_MAX_LEN
}

/// Whether a channel may be in `state` for the reason `reason_code`.
pub open spec fn state_reason_valid(state: ChannelState, reason_code: u64) -> bool {
    state == ChannelState::Joined || state == ChannelState::Retired ==> reason_code
        == STATE_REASON_REQUESTED_BY_SERVER
}

/// The wire code of a channel state.
pub open spec fn state_code(state: ChannelState) -> u8 {
    match state {
        ChannelState::Left => 1,
        ChannelState::DeclinedJoin => 2,
        ChannelState::Joined => 3,
        ChannelState::Retired => 4,
    }
}

/// The channel state with the wire code `v`.
pub open spec fn parse_state(v: u8) -> Result<ChannelState, Error> {
    if v == 1 {
        Ok(ChannelState::Left)
    } else if v == 2 {
        Ok(ChannelState::DeclinedJoin)
    } else if v == 3 {
        Ok(ChannelState::Joined)
    } else if v == 4 {
        Ok(ChannelState::Retired)
    } else {
        Err(Error::FrameEncoding)
    }
}

/// A channel ID behind its length.
pub open spec fn channel_id_bytes(channel_id: Seq<u8>) -> Seq<u8> {
    seq![channel_id.len() as u8] + channel_id
}

/// Reads a channel ID behind its length.
pub open spec fn parse_channel_id(s: Seq<u8>) -> Parsed<Seq<u8>> {
    match codec::required(codec::parse_u8(s)) {
        (Err(e), s) => (Err(e), s),
        (Ok(len), s) => if 1 <= len <= CHANNEL_ID_MAX_LEN {
            codec::required(codec::parse_bytes(s, len as nat))
        } else {
            (Err(Error::FrameEncoding), s)
        },
    }
}

/// The octets of an address.
pub open spec fn ip_bytes(addr: IpAddrView) -> Seq<u8> {
    match addr {
        IpAddrView::V4(octets) => octets,
        IpAddrView::V6(octets) => octets,
    }
}

/// Whether an address has as many octets as its family.
pub open spec fn ip_valid(addr: IpAddrView) -> bool {
    match addr {
        IpAddrView::V4(octets) => octets.len() == 4,
        IpAddrView::V6(octets) => octets.len() == 16,
    }
}

/// Reads an address of the family that `frame_type` stands for.
pub open spec fn parse_ip(s: Seq<u8>, frame_type: u64) -> Parsed<IpAddrView> {
    if frame_type == FRAME_TYPE_ANNOUNCE_V4 {
        match codec::required(codec::parse_bytes(s, 4)) {
            (Err(e), s) => (Err(e), s),
            (Ok(octets), s) => (Ok(IpAddrView::V4(octets)), s),
        }
    } else if frame_type == FRAME_TYPE_ANNOUNCE_V6 {
        match codec::required(codec::parse_bytes(s, 16)) {
            (Err(e), s) => (Err(e), s),
            (Ok(octets), s) => (Ok(IpAddrView::V6(octets)), s),
        }
    } else {
        (Err(Error::FrameEncoding), s)
    }
}

/// The flag byte of client limits.
pub open spec fn limit_flags(limits: ClientLimits) -> u8 {
    ((if limits.ipv4_channels_allowed {
        1int
    } else {
        0int
    }) + (if limits.ipv6_channels_allowed {
        2int
    } else {
        0int
    })) as u8
}

/// Client limits on the wire.
pub open spec fn limits_bytes(limits: ClientLimits) -> Seq<u8> {
    seq![limit_flags(limits)] + codec::varint_bytes(limits.max_aggregate_rate_kibps) + codec::varint_bytes(
        limits.max_channel_ids,
    )
}

/// Whether the numbers in `limits` can be written.
pub open spec fn limits_fit(limits: ClientLimits) -> bool {
    &&& limits.max_aggregate_rate_kibps < VARINT_LIMIT
    &&& limits.max_channel_ids < VARINT_LIMIT
}

/// Reads client limits. Flag bits without a meaning are ignored.
pub open spec fn parse_limits(s: Seq<u8>) -> Parsed<ClientLimits> {
    match codec::required(codec::parse_u8(s)) {
        (Err(e), s) => (Err(e), s),
        (Ok(flags), s) => match codec::required(codec::parse_varint(s)) {
            (Err(e), s) => (Err(e), s),
            (Ok(rate), s) => match codec::required(codec::parse_varint(s)) {
                (Err(e), s) => (Err(e), s),
                (Ok(ids), s) => (
                    Ok(
                        ClientLimits {
                            ipv4_channels_allowed: flags & 0x01 != 0,
                            ipv6_channels_allowed: flags & 0x02 != 0,
                            max_aggregate_rate_kibps: rate,
                            max_channel_ids: ids,
                        },
                    ),
                    s,
                ),
            },
        },
    }
}

/// ACK ranges on the wire.
pub open spec fn ack_ranges_bytes(ranges: Seq<AckRange>) -> Seq<u8>
    decreases ranges.len(),
{
    if ranges.len() == 0 {
        Seq::empty()
    } else {
        ack_ranges_bytes(ranges.drop_last()) + codec::varint_bytes(ranges.last().gap) + codec::varint_bytes(
            ranges.last().ack_range_length,
        )
    }
}

/// What was read of a list before `p`, and what `p` read.
pub open spec fn after<T>(head: Seq<T>, p: Parsed<Seq<T>>) -> Parsed<Seq<T>> {
    match p.0 {
        Ok(tail) => (Ok(head + tail), p.1),
        Err(e) => (Err(e), p.1),
    }
}

/// Reads one ACK range.
pub open spec fn parse_ack_range(s: Seq<u8>) -> Parsed<AckRange> {
    match codec::required(codec::parse_varint(s)) {
        (Err(e), s) => (Err(e), s),
        (Ok(gap), s) => match codec::required(codec::parse_varint(s)) {
            (Err(e), s) => (Err(e), s),
            (Ok(ack_range_length), s) => (Ok(AckRange { gap, ack_range_length }), s),
        },
    }
}

/// Reads `n` ACK ranges.
pub open spec fn parse_ack_range_list(s: Seq<u8>, n: nat) -> Parsed<Seq<AckRange>>
    decreases n,
{
    if n == 0 {
        (Ok(Seq::empty()), s)
    } else {
        match parse_ack_range(s) {
            (Err(e), s) => (Err(e), s),
            (Ok(range), s) => after(seq![range], parse_ack_range_list(s, (n - 1) as nat)),
        }
    }
}

/// Reads `n` ACK ranges, of which each has at least two bytes.
pub open spec fn parse_ack_ranges(s: Seq<u8>, n: nat) -> Parsed<Seq<AckRange>> {
    if n > s.len() / 2 {
        (Err(Error::FrameEncoding), s)
    } else {
        parse_ack_range_list(s, n)
    }
}

/// ECN counters on the wire.
pub open spec fn ecn_bytes(counts: Option<AckEcnCounts>) -> Seq<u8> {
    match counts {
        Some(counts) => codec::varint_bytes(counts.ect0_count) + codec::varint_bytes(counts.ect1_count)
            + codec::varint_bytes(counts.ecn_ce_count),
        None => Seq::empty(),
    }
}

/// Reads ECN counters.
pub open spec fn parse_ecn(s: Seq<u8>) -> Parsed<AckEcnCounts> {
    match codec::required(codec::parse_varint(s)) {
        (Err(e), s) => (Err(e), s),
        (Ok(ect0_count), s) => match codec::required(codec::parse_varint(s)) {
            (Err(e), s) => (Err(e), s),
            (Ok(ect1_count), s) => match codec::required(codec::parse_varint(s)) {
                (Err(e), s) => (Err(e), s),
                (Ok(ecn_ce_count), s) => (
                    Ok(AckEcnCounts { ect0_count, ect1_count, ecn_ce_count }),
                    s,
                ),
            },
        },
    }
}

// ---------------------------------------------------------------------------
// Model: frames
// ---------------------------------------------------------------------------

impl FrameView {
    /// The frame type on the wire. An announcement whose two addresses are of
    /// different families has none.
    pub open spec fn wire_type(self) -> Result<u64, Error> {
        match self {
            FrameView::Announce(frame) => match (frame.source, frame.group) {
                (IpAddrView::V4(_), IpAddrView::V4(_)) => Ok(FRAME_TYPE_ANNOUNCE_V4),
                (IpAddrView::V6(_), IpAddrView::V6(_)) => Ok(FRAME_TYPE_ANNOUNCE_V6),
                _ => Err(Error::FrameEncoding),
            },
            FrameView::Key(_) => Ok(FRAME_TYPE_KEY),
            FrameView::Join(_) => Ok(FRAME_TYPE_JOIN),
            FrameView::Leave(_) => Ok(FRAME_TYPE_LEAVE),
            FrameView::Integrity(frame) => if frame.packet_hash_count is Some {
                Ok(FRAME_TYPE_INTEGRITY_WITH_LENGTH)
            } else {
                Ok(FRAME_TYPE_INTEGRITY)
            },
            FrameView::Ack(frame) => if frame.ecn_counts is Some {
                Ok(FRAME_TYPE_ACK_ECN)
            } else {
                Ok(FRAME_TYPE_ACK)
            },
            FrameView::Limits(_) => Ok(FRAME_TYPE_LIMITS),
            FrameView::Retire(_) => Ok(FRAME_TYPE_RETIRE),
            FrameView::State(frame) => match frame.reason_scope {
                StateReasonScope::Transport => Ok(FRAME_TYPE_STATE),
                StateReasonScope::Application => Ok(FRAME_TYPE_STATE_APPLICATION),
            },
        }
    }

    /// Whether the frame names a channel that can exist. `MC_LIMITS` names none.
    pub open spec fn channel_valid(self) -> bool {
        match self {
            FrameView::Announce(frame) => channel_id_valid(frame.channel_id),
            FrameView::Key(frame) => channel_id_valid(frame.channel_id),
            FrameView::Join(frame) => channel_id_valid(frame.channel_id),
            FrameView::Leave(frame) => channel_id_valid(frame.channel_id),
            FrameView::Integrity(frame) => channel_id_valid(frame.channel_id),
            FrameView::Ack(frame) => channel_id_valid(frame.channel_id),
            FrameView::Limits(_) => true,
            FrameView::Retire(frame) => channel_id_valid(frame.channel_id),
            FrameView::State(frame) => channel_id_valid(frame.channel_id),
        }
    }

    /// Whether the state that the frame reports may have the reason it gives.
    pub open spec fn reason_valid(self) -> bool {
        match self {
            FrameView::State(frame) => state_reason_valid(frame.state, frame.reason_code),
            _ => true,
        }
    }

    /// Whether the frame can be put on the wire.
    pub open spec fn valid(self) -> bool {
        &&& self.wire_type() is Ok
        &&& self.channel_valid()
        &&& self.reason_valid()
    }

    /// Whether every number and every length in the frame fits in its field.
    pub open spec fn fits(self) -> bool {
        match self {
            FrameView::Announce(frame) => {
                &&& frame.header_secret.len() < VARINT_LIMIT
                &&& frame.max_rate_kibps < VARINT_LIMIT
                &&& frame.max_ack_delay_ms < VARINT_LIMIT
            },
            FrameView::Key(frame) => {
                &&& frame.key_sequence < VARINT_LIMIT
                &&& frame.from_packet_number < VARINT_LIMIT
                &&& frame.secret.len() < VARINT_LIMIT
            },
            FrameView::Join(frame) => {
                &&& frame.mc_limits_sequence < VARINT_LIMIT
                &&& frame.mc_state_sequence < VARINT_LIMIT
                &&& frame.mc_key_sequence < VARINT_LIMIT
            },
            FrameView::Leave(frame) => {
                &&& frame.mc_state_sequence < VARINT_LIMIT
                &&& frame.after_packet_number < VARINT_LIMIT
            },
            FrameView::Integrity(frame) => {
                &&& frame.packet_number_start < VARINT_LIMIT
                &&& frame.packet_hash_count matches Some(count) ==> count < VARINT_LIMIT
            },
            FrameView::Ack(frame) => {
                &&& frame.largest_acknowledged < VARINT_LIMIT
                &&& frame.ack_delay < VARINT_LIMIT
                &&& frame.first_ack_range < VARINT_LIMIT
                &&& frame.ack_ranges.len() < VARINT_LIMIT
                &&& ack_ranges_fit(frame.ack_ranges)
                &&& frame.ecn_counts matches Some(counts) ==> ecn_fits(counts)
            },
            FrameView::Limits(frame) => {
                &&& frame.sequence < VARINT_LIMIT
                &&& limits_fit(frame.limits)
                &&& frame.max_joined_count < VARINT_LIMIT
            },
            FrameView::Retire(frame) => frame.after_packet_number < VARINT_LIMIT,
            FrameView::State(frame) => {
                &&& frame.sequence < VARINT_LIMIT
                &&& frame.reason_code < VARINT_LIMIT
                &&& frame.reason_phrase.len() < VARINT_LIMIT
            },
        }
    }

    /// Whether every address in the frame has as many octets as its family.
    pub open spec fn addresses_valid(self) -> bool {
        match self {
            FrameView::Announce(frame) => ip_valid(frame.source) && ip_valid(frame.group),
            _ => true,
        }
    }

    /// What follows the frame type on the wire.
    pub open spec fn payload_bytes(self) -> Seq<u8> {
        match self {
            FrameView::Announce(frame) => channel_id_bytes(frame.channel_id) + ip_bytes(
                frame.source,
            ) + ip_bytes(frame.group) + codec::be_bytes(frame.udp_port as nat, 2) + codec::be_bytes(
                frame.header_protection_algorithm as nat,
                2,
            ) + codec::vvec_bytes(frame.header_secret) + codec::be_bytes(frame.aead_algorithm as nat, 2)
                + codec::be_bytes(frame.integrity_hash_algorithm as nat, 2) + codec::varint_bytes(
                frame.max_rate_kibps,
            ) + codec::varint_bytes(frame.max_ack_delay_ms),
            FrameView::Key(frame) => channel_id_bytes(frame.channel_id) + codec::varint_bytes(
                frame.key_sequence,
            ) + codec::varint_bytes(frame.from_packet_number) + codec::vvec_bytes(frame.secret),
            FrameView::Join(frame) => channel_id_bytes(frame.channel_id) + codec::varint_bytes(
                frame.mc_limits_sequence,
            ) + codec::varint_bytes(frame.mc_state_sequence) + codec::varint_bytes(frame.mc_key_sequence),
            FrameView::Leave(frame) => channel_id_bytes(frame.channel_id) + codec::varint_bytes(
                frame.mc_state_sequence,
            ) + codec::varint_bytes(frame.after_packet_number),
            FrameView::Integrity(frame) => channel_id_bytes(frame.channel_id) + codec::varint_bytes(
                frame.packet_number_start,
            ) + (match frame.packet_hash_count {
                Some(count) => codec::varint_bytes(count),
                None => Seq::empty(),
            }) + frame.packet_hashes,
            FrameView::Ack(frame) => channel_id_bytes(frame.channel_id) + codec::varint_bytes(
                frame.largest_acknowledged,
            ) + codec::varint_bytes(frame.ack_delay) + codec::varint_bytes(frame.ack_ranges.len() as u64)
                + codec::varint_bytes(frame.first_ack_range) + ack_ranges_bytes(frame.ack_ranges)
                + ecn_bytes(frame.ecn_counts),
            FrameView::Limits(frame) => codec::varint_bytes(frame.sequence) + limits_bytes(frame.limits)
                + codec::varint_bytes(frame.max_joined_count),
            FrameView::Retire(frame) => channel_id_bytes(frame.channel_id) + codec::varint_bytes(
                frame.after_packet_number,
            ),
            FrameView::State(frame) => channel_id_bytes(frame.channel_id) + codec::varint_bytes(
                frame.sequence,
            ) + seq![state_code(frame.state)] + codec::varint_bytes(frame.reason_code) + codec::vvec_bytes(
                frame.reason_phrase,
            ),
        }
    }

    /// The frame on the wire, with its type.
    pub open spec fn wire_bytes(self) -> Seq<u8> {
        codec::varint_bytes(self.wire_type()->Ok_0) + self.payload_bytes()
    }

    /// The bytes that an encoder writes of the frame: all of it, or what comes
    /// before the first thing that is wrong with it.
    pub open spec fn written_bytes(self) -> Seq<u8> {
        if self.valid() {
            self.wire_bytes()
        } else if self.wire_type() is Ok {
            codec::varint_bytes(self.wire_type()->Ok_0)
        } else {
            Seq::empty()
        }
    }
}

/// Whether the numbers in `counts` can be written.
pub open spec fn ecn_fits(counts: AckEcnCounts) -> bool {
    &&& counts.ect0_count < VARINT_LIMIT
    &&& counts.ect1_count < VARINT_LIMIT
    &&& counts.ecn_ce_count < VARINT_LIMIT
}

/// Whether the numbers in `ranges` can be written.
pub open spec fn ack_ranges_fit(ranges: Seq<AckRange>) -> bool {
    forall|i: int|
        0 <= i < ranges.len() ==> (#[trigger] ranges[i]).gap < VARINT_LIMIT
            && ranges[i].ack_range_length < VARINT_LIMIT
}

/// Reads the payload of `MC_ANNOUNCE`.
pub open spec fn parse_announce(s: Seq<u8>, frame_type: u64) -> Parsed<FrameView> {
    match parse_channel_id(s) {
        (Err(e), s) => (Err(e), s),
        (Ok(channel_id), s) => match parse_ip(s, frame_type) {
            (Err(e), s) => (Err(e), s),
            (Ok(source), s) => match parse_ip(s, frame_type) {
                (Err(e), s) => (Err(e), s),
                (Ok(group), s) => match codec::required(codec::parse_u16(s)) {
                    (Err(e), s) => (Err(e), s),
                    (Ok(udp_port), s) => match codec::required(codec::parse_u16(s)) {
                        (Err(e), s) => (Err(e), s),
                        (Ok(header_protection_algorithm), s) => match codec::required(codec::parse_vvec(s)) {
                            (Err(e), s) => (Err(e), s),
                            (Ok(header_secret), s) => match codec::required(codec::parse_u16(s)) {
                                (Err(e), s) => (Err(e), s),
                                (Ok(aead_algorithm), s) => match codec::required(codec::parse_u16(s)) {
                                    (Err(e), s) => (Err(e), s),
                                    (Ok(integrity_hash_algorithm), s) => match codec::required(
                                        codec::parse_varint(s),
                                    ) {
                                        (Err(e), s) => (Err(e), s),
                                        (Ok(max_rate_kibps), s) => match codec::required(
                                            codec::parse_varint(s),
                                        ) {
                                            (Err(e), s) => (Err(e), s),
                                            (Ok(max_ack_delay_ms), s) => (
                                                Ok(
                                                    FrameView::Announce(
                                                        AnnounceView {
                                                            channel_id,
                                                            source,
                                                            group,
                                                            udp_port,
                                                            header_protection_algorithm,
                                                            header_secret,
                                                            aead_algorithm,
                                                            integrity_hash_algorithm,
                                                            max_rate_kibps,
                                                            max_ack_delay_ms,
                                                        },
                                                    ),
                                                ),
                                                s,
                                            ),
                                        },
                                    },
                                },
                            },
                        },
                    },
                },
            },
        },
    }
}

/// Reads the payload of `MC_KEY`.
pub open spec fn parse_key(s: Seq<u8>) -> Parsed<FrameView> {
    match parse_channel_id(s) {
        (Err(e), s) => (Err(e), s),
        (Ok(channel_id), s) => match codec::required(codec::parse_varint(s)) {
            (Err(e), s) => (Err(e), s),
            (Ok(key_sequence), s) => match codec::required(codec::parse_varint(s)) {
                (Err(e), s) => (Err(e), s),
                (Ok(from_packet_number), s) => match codec::required(codec::parse_vvec(s)) {
                    (Err(e), s) => (Err(e), s),
                    (Ok(secret), s) => (
                        Ok(
                            FrameView::Key(
                                KeyView { channel_id, key_sequence, from_packet_number, secret },
                            ),
                        ),
                        s,
                    ),
                },
            },
        },
    }
}

/// Reads the payload of `MC_JOIN`.
pub open spec fn parse_join(s: Seq<u8>) -> Parsed<FrameView> {
    match parse_channel_id(s) {
        (Err(e), s) => (Err(e), s),
        (Ok(channel_id), s) => match codec::required(codec::parse_varint(s)) {
            (Err(e), s) => (Err(e), s),
            (Ok(mc_limits_sequence), s) => match codec::required(codec::parse_varint(s)) {
                (Err(e), s) => (Err(e), s),
                (Ok(mc_state_sequence), s) => match codec::required(codec::parse_varint(s)) {
                    (Err(e), s) => (Err(e), s),
                    (Ok(mc_key_sequence), s) => (
                        Ok(
                            FrameView::Join(
                                JoinView {
                                    channel_id,
                                    mc_limits_sequence,
                                    mc_state_sequence,
                                    mc_key_sequence,
                                },
                            ),
                        ),
                        s,
                    ),
                },
            },
        },
    }
}

/// Reads the payload of `MC_LEAVE`.
pub open spec fn parse_leave(s: Seq<u8>) -> Parsed<FrameView> {
    match parse_channel_id(s) {
        (Err(e), s) => (Err(e), s),
        (Ok(channel_id), s) => match codec::required(codec::parse_varint(s)) {
            (Err(e), s) => (Err(e), s),
            (Ok(mc_state_sequence), s) => match codec::required(codec::parse_varint(s)) {
                (Err(e), s) => (Err(e), s),
                (Ok(after_packet_number), s) => (
                    Ok(
                        FrameView::Leave(
                            LeaveView { channel_id, mc_state_sequence, after_packet_number },
                        ),
                    ),
                    s,
                ),
            },
        },
    }
}

/// Reads the count of hashes, where `frame_type` has one.
pub open spec fn parse_hash_count(s: Seq<u8>, frame_type: u64) -> Parsed<Option<u64>> {
    if frame_type == FRAME_TYPE_INTEGRITY_WITH_LENGTH {
        match codec::required(codec::parse_varint(s)) {
            (Err(e), s) => (Err(e), s),
            (Ok(count), s) => (Ok(Some(count)), s),
        }
    } else {
        (Ok(None), s)
    }
}

/// Reads the hashes: `count` of them, where their length is known too, and
/// otherwise all that is left.
pub open spec fn parse_hashes(
    s: Seq<u8>,
    count: Option<u64>,
    hash_len: Option<usize>,
) -> Parsed<Seq<u8>> {
    match (count, hash_len) {
        (Some(count), Some(hash_len)) => if count * hash_len > usize::MAX {
            (Err(Error::FrameEncoding), s)
        } else {
            codec::required(codec::parse_bytes(s, (count * hash_len) as nat))
        },
        _ => (Ok(s), Seq::empty()),
    }
}

/// Reads the payload of `MC_INTEGRITY` and `MC_INTEGRITY_WITH_LENGTH`.
pub open spec fn parse_integrity(
    s: Seq<u8>,
    frame_type: u64,
    hash_len: Option<usize>,
) -> Parsed<FrameView> {
    match parse_channel_id(s) {
        (Err(e), s) => (Err(e), s),
        (Ok(channel_id), s) => match codec::required(codec::parse_varint(s)) {
            (Err(e), s) => (Err(e), s),
            (Ok(packet_number_start), s) => match parse_hash_count(s, frame_type) {
                (Err(e), s) => (Err(e), s),
                (Ok(packet_hash_count), s) => match parse_hashes(s, packet_hash_count, hash_len) {
                    (Err(e), s) => (Err(e), s),
                    (Ok(packet_hashes), s) => (
                        Ok(
                            FrameView::Integrity(
                                IntegrityView {
                                    channel_id,
                                    packet_number_start,
                                    packet_hash_count,
                                    packet_hashes,
                                },
                            ),
                        ),
                        s,
                    ),
                },
            },
        },
    }
}

/// Reads the ECN counters, where `frame_type` has them.
pub open spec fn parse_ecn_of(s: Seq<u8>, frame_type: u64) -> Parsed<Option<AckEcnCounts>> {
    if frame_type == FRAME_TYPE_ACK_ECN {
        match parse_ecn(s) {
            (Err(e), s) => (Err(e), s),
            (Ok(counts), s) => (Ok(Some(counts)), s),
        }
    } else {
        (Ok(None), s)
    }
}

/// Reads the payload of `MC_ACK` and `MC_ACK_ECN`.
pub open spec fn parse_ack(s: Seq<u8>, frame_type: u64) -> Parsed<FrameView> {
    match parse_channel_id(s) {
        (Err(e), s) => (Err(e), s),
        (Ok(channel_id), s) => match codec::required(codec::parse_varint(s)) {
            (Err(e), s) => (Err(e), s),
            (Ok(largest_acknowledged), s) => match codec::required(codec::parse_varint(s)) {
                (Err(e), s) => (Err(e), s),
                (Ok(ack_delay), s) => match codec::required(codec::parse_varint(s)) {
                    (Err(e), s) => (Err(e), s),
                    (Ok(count), s) => if count > MAX_ACK_RANGE_COUNT {
                        (Err(Error::TooMuchData), s)
                    } else {
                        match codec::required(codec::parse_varint(s)) {
                            (Err(e), s) => (Err(e), s),
                            (Ok(first_ack_range), s) => match parse_ack_ranges(s, count as nat) {
                                (Err(e), s) => (Err(e), s),
                                (Ok(ack_ranges), s) => match parse_ecn_of(s, frame_type) {
                                    (Err(e), s) => (Err(e), s),
                                    (Ok(ecn_counts), s) => (
                                        Ok(
                                            FrameView::Ack(
                                                AckView {
                                                    channel_id,
                                                    largest_acknowledged,
                                                    ack_delay,
                                                    first_ack_range,
                                                    ack_ranges,
                                                    ecn_counts,
                                                },
                                            ),
                                        ),
                                        s,
                                    ),
                                },
                            },
                        }
                    },
                },
            },
        },
    }
}

/// Reads the payload of `MC_LIMITS`.
pub open spec fn parse_limits_frame(s: Seq<u8>) -> Parsed<FrameView> {
    match codec::required(codec::parse_varint(s)) {
        (Err(e), s) => (Err(e), s),
        (Ok(sequence), s) => match parse_limits(s) {
            (Err(e), s) => (Err(e), s),
            (Ok(limits), s) => match codec::required(codec::parse_varint(s)) {
                (Err(e), s) => (Err(e), s),
                (Ok(max_joined_count), s) => (
                    Ok(FrameView::Limits(Limits { sequence, limits, max_joined_count })),
                    s,
                ),
            },
        },
    }
}

/// Reads the payload of `MC_RETIRE`.
pub open spec fn parse_retire(s: Seq<u8>) -> Parsed<FrameView> {
    match parse_channel_id(s) {
        (Err(e), s) => (Err(e), s),
        (Ok(channel_id), s) => match codec::required(codec::parse_varint(s)) {
            (Err(e), s) => (Err(e), s),
            (Ok(after_packet_number), s) => (
                Ok(FrameView::Retire(RetireView { channel_id, after_packet_number })),
                s,
            ),
        },
    }
}

/// Reads a channel state.
pub open spec fn parse_channel_state(s: Seq<u8>) -> Parsed<ChannelState> {
    match codec::required(codec::parse_u8(s)) {
        (Err(e), s) => (Err(e), s),
        (Ok(code), s) => (parse_state(code), s),
    }
}

/// Reads the payload of `MC_STATE`.
pub open spec fn parse_state_frame(s: Seq<u8>, frame_type: u64) -> Parsed<FrameView> {
    match parse_channel_id(s) {
        (Err(e), s) => (Err(e), s),
        (Ok(channel_id), s) => match codec::required(codec::parse_varint(s)) {
            (Err(e), s) => (Err(e), s),
            (Ok(sequence), s) => match parse_channel_state(s) {
                (Err(e), s) => (Err(e), s),
                (Ok(state), s) => match codec::required(codec::parse_varint(s)) {
                    (Err(e), s) => (Err(e), s),
                    (Ok(reason_code), s) => match codec::required(codec::parse_vvec(s)) {
                        (Err(e), s) => (Err(e), s),
                        (Ok(reason_phrase), s) => if state_reason_valid(state, reason_code) {
                            (
                                Ok(
                                    FrameView::State(
                                        StateView {
                                            channel_id,
                                            sequence,
                                            state,
                                            reason_scope: if frame_type == FRAME_TYPE_STATE {
                                                StateReasonScope::Transport
                                            } else {
                                                StateReasonScope::Application
                                            },
                                            reason_code,
                                            reason_phrase,
                                        },
                                    ),
                                ),
                                s,
                            )
                        } else {
                            (Err(Error::FrameEncoding), s)
                        },
                    },
                },
            },
        },
    }
}

/// Reads what follows the frame type `frame_type`.
pub open spec fn parse_payload(
    s: Seq<u8>,
    frame_type: u64,
    hash_len: Option<usize>,
) -> Parsed<FrameView> {
    if frame_type == FRAME_TYPE_ANNOUNCE_V4 || frame_type == FRAME_TYPE_ANNOUNCE_V6 {
        parse_announce(s, frame_type)
    } else if frame_type == FRAME_TYPE_KEY {
        parse_key(s)
    } else if frame_type == FRAME_TYPE_JOIN {
        parse_join(s)
    } else if frame_type == FRAME_TYPE_LEAVE {
        parse_leave(s)
    } else if frame_type == FRAME_TYPE_INTEGRITY || frame_type
        == FRAME_TYPE_INTEGRITY_WITH_LENGTH {
        parse_integrity(s, frame_type, hash_len)
    } else if frame_type == FRAME_TYPE_ACK || frame_type == FRAME_TYPE_ACK_ECN {
        parse_ack(s, frame_type)
    } else if frame_type == FRAME_TYPE_LIMITS {
        parse_limits_frame(s)
    } else if frame_type == FRAME_TYPE_RETIRE {
        parse_retire(s)
    } else if frame_type == FRAME_TYPE_STATE || frame_type == FRAME_TYPE_STATE_APPLICATION {
        parse_state_frame(s, frame_type)
    } else {
        (Err(Error::UnknownFrameType), s)
    }
}

/// Reads a frame, with its type.
pub open spec fn parse_frame(s: Seq<u8>) -> Parsed<FrameView> {
    match codec::required(codec::parse_varint(s)) {
        (Err(e), s) => (Err(e), s),
        (Ok(frame_type), s) => parse_payload(s, frame_type, None),
    }
}

/// Reads a frame that takes up the whole input.
pub open spec fn parse_whole_frame(s: Seq<u8>) -> Result<FrameView, Error> {
    match parse_frame(s) {
        (Err(e), _) => Err(e),
        (Ok(frame), rest) => if rest.len() > 0 {
            Err(Error::TooMuchData)
        } else {
            Ok(frame)
        },
    }
}

/// The result of a reader of frames, by what it holds.
pub open spec fn frame_result(r: Res<Frame>) -> Result<FrameView, Error> {
    match r {
        Ok(frame) => Ok(frame@),
        Err(e) => Err(e),
    }
}

// ---------------------------------------------------------------------------
// Fields
// ---------------------------------------------------------------------------

impl From<ChannelState> for u8 {
    fn from(value: ChannelState) -> (code: u8) {
        match value {
            ChannelState::Left => 0x1,
            ChannelState::DeclinedJoin => 0x2,
            ChannelState::Joined => 0x3,
            ChannelState::Retired => 0x4,
        }
    }
}

impl vstd::std_specs::convert::FromSpecImpl<ChannelState> for u8 {
    open spec fn obeys_from_spec() -> bool {
        true
    }

    open spec fn from_spec(value: ChannelState) -> u8 {
        state_code(value)
    }
}

impl ChannelState {
    /// The channel state with the wire code `v`.
    pub fn decode(v: u8) -> (state: Res<Self>)
        ensures
            state == parse_state(v),
    {
        match v {
            0x1 => Ok(ChannelState::Left),
            0x2 => Ok(ChannelState::DeclinedJoin),
            0x3 => Ok(ChannelState::Joined),
            0x4 => Ok(ChannelState::Retired),
            _ => Err(Error::FrameEncoding),
        }
    }
}

/// Checks that `channel_id` can name a channel.
pub fn validate_channel_id(channel_id: &[u8]) -> (result: Res<()>)
    ensures
        result == if channel_id_valid(channel_id@) {
            Ok::<(), Error>(())
        } else {
            Err(Error::FrameEncoding)
        },
{
    if channel_id.len() == 0 || channel_id.len() > CHANNEL_ID_MAX_LEN {
        return Err(Error::FrameEncoding);
    }
    Ok(())
}

/// Checks that a channel may be in `state` for the reason `reason_code`.
pub fn validate_state_reason(state: ChannelState, reason_code: u64) -> (result: Res<()>)
    ensures
        result == if state_reason_valid(state, reason_code) {
            Ok::<(), Error>(())
        } else {
            Err(Error::FrameEncoding)
        },
{
    match state {
        ChannelState::Joined | ChannelState::Retired => {
            if reason_code != STATE_REASON_REQUESTED_BY_SERVER {
                Err(Error::FrameEncoding)
            } else {
                Ok(())
            }
        },
        _ => Ok(()),
    }
}

/// Reads a channel ID behind its length.
pub fn decode_channel_id(dec: &mut Decoder) -> (out: Res<Vec<u8>>)
    ensures
        (codec::bytes_result(out), final(dec)@) == parse_channel_id(old(dec)@),
{
    let len = codec::decode_byte(dec)?;
    if len < 1 || len as usize > CHANNEL_ID_MAX_LEN {
        return Err(Error::FrameEncoding);
    }
    codec::decode_exact(dec, len as usize)
}

/// Writes a channel ID behind its length. Nothing is written of one that cannot
/// name a channel.
pub fn encode_channel_id(enc: &mut Encoder, channel_id: &[u8]) -> (result: Res<()>)
    ensures
        channel_id_valid(channel_id@) ==> result == Ok::<(), Error>(()) && final(enc)@ == old(
            enc,
        )@ + channel_id_bytes(channel_id@),
        !channel_id_valid(channel_id@) ==> result == Err::<(), Error>(Error::FrameEncoding)
            && final(enc)@ == old(enc)@,
{
    validate_channel_id(channel_id)?;
    enc.encode_byte(channel_id.len() as u8);
    enc.encode(channel_id);
    assert(enc@ =~= old(enc)@ + channel_id_bytes(channel_id@));
    Ok(())
}

/// The result of a reader of addresses, by what it holds.
pub open spec fn ip_result(r: Res<IpAddr>) -> Result<IpAddrView, Error> {
    match r {
        Ok(addr) => Ok(addr@),
        Err(e) => Err(e),
    }
}

/// Reads an address of the family that `frame_type` stands for.
pub fn decode_ip_addr(dec: &mut Decoder, frame_type: u64) -> (out: Res<IpAddr>)
    ensures
        (ip_result(out), final(dec)@) == parse_ip(old(dec)@, frame_type),
{
    if frame_type == FRAME_TYPE_ANNOUNCE_V4 {
        match dec.decode(4) {
            Some(a) => {
                let octets: [u8; 4] = [a[0], a[1], a[2], a[3]];
                assert(octets@ =~= a@);
                Ok(IpAddr::V4(octets))
            },
            None => Err(Error::NoMoreData),
        }
    } else if frame_type == FRAME_TYPE_ANNOUNCE_V6 {
        match dec.decode(16) {
            Some(a) => {
                let octets: [u8; 16] = [
                    a[0],
                    a[1],
                    a[2],
                    a[3],
                    a[4],
                    a[5],
                    a[6],
                    a[7],
                    a[8],
                    a[9],
                    a[10],
                    a[11],
                    a[12],
                    a[13],
                    a[14],
                    a[15],
                ];
                assert(octets@ =~= a@);
                Ok(IpAddr::V6(octets))
            },
            None => Err(Error::NoMoreData),
        }
    } else {
        Err(Error::FrameEncoding)
    }
}

/// Writes the octets of an address.
pub fn encode_ip_addr(enc: &mut Encoder, addr: &IpAddr)
    ensures
        final(enc)@ == old(enc)@ + ip_bytes(addr@),
{
    match addr {
        IpAddr::V4(octets) => enc.encode(octets.as_slice()),
        IpAddr::V6(octets) => enc.encode(octets.as_slice()),
    }
}

impl ClientLimits {
    /// The flag byte of the limits.
    pub fn flags(&self) -> (flags: u8)
        ensures
            flags == limit_flags(*self),
    {
        let mut flags: u8 = 0;
        if self.ipv4_channels_allowed {
            flags |= IP_FLAG_V4_ALLOWED;
        }
        if self.ipv6_channels_allowed {
            flags |= IP_FLAG_V6_ALLOWED;
        }
        assert(0u8 | 1u8 == 1u8 && 0u8 | 2u8 == 2u8 && 1u8 | 2u8 == 3u8) by (bit_vector);
        flags
    }

    /// Writes the limits.
    pub fn encode(&self, enc: &mut Encoder)
        requires
            limits_fit(*self),
        ensures
            final(enc)@ == old(enc)@ + limits_bytes(*self),
    {
        enc.encode_byte(self.flags());
        enc.encode_varint(self.max_aggregate_rate_kibps);
        enc.encode_varint(self.max_channel_ids);
        assert(enc@ =~= old(enc)@ + limits_bytes(*self));
    }

    /// Reads limits.
    pub fn decode(dec: &mut Decoder) -> (out: Res<Self>)
        ensures
            (out, final(dec)@) == parse_limits(old(dec)@),
    {
        let flags = codec::decode_byte(dec)?;
        let max_aggregate_rate_kibps = codec::decode_varint(dec)?;
        let max_channel_ids = codec::decode_varint(dec)?;
        Ok(
            ClientLimits {
                ipv4_channels_allowed: flags & IP_FLAG_V4_ALLOWED != 0,
                ipv6_channels_allowed: flags & IP_FLAG_V6_ALLOWED != 0,
                max_aggregate_rate_kibps,
                max_channel_ids,
            },
        )
    }
}

/// The result of a reader of ACK ranges, by what it holds.
pub open spec fn ack_ranges_result(r: Res<Vec<AckRange>>) -> Result<Seq<AckRange>, Error> {
    match r {
        Ok(ranges) => Ok(ranges@),
        Err(e) => Err(e),
    }
}

/// Reads `ack_range_count` ACK ranges.
pub fn decode_ack_ranges(dec: &mut Decoder, ack_range_count: u64) -> (out: Res<Vec<AckRange>>)
    ensures
        (ack_ranges_result(out), final(dec)@) == parse_ack_ranges(
            old(dec)@,
            ack_range_count as nat,
        ),
{
    if ack_range_count > (dec.remaining() / 2) as u64 {
        return Err(Error::FrameEncoding);
    }
    let mut ack_ranges: Vec<AckRange> = Vec::new();
    let mut left: u64 = ack_range_count;
    assert(after(ack_ranges@, parse_ack_range_list(dec@, left as nat)) == parse_ack_range_list(
        dec@,
        left as nat,
    )) by {
        lemma_after_empty(parse_ack_range_list(dec@, left as nat));
    }
    while left > 0
        invariant
            after(ack_ranges@, parse_ack_range_list(dec@, left as nat)) == parse_ack_range_list(
                old(dec)@,
                ack_range_count as nat,
            ),
            ack_range_count <= old(dec)@.len() / 2,
        decreases left,
    {
        let ghost before = dec@;
        let ghost head = ack_ranges@;
        let gap = codec::decode_varint(dec)?;
        let ack_range_length = codec::decode_varint(dec)?;
        let range = AckRange { gap, ack_range_length };
        ack_ranges.push(range);
        left = left - 1;
        proof {
            assert(parse_ack_range(before) == (Ok::<AckRange, Error>(range), dec@));
            lemma_after_push(head, range, parse_ack_range_list(dec@, left as nat));
        }
    }
    assert(ack_ranges@ + Seq::<AckRange>::empty() =~= ack_ranges@);
    Ok(ack_ranges)
}

proof fn lemma_after_empty<T>(p: Parsed<Seq<T>>)
    ensures
        after(Seq::empty(), p) == p,
{
    if p.0 is Ok {
        assert(Seq::<T>::empty() + p.0->Ok_0 =~= p.0->Ok_0);
    }
}

proof fn lemma_after_push<T>(head: Seq<T>, item: T, p: Parsed<Seq<T>>)
    ensures
        after(head, after(seq![item], p)) == after(head.push(item), p),
{
    if p.0 is Ok {
        assert(head + (seq![item] + p.0->Ok_0) =~= head.push(item) + p.0->Ok_0);
    }
}

// ---------------------------------------------------------------------------
// Frames
// ---------------------------------------------------------------------------

/// Whether `frame_type` is a multicast frame type.
pub fn is_frame_type(frame_type: u64) -> (known: bool)
    ensures
        known == multicast_type(frame_type),
{
    matches!(
        frame_type,
        FRAME_TYPE_KEY | FRAME_TYPE_JOIN | FRAME_TYPE_LEAVE | FRAME_TYPE_INTEGRITY
        | FRAME_TYPE_INTEGRITY_WITH_LENGTH | FRAME_TYPE_ACK | FRAME_TYPE_ACK_ECN
        | FRAME_TYPE_LIMITS | FRAME_TYPE_RETIRE | FRAME_TYPE_STATE
        | FRAME_TYPE_STATE_APPLICATION | FRAME_TYPE_ANNOUNCE_V4 | FRAME_TYPE_ANNOUNCE_V6
    )
}

fn decode_announce(frame_type: u64, dec: &mut Decoder) -> (out: Res<Frame>)
    ensures
        (frame_result(out), final(dec)@) == parse_announce(old(dec)@, frame_type),
{
    let channel_id = decode_channel_id(dec)?;
    let source = decode_ip_addr(dec, frame_type)?;
    let group = decode_ip_addr(dec, frame_type)?;
    let udp_port = codec::decode_uint(dec)?;
    let header_protection_algorithm = codec::decode_uint(dec)?;
    let header_secret = codec::decode_vvec(dec)?;
    let aead_algorithm = codec::decode_uint(dec)?;
    let integrity_hash_algorithm = codec::decode_uint(dec)?;
    let max_rate_kibps = codec::decode_varint(dec)?;
    let max_ack_delay_ms = codec::decode_varint(dec)?;
    Ok(
        Frame::Announce(
            Announce {
                channel_id,
                source,
                group,
                udp_port,
                header_protection_algorithm,
                header_secret,
                aead_algorithm,
                integrity_hash_algorithm,
                max_rate_kibps,
                max_ack_delay_ms,
            },
        ),
    )
}

fn decode_ack(frame_type: u64, dec: &mut Decoder) -> (out: Res<Frame>)
    ensures
        (frame_result(out), final(dec)@) == parse_ack(old(dec)@, frame_type),
{
    let channel_id = decode_channel_id(dec)?;
    let largest_acknowledged = codec::decode_varint(dec)?;
    let ack_delay = codec::decode_varint(dec)?;
    let ack_range_count = codec::decode_varint(dec)?;
    if ack_range_count > MAX_ACK_RANGE_COUNT {
        return Err(Error::TooMuchData);
    }
    let first_ack_range = codec::decode_varint(dec)?;
    let ack_ranges = decode_ack_ranges(dec, ack_range_count)?;
    let ecn_counts = if frame_type == FRAME_TYPE_ACK_ECN {
        let ect0_count = codec::decode_varint(dec)?;
        let ect1_count = codec::decode_varint(dec)?;
        let ecn_ce_count = codec::decode_varint(dec)?;
        Some(AckEcnCounts { ect0_count, ect1_count, ecn_ce_count })
    } else {
        None
    };
    Ok(
        Frame::Ack(
            Ack {
                channel_id,
                largest_acknowledged,
                ack_delay,
                first_ack_range,
                ack_ranges,
                ecn_counts,
            },
        ),
    )
}

fn decode_hashes(
    dec: &mut Decoder,
    packet_hash_count: Option<u64>,
    integrity_hash_len: Option<usize>,
) -> (out: Res<Vec<u8>>)
    ensures
        (codec::bytes_result(out), final(dec)@) == parse_hashes(
            old(dec)@,
            packet_hash_count,
            integrity_hash_len,
        ),
{
    match (packet_hash_count, integrity_hash_len) {
        (Some(count), Some(hash_len)) => {
            match count.checked_mul(hash_len as u64) {
                Some(len) => {
                    if len > usize::MAX as u64 {
                        return Err(Error::FrameEncoding);
                    }
                    codec::decode_exact(dec, len as usize)
                },
                None => Err(Error::FrameEncoding),
            }
        },
        _ => Ok(vstd::slice::slice_to_vec(dec.decode_remainder())),
    }
}

fn decode_integrity(
    frame_type: u64,
    dec: &mut Decoder,
    integrity_hash_len: Option<usize>,
) -> (out: Res<Frame>)
    ensures
        (frame_result(out), final(dec)@) == parse_integrity(
            old(dec)@,
            frame_type,
            integrity_hash_len,
        ),
{
    let channel_id = decode_channel_id(dec)?;
    let packet_number_start = codec::decode_varint(dec)?;
    let packet_hash_count = if frame_type == FRAME_TYPE_INTEGRITY_WITH_LENGTH {
        Some(codec::decode_varint(dec)?)
    } else {
        None
    };
    let packet_hashes = decode_hashes(dec, packet_hash_count, integrity_hash_len)?;
    Ok(
        Frame::Integrity(
            Integrity { channel_id, packet_number_start, packet_hash_count, packet_hashes },
        ),
    )
}

impl Frame {
    /// Reads a multicast frame, with its type.
    pub fn decode(dec: &mut Decoder) -> (out: Res<Self>)
        ensures
            (frame_result(out), final(dec)@) == parse_frame(old(dec)@),
    {
        let frame_type = codec::decode_varint(dec)?;
        Frame::decode_payload(frame_type, dec, None)
    }

    /// Reads a multicast frame whose type `frame_type` was read before. Where
    /// `integrity_hash_len` gives the length of a hash, a counted list of hashes
    /// ends after its last one; otherwise it takes up all that is left.
    pub fn decode_payload(
        frame_type: u64,
        dec: &mut Decoder,
        integrity_hash_len: Option<usize>,
    ) -> (out: Res<Self>)
        ensures
            (frame_result(out), final(dec)@) == parse_payload(
                old(dec)@,
                frame_type,
                integrity_hash_len,
            ),
    {
        match frame_type {
            FRAME_TYPE_ANNOUNCE_V4 | FRAME_TYPE_ANNOUNCE_V6 => decode_announce(frame_type, dec),
            FRAME_TYPE_KEY => {
                let channel_id = decode_channel_id(dec)?;
                let key_sequence = codec::decode_varint(dec)?;
                let from_packet_number = codec::decode_varint(dec)?;
                let secret = codec::decode_vvec(dec)?;
                Ok(Frame::Key(Key { channel_id, key_sequence, from_packet_number, secret }))
            },
            FRAME_TYPE_JOIN => {
                let channel_id = decode_channel_id(dec)?;
                let mc_limits_sequence = codec::decode_varint(dec)?;
                let mc_state_sequence = codec::decode_varint(dec)?;
                let mc_key_sequence = codec::decode_varint(dec)?;
                Ok(
                    Frame::Join(
                        Join { channel_id, mc_limits_sequence, mc_state_sequence, mc_key_sequence },
                    ),
                )
            },
            FRAME_TYPE_LEAVE => {
                let channel_id = decode_channel_id(dec)?;
                let mc_state_sequence = codec::decode_varint(dec)?;
                let after_packet_number = codec::decode_varint(dec)?;
                Ok(Frame::Leave(Leave { channel_id, mc_state_sequence, after_packet_number }))
            },
            FRAME_TYPE_INTEGRITY | FRAME_TYPE_INTEGRITY_WITH_LENGTH => decode_integrity(
                frame_type,
                dec,
                integrity_hash_len,
            ),
            FRAME_TYPE_ACK | FRAME_TYPE_ACK_ECN => decode_ack(frame_type, dec),
            FRAME_TYPE_LIMITS => {
                let sequence = codec::decode_varint(dec)?;
                let limits = ClientLimits::decode(dec)?;
                let max_joined_count = codec::decode_varint(dec)?;
                Ok(Frame::Limits(Limits { sequence, limits, max_joined_count }))
            },
            FRAME_TYPE_RETIRE => {
                let channel_id = decode_channel_id(dec)?;
                let after_packet_number = codec::decode_varint(dec)?;
                Ok(Frame::Retire(Retire { channel_id, after_packet_number }))
            },
            FRAME_TYPE_STATE | FRAME_TYPE_STATE_APPLICATION => {
                let channel_id = decode_channel_id(dec)?;
                let sequence = codec::decode_varint(dec)?;
                let code = codec::decode_byte(dec)?;
                let state = ChannelState::decode(code)?;
                let reason_code = codec::decode_varint(dec)?;
                let reason_phrase = codec::decode_vvec(dec)?;
                validate_state_reason(state, reason_code)?;
                let reason_scope = if frame_type == FRAME_TYPE_STATE {
                    StateReasonScope::Transport
                } else {
                    StateReasonScope::Application
                };
                Ok(
                    Frame::State(
                        State {
                            channel_id,
                            sequence,
                            state,
                            reason_scope,
                            reason_code,
                            reason_phrase,
                        },
                    ),
                )
            },
            _ => Err(Error::UnknownFrameType),
        }
    }

    /// The frame type that the frame has on the wire.
    pub fn frame_type(&self) -> (frame_type: Res<u64>)
        ensures
            frame_type == self@.wire_type(),
    {
        Ok(
            match self {
                Frame::Announce(frame) => match (&frame.source, &frame.group) {
                    (IpAddr::V4(_), IpAddr::V4(_)) => FRAME_TYPE_ANNOUNCE_V4,
                    (IpAddr::V6(_), IpAddr::V6(_)) => FRAME_TYPE_ANNOUNCE_V6,
                    _ => return Err(Error::FrameEncoding),
                },
                Frame::Key(_) => FRAME_TYPE_KEY,
                Frame::Join(_) => FRAME_TYPE_JOIN,
                Frame::Leave(_) => FRAME_TYPE_LEAVE,
                Frame::Integrity(frame) => if frame.packet_hash_count.is_some() {
                    FRAME_TYPE_INTEGRITY_WITH_LENGTH
                } else {
                    FRAME_TYPE_INTEGRITY
                },
                Frame::Ack(frame) => if frame.ecn_counts.is_some() {
                    FRAME_TYPE_ACK_ECN
                } else {
                    FRAME_TYPE_ACK
                },
                Frame::Limits(_) => FRAME_TYPE_LIMITS,
                Frame::Retire(_) => FRAME_TYPE_RETIRE,
                Frame::State(frame) => match frame.reason_scope {
                    StateReasonScope::Transport => FRAME_TYPE_STATE,
                    StateReasonScope::Application => FRAME_TYPE_STATE_APPLICATION,
                },
            },
        )
    }

    /// The endpoint that is allowed to send the frame.
    pub fn sender(&self) -> (sender: Sender)
        ensures
            sender == (if self is Ack || self is Limits || self is State {
                Sender::Client
            } else {
                Sender::Server
            }),
    {
        match self {
            Frame::Announce(_) | Frame::Key(_) | Frame::Join(_) | Frame::Leave(_)
            | Frame::Integrity(_) | Frame::Retire(_) => Sender::Server,
            Frame::Ack(_) | Frame::Limits(_) | Frame::State(_) => Sender::Client,
        }
    }

    /// Whether the frame causes an ACK of the unicast packet that carries it.
    pub fn ack_eliciting(&self) -> (eliciting: bool)
        ensures
            eliciting == !(self is Ack),
    {
        !matches!(self, Frame::Ack(_))
    }

    /// Whether the frame should be sent again when it is lost.
    pub fn retransmit_on_loss(&self) -> (retransmit: bool)
        ensures
            retransmit == !(self is Ack),
    {
        !matches!(self, Frame::Ack(_))
    }

    /// Whether the frame takes up the rest of its packet.
    pub fn requires_packet_end(&self) -> (last: bool)
        ensures
            last == (self matches Frame::Integrity(frame) && frame.packet_hash_count is None),
    {
        match self {
            Frame::Integrity(frame) => frame.packet_hash_count.is_none(),
            _ => false,
        }
    }
}

/// Whether the numbers in `ranges` can be written.
fn ranges_fit(ranges: &[AckRange]) -> (fit: bool)
    ensures
        fit == ack_ranges_fit(ranges@),
{
    let mut i: usize = 0;
    while i < ranges.len()
        invariant
            i <= ranges@.len(),
            forall|j: int|
                0 <= j < i ==> (#[trigger] ranges@[j]).gap < VARINT_LIMIT
                    && ranges@[j].ack_range_length < VARINT_LIMIT,
        decreases ranges@.len() - i,
    {
        if ranges[i].gap >= VARINT_LIMIT || ranges[i].ack_range_length >= VARINT_LIMIT {
            return false;
        }
        i = i + 1;
    }
    true
}

impl ClientLimits {
    /// Whether the numbers in the limits can be written.
    pub fn numbers_fit(&self) -> (fit: bool)
        ensures
            fit == limits_fit(*self),
    {
        self.max_aggregate_rate_kibps < VARINT_LIMIT && self.max_channel_ids < VARINT_LIMIT
    }
}

impl Frame {
    /// Whether every number and every length in the frame fits in its field.
    pub fn numbers_fit(&self) -> (fit: bool)
        ensures
            fit == self@.fits(),
    {
        match self {
            Frame::Announce(frame) => (frame.header_secret.len() as u64) < VARINT_LIMIT
                && frame.max_rate_kibps < VARINT_LIMIT && frame.max_ack_delay_ms < VARINT_LIMIT,
            Frame::Key(frame) => frame.key_sequence < VARINT_LIMIT && frame.from_packet_number
                < VARINT_LIMIT && (frame.secret.len() as u64) < VARINT_LIMIT,
            Frame::Join(frame) => frame.mc_limits_sequence < VARINT_LIMIT
                && frame.mc_state_sequence < VARINT_LIMIT && frame.mc_key_sequence < VARINT_LIMIT,
            Frame::Leave(frame) => frame.mc_state_sequence < VARINT_LIMIT
                && frame.after_packet_number < VARINT_LIMIT,
            Frame::Integrity(frame) => frame.packet_number_start < VARINT_LIMIT && match frame.packet_hash_count {
                Some(count) => count < VARINT_LIMIT,
                None => true,
            },
            Frame::Ack(frame) => frame.largest_acknowledged < VARINT_LIMIT && frame.ack_delay
                < VARINT_LIMIT && frame.first_ack_range < VARINT_LIMIT && (
            frame.ack_ranges.len() as u64) < VARINT_LIMIT && ranges_fit(
                frame.ack_ranges.as_slice(),
            ) && match &frame.ecn_counts {
                Some(counts) => counts.ect0_count < VARINT_LIMIT && counts.ect1_count < VARINT_LIMIT
                    && counts.ecn_ce_count < VARINT_LIMIT,
                None => true,
            },
            Frame::Limits(frame) => frame.sequence < VARINT_LIMIT && frame.limits.numbers_fit()
                && frame.max_joined_count < VARINT_LIMIT,
            Frame::Retire(frame) => frame.after_packet_number < VARINT_LIMIT,
            Frame::State(frame) => frame.sequence < VARINT_LIMIT && frame.reason_code
                < VARINT_LIMIT && (frame.reason_phrase.len() as u64) < VARINT_LIMIT,
        }
    }
}

impl Frame {
    /// Writes the frame, with its type. Of a frame that cannot be put on the wire
    /// at most the type is written.
    pub fn encode(&self, enc: &mut Encoder) -> (result: Res<()>)
        requires
            self@.valid() ==> self@.fits(),
        ensures
            result == if self@.valid() {
                Ok::<(), Error>(())
            } else {
                Err(Error::FrameEncoding)
            },
            final(enc)@ == old(enc)@ + self@.written_bytes(),
    {
        let frame_type = match self.frame_type() {
            Ok(frame_type) => frame_type,
            Err(e) => {
                assert(enc@ =~= old(enc)@ + self@.written_bytes());
                return Err(e);
            },
        };
        enc.encode_varint(frame_type);
        match self {
            Frame::Announce(frame) => {
                encode_announce(enc, frame)?;
            },
            Frame::Key(frame) => {
                encode_channel_id(enc, frame.channel_id.as_slice())?;
                enc.encode_varint(frame.key_sequence);
                enc.encode_varint(frame.from_packet_number);
                enc.encode_vvec(frame.secret.as_slice());
            },
            Frame::Join(frame) => {
                encode_channel_id(enc, frame.channel_id.as_slice())?;
                enc.encode_varint(frame.mc_limits_sequence);
                enc.encode_varint(frame.mc_state_sequence);
                enc.encode_varint(frame.mc_key_sequence);
            },
            Frame::Leave(frame) => {
                encode_channel_id(enc, frame.channel_id.as_slice())?;
                enc.encode_varint(frame.mc_state_sequence);
                enc.encode_varint(frame.after_packet_number);
            },
            Frame::Integrity(frame) => {
                encode_channel_id(enc, frame.channel_id.as_slice())?;
                enc.encode_varint(frame.packet_number_start);
                if let Some(packet_hash_count) = frame.packet_hash_count {
                    enc.encode_varint(packet_hash_count);
                }
                enc.encode(frame.packet_hashes.as_slice());
            },
            Frame::Ack(frame) => {
                encode_ack(enc, frame)?;
            },
            Frame::Limits(frame) => {
                enc.encode_varint(frame.sequence);
                frame.limits.encode(enc);
                enc.encode_varint(frame.max_joined_count);
            },
            Frame::Retire(frame) => {
                encode_channel_id(enc, frame.channel_id.as_slice())?;
                enc.encode_varint(frame.after_packet_number);
            },
            Frame::State(frame) => {
                validate_state_reason(frame.state, frame.reason_code)?;
                encode_channel_id(enc, frame.channel_id.as_slice())?;
                enc.encode_varint(frame.sequence);
                enc.encode_byte(u8::from(frame.state));
                enc.encode_varint(frame.reason_code);
                enc.encode_vvec(frame.reason_phrase.as_slice());
            },
        }
        assert(enc@ =~= old(enc)@ + self@.written_bytes());
        Ok(())
    }

    /// The frame on the wire, with its type.
    pub fn to_vec(&self) -> (out: Res<Vec<u8>>)
        requires
            self@.valid() ==> self@.fits(),
        ensures
            codec::bytes_result(out) == if self@.valid() {
                Ok::<Seq<u8>, Error>(self@.wire_bytes())
            } else {
                Err(Error::FrameEncoding)
            },
    {
        let mut enc = Encoder::default();
        self.encode(&mut enc)?;
        let out = enc.into_vec();
        assert(out@ =~= self@.wire_bytes());
        Ok(out)
    }

    /// Reads a frame that takes up the whole of `buf`.
    pub fn from_slice(buf: &[u8]) -> (out: Res<Self>)
        ensures
            frame_result(out) == parse_whole_frame(buf@),
    {
        let mut dec = Decoder::new(buf);
        let frame = Frame::decode(&mut dec)?;
        if dec.remaining() > 0 {
            return Err(Error::TooMuchData);
        }
        Ok(frame)
    }
}

/// Writes the payload of `MC_ANNOUNCE`.
fn encode_announce(enc: &mut Encoder, frame: &Announce) -> (result: Res<()>)
    requires
        channel_id_valid(frame@.channel_id) ==> FrameView::Announce(frame@).fits(),
    ensures
        channel_id_valid(frame@.channel_id) ==> result == Ok::<(), Error>(()) && final(enc)@ == old(
            enc,
        )@ + FrameView::Announce(frame@).payload_bytes(),
        !channel_id_valid(frame@.channel_id) ==> result == Err::<(), Error>(Error::FrameEncoding)
            && final(enc)@ == old(enc)@,
{
    encode_channel_id(enc, frame.channel_id.as_slice())?;
    encode_ip_addr(enc, &frame.source);
    encode_ip_addr(enc, &frame.group);
    enc.encode_uint(2, frame.udp_port as u64);
    enc.encode_uint(2, frame.header_protection_algorithm as u64);
    enc.encode_vvec(frame.header_secret.as_slice());
    enc.encode_uint(2, frame.aead_algorithm as u64);
    enc.encode_uint(2, frame.integrity_hash_algorithm as u64);
    enc.encode_varint(frame.max_rate_kibps);
    enc.encode_varint(frame.max_ack_delay_ms);
    assert(enc@ =~= old(enc)@ + FrameView::Announce(frame@).payload_bytes());
    Ok(())
}

/// Writes the payload of `MC_ACK` or `MC_ACK_ECN`.
fn encode_ack(enc: &mut Encoder, frame: &Ack) -> (result: Res<()>)
    requires
        channel_id_valid(frame@.channel_id) ==> FrameView::Ack(frame@).fits(),
    ensures
        channel_id_valid(frame@.channel_id) ==> result == Ok::<(), Error>(()) && final(enc)@ == old(
            enc,
        )@ + FrameView::Ack(frame@).payload_bytes(),
        !channel_id_valid(frame@.channel_id) ==> result == Err::<(), Error>(Error::FrameEncoding)
            && final(enc)@ == old(enc)@,
{
    encode_channel_id(enc, frame.channel_id.as_slice())?;
    enc.encode_varint(frame.largest_acknowledged);
    enc.encode_varint(frame.ack_delay);
    enc.encode_varint(frame.ack_ranges.len() as u64);
    enc.encode_varint(frame.first_ack_range);
    encode_ack_ranges(enc, frame.ack_ranges.as_slice());
    if let Some(ecn_counts) = &frame.ecn_counts {
        enc.encode_varint(ecn_counts.ect0_count);
        enc.encode_varint(ecn_counts.ect1_count);
        enc.encode_varint(ecn_counts.ecn_ce_count);
    }
    assert(enc@ =~= old(enc)@ + FrameView::Ack(frame@).payload_bytes());
    Ok(())
}

/// Writes ACK ranges.
fn encode_ack_ranges(enc: &mut Encoder, ranges: &[AckRange])
    requires
        ack_ranges_fit(ranges@),
    ensures
        final(enc)@ == old(enc)@ + ack_ranges_bytes(ranges@),
{
    let mut i: usize = 0;
    assert(enc@ =~= old(enc)@ + ack_ranges_bytes(ranges@.take(0)));
    while i < ranges.len()
        invariant
            i <= ranges@.len(),
            ack_ranges_fit(ranges@),
            enc@ == old(enc)@ + ack_ranges_bytes(ranges@.take(i as int)),
        decreases ranges@.len() - i,
    {
        enc.encode_varint(ranges[i].gap);
        enc.encode_varint(ranges[i].ack_range_length);
        proof {
            let next = ranges@.take(i + 1);
            assert(next.drop_last() =~= ranges@.take(i as int));
            assert(next.last() == ranges@[i as int]);
            assert(enc@ =~= old(enc)@ + ack_ranges_bytes(next));
        }
        i = i + 1;
    }
    assert(ranges@.take(i as int) =~= ranges@);
}

} // verus!
