//! The payloads of multicast control frames, and what each of them holds.

use vstd::prelude::*;

verus! {

/// Transport-scoped `MC_STATE` reason used for server-requested transitions.
pub const STATE_REASON_REQUESTED_BY_SERVER: u64 = 0x1;

/// An IP address, as the octets that go on the wire.
#[derive(Clone, Copy, Debug, PartialEq, Eq)]
pub enum IpAddr {
    /// An IPv4 address.
    V4([u8; 4]),
    /// An IPv6 address.
    V6([u8; 16]),
}

/// What an [`IpAddr`] holds.
pub enum IpAddrView {
    V4(Seq<u8>),
    V6(Seq<u8>),
}

impl View for IpAddr {
    type V = IpAddrView;

    open spec fn view(&self) -> IpAddrView {
        match self {
            IpAddr::V4(octets) => IpAddrView::V4(octets@),
            IpAddr::V6(octets) => IpAddrView::V6(octets@),
        }
    }
}

/// Client multicast limits shared by the client transport parameter and
/// `MC_LIMITS`.
#[derive(Clone, Copy, Debug, PartialEq, Eq, Structural)]
pub struct ClientLimits {
    /// Whether the client is willing to join IPv4 multicast channels.
    pub ipv4_channels_allowed: bool,
    /// Whether the client is willing to join IPv6 multicast channels.
    pub ipv6_channels_allowed: bool,
    /// Maximum aggregate channel receive rate, in KiB/s.
    pub max_aggregate_rate_kibps: u64,
    /// Maximum number of channel IDs the client is willing to track.
    pub max_channel_ids: u64,
}

impl Default for ClientLimits {
    fn default() -> (limits: Self)
        ensures
            limits == (ClientLimits {
                ipv4_channels_allowed: false,
                ipv6_channels_allowed: false,
                max_aggregate_rate_kibps: 0,
                max_channel_ids: 0,
            }),
    {
        ClientLimits {
            ipv4_channels_allowed: false,
            ipv6_channels_allowed: false,
            max_aggregate_rate_kibps: 0,
            max_channel_ids: 0,
        }
    }
}

/// A full `MC_ANNOUNCE` frame payload.
#[derive(Debug, PartialEq, Eq)]
pub struct Announce {
    /// The channel ID being announced.
    pub channel_id: Vec<u8>,
    /// The multicast source address.
    pub source: IpAddr,
    /// The multicast group address.
    pub group: IpAddr,
    /// The UDP port used for the channel.
    pub udp_port: u16,
    /// Header protection algorithm from the TLS cipher suite registry.
    pub header_protection_algorithm: u16,
    /// Header protection secret.
    pub header_secret: Vec<u8>,
    /// AEAD algorithm from the TLS cipher suite registry.
    pub aead_algorithm: u16,
    /// Packet integrity hash algorithm identifier.
    pub integrity_hash_algorithm: u16,
    /// Maximum multicast payload rate, in KiB/s.
    pub max_rate_kibps: u64,
    /// Maximum delay before sending `MC_ACK`, in milliseconds.
    pub max_ack_delay_ms: u64,
}

/// What an [`Announce`] holds.
pub struct AnnounceView {
    pub channel_id: Seq<u8>,
    pub source: IpAddrView,
    pub group: IpAddrView,
    pub udp_port: u16,
    pub header_protection_algorithm: u16,
    pub header_secret: Seq<u8>,
    pub aead_algorithm: u16,
    pub integrity_hash_algorithm: u16,
    pub max_rate_kibps: u64,
    pub max_ack_delay_ms: u64,
}

impl View for Announce {
    type V = AnnounceView;

    open spec fn view(&self) -> AnnounceView {
        AnnounceView {
            channel_id: self.channel_id@,
            source: self.source@,
            group: self.group@,
            udp_port: self.udp_port,
            header_protection_algorithm: self.header_protection_algorithm,
            header_secret: self.header_secret@,
            aead_algorithm: self.aead_algorithm,
            integrity_hash_algorithm: self.integrity_hash_algorithm,
            max_rate_kibps: self.max_rate_kibps,
            max_ack_delay_ms: self.max_ack_delay_ms,
        }
    }
}

impl Clone for Announce {
    fn clone(&self) -> (copy: Self)
        ensures
            copy@ == self@,
    {
        Announce {
            channel_id: copy_bytes(&self.channel_id),
            source: self.source,
            group: self.group,
            udp_port: self.udp_port,
            header_protection_algorithm: self.header_protection_algorithm,
            header_secret: copy_bytes(&self.header_secret),
            aead_algorithm: self.aead_algorithm,
            integrity_hash_algorithm: self.integrity_hash_algorithm,
            max_rate_kibps: self.max_rate_kibps,
            max_ack_delay_ms: self.max_ack_delay_ms,
        }
    }
}

/// A full `MC_KEY` frame payload.
#[derive(Debug, PartialEq, Eq)]
pub struct Key {
    /// The channel ID being updated.
    pub channel_id: Vec<u8>,
    /// The key sequence number.
    pub key_sequence: u64,
    /// First packet number to which the secret applies.
    pub from_packet_number: u64,
    /// Packet protection secret.
    pub secret: Vec<u8>,
}

/// What a [`Key`] holds.
pub struct KeyView {
    pub channel_id: Seq<u8>,
    pub key_sequence: u64,
    pub from_packet_number: u64,
    pub secret: Seq<u8>,
}

impl View for Key {
    type V = KeyView;

    open spec fn view(&self) -> KeyView {
        KeyView {
            channel_id: self.channel_id@,
            key_sequence: self.key_sequence,
            from_packet_number: self.from_packet_number,
            secret: self.secret@,
        }
    }
}

impl Clone for Key {
    fn clone(&self) -> (copy: Self)
        ensures
            copy@ == self@,
    {
        Key {
            channel_id: copy_bytes(&self.channel_id),
            key_sequence: self.key_sequence,
            from_packet_number: self.from_packet_number,
            secret: copy_bytes(&self.secret),
        }
    }
}

/// A full `MC_JOIN` frame payload.
#[derive(Debug, PartialEq, Eq)]
pub struct Join {
    /// The channel ID to join.
    pub channel_id: Vec<u8>,
    /// Latest `MC_LIMITS` sequence processed by the server.
    pub mc_limits_sequence: u64,
    /// Latest `MC_STATE` sequence processed by the server.
    pub mc_state_sequence: u64,
    /// Latest `MC_KEY` sequence processed by the server.
    pub mc_key_sequence: u64,
}

/// What a [`Join`] holds.
pub struct JoinView {
    pub channel_id: Seq<u8>,
    pub mc_limits_sequence: u64,
    pub mc_state_sequence: u64,
    pub mc_key_sequence: u64,
}

impl View for Join {
    type V = JoinView;

    open spec fn view(&self) -> JoinView {
        JoinView {
            channel_id: self.channel_id@,
            mc_limits_sequence: self.mc_limits_sequence,
            mc_state_sequence: self.mc_state_sequence,
            mc_key_sequence: self.mc_key_sequence,
        }
    }
}

impl Clone for Join {
    fn clone(&self) -> (copy: Self)
        ensures
            copy@ == self@,
    {
        Join {
            channel_id: copy_bytes(&self.channel_id),
            mc_limits_sequence: self.mc_limits_sequence,
            mc_state_sequence: self.mc_state_sequence,
            mc_key_sequence: self.mc_key_sequence,
        }
    }
}

/// A full `MC_LEAVE` frame payload.
#[derive(Debug, PartialEq, Eq)]
pub struct Leave {
    /// The channel ID to leave.
    pub channel_id: Vec<u8>,
    /// Latest `MC_STATE` sequence processed by the server.
    pub mc_state_sequence: u64,
    /// Packet number after which the client should leave.
    pub after_packet_number: u64,
}

/// What a [`Leave`] holds.
pub struct LeaveView {
    pub channel_id: Seq<u8>,
    pub mc_state_sequence: u64,
    pub after_packet_number: u64,
}

impl View for Leave {
    type V = LeaveView;

    open spec fn view(&self) -> LeaveView {
        LeaveView {
            channel_id: self.channel_id@,
            mc_state_sequence: self.mc_state_sequence,
            after_packet_number: self.after_packet_number,
        }
    }
}

impl Clone for Leave {
    fn clone(&self) -> (copy: Self)
        ensures
            copy@ == self@,
    {
        Leave {
            channel_id: copy_bytes(&self.channel_id),
            mc_state_sequence: self.mc_state_sequence,
            after_packet_number: self.after_packet_number,
        }
    }
}

/// A full `MC_INTEGRITY` frame payload.
#[derive(Debug, PartialEq, Eq)]
pub struct Integrity {
    /// The channel ID covered by the hashes.
    pub channel_id: Vec<u8>,
    /// First packet number described by `packet_hashes`.
    pub packet_number_start: u64,
    /// Explicit packet hash count for `MC_INTEGRITY_WITH_LENGTH`.
    pub packet_hash_count: Option<u64>,
    /// Concatenated packet hashes.
    pub packet_hashes: Vec<u8>,
}

/// What an [`Integrity`] holds.
pub struct IntegrityView {
    pub channel_id: Seq<u8>,
    pub packet_number_start: u64,
    pub packet_hash_count: Option<u64>,
    pub packet_hashes: Seq<u8>,
}

impl View for Integrity {
    type V = IntegrityView;

    open spec fn view(&self) -> IntegrityView {
        IntegrityView {
            channel_id: self.channel_id@,
            packet_number_start: self.packet_number_start,
            packet_hash_count: self.packet_hash_count,
            packet_hashes: self.packet_hashes@,
        }
    }
}

impl Clone for Integrity {
    fn clone(&self) -> (copy: Self)
        ensures
            copy@ == self@,
    {
        Integrity {
            channel_id: copy_bytes(&self.channel_id),
            packet_number_start: self.packet_number_start,
            packet_hash_count: self.packet_hash_count,
            packet_hashes: copy_bytes(&self.packet_hashes),
        }
    }
}

/// A non-initial ACK block from `MC_ACK`.
#[derive(Clone, Copy, Debug, PartialEq, Eq, Structural)]
pub struct AckRange {
    /// Gap from the previous ACK block.
    pub gap: u64,
    /// Encoded length of this ACK block.
    pub ack_range_length: u64,
}

/// ECN counters carried by `MC_ACK_ECN`.
#[derive(Clone, Copy, Debug, PartialEq, Eq, Structural)]
pub struct AckEcnCounts {
    /// Count of ECT(0) packets.
    pub ect0_count: u64,
    /// Count of ECT(1) packets.
    pub ect1_count: u64,
    /// Count of CE-marked packets.
    pub ecn_ce_count: u64,
}

/// A full `MC_ACK` frame payload.
#[derive(Debug, PartialEq, Eq)]
pub struct Ack {
    /// The acknowledged channel ID.
    pub channel_id: Vec<u8>,
    /// Largest acknowledged multicast packet number.
    pub largest_acknowledged: u64,
    /// Encoded ACK delay.
    pub ack_delay: u64,
    /// Length of the first ACK range.
    pub first_ack_range: u64,
    /// Additional ACK ranges.
    pub ack_ranges: Vec<AckRange>,
    /// Optional ECN counters.
    pub ecn_counts: Option<AckEcnCounts>,
}

/// What an [`Ack`] holds.
pub struct AckView {
    pub channel_id: Seq<u8>,
    pub largest_acknowledged: u64,
    pub ack_delay: u64,
    pub first_ack_range: u64,
    pub ack_ranges: Seq<AckRange>,
    pub ecn_counts: Option<AckEcnCounts>,
}

impl View for Ack {
    type V = AckView;

    open spec fn view(&self) -> AckView {
        AckView {
            channel_id: self.channel_id@,
            largest_acknowledged: self.largest_acknowledged,
            ack_delay: self.ack_delay,
            first_ack_range: self.first_ack_range,
            ack_ranges: self.ack_ranges@,
            ecn_counts: self.ecn_counts,
        }
    }
}

impl Clone for Ack {
    fn clone(&self) -> (copy: Self)
        ensures
            copy@ == self@,
    {
        Ack {
            channel_id: copy_bytes(&self.channel_id),
            largest_acknowledged: self.largest_acknowledged,
            ack_delay: self.ack_delay,
            first_ack_range: self.first_ack_range,
            ack_ranges: vstd::slice::slice_to_vec(self.ack_ranges.as_slice()),
            ecn_counts: self.ecn_counts,
        }
    }
}

/// A full `MC_LIMITS` frame payload.
#[derive(Clone, Copy, Debug, PartialEq, Eq, Structural)]
pub struct Limits {
    /// Client limits sequence number.
    pub sequence: u64,
    /// Current client limits.
    pub limits: ClientLimits,
    /// Maximum number of concurrently joined channels.
    pub max_joined_count: u64,
}

/// A full `MC_RETIRE` frame payload.
#[derive(Debug, PartialEq, Eq)]
pub struct Retire {
    /// The retired channel ID.
    pub channel_id: Vec<u8>,
    /// Packet number after which retirement should happen.
    pub after_packet_number: u64,
}

/// What a [`Retire`] holds.
pub struct RetireView {
    pub channel_id: Seq<u8>,
    pub after_packet_number: u64,
}

impl View for Retire {
    type V = RetireView;

    open spec fn view(&self) -> RetireView {
        RetireView {
            channel_id: self.channel_id@,
            after_packet_number: self.after_packet_number,
        }
    }
}

impl Clone for Retire {
    fn clone(&self) -> (copy: Self)
        ensures
            copy@ == self@,
    {
        Retire {
            channel_id: copy_bytes(&self.channel_id),
            after_packet_number: self.after_packet_number,
        }
    }
}

/// State values carried by `MC_STATE`.
#[derive(Clone, Copy, Debug, PartialEq, Eq, Structural)]
pub enum ChannelState {
    /// `LEFT`
    Left,
    /// `DECLINED_JOIN`
    DeclinedJoin,
    /// `JOINED`
    Joined,
    /// `RETIRED`
    Retired,
}

/// Whether an `MC_STATE` reason is transport-defined or application-defined.
#[derive(Clone, Copy, Debug, PartialEq, Eq, Structural)]
pub enum StateReasonScope {
    /// Transport-defined reason.
    Transport,
    /// Application-defined reason.
    Application,
}

/// A full `MC_STATE` frame payload.
#[derive(Debug, PartialEq, Eq)]
pub struct State {
    /// The channel ID whose state changed.
    pub channel_id: Vec<u8>,
    /// Client channel state sequence number.
    pub sequence: u64,
    /// The new channel state.
    pub state: ChannelState,
    /// Reason-code namespace.
    pub reason_scope: StateReasonScope,
    /// Reason code.
    pub reason_code: u64,
    /// Free-form reason phrase bytes.
    pub reason_phrase: Vec<u8>,
}

/// What a [`State`] holds.
pub struct StateView {
    pub channel_id: Seq<u8>,
    pub sequence: u64,
    pub state: ChannelState,
    pub reason_scope: StateReasonScope,
    pub reason_code: u64,
    pub reason_phrase: Seq<u8>,
}

impl View for State {
    type V = StateView;

    open spec fn view(&self) -> StateView {
        StateView {
            channel_id: self.channel_id@,
            sequence: self.sequence,
            state: self.state,
            reason_scope: self.reason_scope,
            reason_code: self.reason_code,
            reason_phrase: self.reason_phrase@,
        }
    }
}

impl Clone for State {
    fn clone(&self) -> (copy: Self)
        ensures
            copy@ == self@,
    {
        State {
            channel_id: copy_bytes(&self.channel_id),
            sequence: self.sequence,
            state: self.state,
            reason_scope: self.reason_scope,
            reason_code: self.reason_code,
            reason_phrase: copy_bytes(&self.reason_phrase),
        }
    }
}

/// Multicast control frames.
#[derive(Debug, PartialEq, Eq)]
pub enum Frame {
    /// `MC_ANNOUNCE`
    Announce(Announce),
    /// `MC_KEY`
    Key(Key),
    /// `MC_JOIN`
    Join(Join),
    /// `MC_LEAVE`
    Leave(Leave),
    /// `MC_INTEGRITY`
    Integrity(Integrity),
    /// `MC_ACK`
    Ack(Ack),
    /// `MC_LIMITS`
    Limits(Limits),
    /// `MC_RETIRE`
    Retire(Retire),
    /// `MC_STATE`
    State(State),
}

/// What a [`Frame`] holds.
pub enum FrameView {
    Announce(AnnounceView),
    Key(KeyView),
    Join(JoinView),
    Leave(LeaveView),
    Integrity(IntegrityView),
    Ack(AckView),
    Limits(Limits),
    Retire(RetireView),
    State(StateView),
}

impl View for Frame {
    type V = FrameView;

    open spec fn view(&self) -> FrameView {
        match self {
            Frame::Announce(frame) => FrameView::Announce(frame@),
            Frame::Key(frame) => FrameView::Key(frame@),
            Frame::Join(frame) => FrameView::Join(frame@),
            Frame::Leave(frame) => FrameView::Leave(frame@),
            Frame::Integrity(frame) => FrameView::Integrity(frame@),
            Frame::Ack(frame) => FrameView::Ack(frame@),
            Frame::Limits(frame) => FrameView::Limits(*frame),
            Frame::Retire(frame) => FrameView::Retire(frame@),
            Frame::State(frame) => FrameView::State(frame@),
        }
    }
}

impl Clone for Frame {
    fn clone(&self) -> (copy: Self)
        ensures
            copy@ == self@,
    {
        match self {
            Frame::Announce(frame) => Frame::Announce(frame.clone()),
            Frame::Key(frame) => Frame::Key(frame.clone()),
            Frame::Join(frame) => Frame::Join(frame.clone()),
            Frame::Leave(frame) => Frame::Leave(frame.clone()),
            Frame::Integrity(frame) => Frame::Integrity(frame.clone()),
            Frame::Ack(frame) => Frame::Ack(frame.clone()),
            Frame::Limits(frame) => Frame::Limits(*frame),
            Frame::Retire(frame) => Frame::Retire(frame.clone()),
            Frame::State(frame) => Frame::State(frame.clone()),
        }
    }
}

/// Sender direction for multicast control frames.
#[derive(Clone, Copy, Debug, PartialEq, Eq, Structural)]
pub enum Sender {
    /// Client-to-server frame.
    Client,
    /// Server-to-client frame.
    Server,
}

/// A copy of a byte vector.
pub fn copy_bytes(bytes: &Vec<u8>) -> (copy: Vec<u8>)
    ensures
        copy@ == bytes@,
{
    vstd::slice::slice_to_vec(bytes.as_slice())
}

} // verus!
