//! The frames that a multicast channel packet carries.

use vstd::prelude::*;
use crate::codec;
use crate::codec::{Decoder, Encoder, Parsed, VARINT_LIMIT};
use crate::error::{Error, Res};
use crate::foreign_frame;
use crate::foreign_frame::skip_frame;
use crate::frame;
use crate::stream_id;
use crate::stream_id::{Role, StreamId, StreamType};
use crate::types::{copy_bytes, Announce, Frame, FrameView};

verus! {

/// The frame type of `PADDING`.
pub const PADDING: u64 = 0x00;

/// The frame type of `PING`.
pub const PING: u64 = 0x01;

/// The frame type of `RESET_STREAM`.
pub const RESET_STREAM: u64 = 0x04;

/// The first of the eight frame types of `STREAM`.
pub const STREAM: u64 = 0x08;

/// The last of the frame types of `STREAM`.
pub const STREAM_LAST: u64 = 0x0f;

/// The frame type of `STREAM` with a length.
pub const STREAM_WITH_LEN: u64 = 0x0a;

/// The frame type of `DATAGRAM` that takes up the rest of its packet.
pub const DATAGRAM: u64 = 0x30;

/// The frame type of `DATAGRAM` with a length.
pub const DATAGRAM_WITH_LEN: u64 = 0x31;

/// The bound on the length of a `DATAGRAM` that is written.
pub const MAX_DATAGRAM_LEN: usize = 0x4000;

/// A decoded multicast DATAGRAM payload delivered by a channel packet.
#[derive(Debug, PartialEq, Eq)]
pub struct ChannelDatagram {
    /// The channel ID that delivered the DATAGRAM.
    pub channel_id: Vec<u8>,
    /// The multicast packet number that carried the DATAGRAM.
    pub packet_number: u64,
    /// The DATAGRAM payload bytes.
    pub data: Vec<u8>,
}

/// What a [`ChannelDatagram`] holds.
pub struct ChannelDatagramView {
    pub channel_id: Seq<u8>,
    pub packet_number: u64,
    pub data: Seq<u8>,
}

impl View for ChannelDatagram {
    type V = ChannelDatagramView;

    open spec fn view(&self) -> ChannelDatagramView {
        ChannelDatagramView {
            channel_id: self.channel_id@,
            packet_number: self.packet_number,
            data: self.data@,
        }
    }
}

impl Clone for ChannelDatagram {
    fn clone(&self) -> (copy: Self)
        ensures
            copy@ == self@,
    {
        ChannelDatagram {
            channel_id: copy_bytes(&self.channel_id),
            packet_number: self.packet_number,
            data: copy_bytes(&self.data),
        }
    }
}

/// A multicast channel frame carried in a multicast 1-RTT packet.
#[derive(Debug, PartialEq, Eq)]
pub enum ChannelFrame {
    /// `PADDING`
    Padding {
        /// Number of padding bytes.
        len: usize,
    },
    /// `PING`
    Ping,
    /// `RESET_STREAM`
    ResetStream {
        /// Stream ID.
        stream_id: u64,
        /// Application error code.
        error_code: u64,
        /// Final stream size.
        final_size: u64,
    },
    /// `STREAM`
    Stream {
        /// Stream ID.
        stream_id: u64,
        /// Stream offset.
        offset: u64,
        /// FIN bit.
        fin: bool,
        /// Stream data.
        data: Vec<u8>,
    },
    /// `DATAGRAM`
    Datagram {
        /// DATAGRAM payload.
        data: Vec<u8>,
    },
    /// A permitted multicast control frame carried by the channel packet.
    Multicast(Frame),
}

/// What a [`ChannelFrame`] holds.
pub enum ChannelFrameView {
    Padding { len: usize },
    Ping,
    ResetStream { stream_id: u64, error_code: u64, final_size: u64 },
    Stream { stream_id: u64, offset: u64, fin: bool, data: Seq<u8> },
    Datagram { data: Seq<u8> },
    Multicast(FrameView),
}

impl View for ChannelFrame {
    type V = ChannelFrameView;

    open spec fn view(&self) -> ChannelFrameView {
        match self {
            ChannelFrame::Padding { len } => ChannelFrameView::Padding { len: *len },
            ChannelFrame::Ping => ChannelFrameView::Ping,
            ChannelFrame::ResetStream { stream_id, error_code, final_size } => {
                ChannelFrameView::ResetStream {
                    stream_id: *stream_id,
                    error_code: *error_code,
                    final_size: *final_size,
                }
            },
            ChannelFrame::Stream { stream_id, offset, fin, data } => ChannelFrameView::Stream {
                stream_id: *stream_id,
                offset: *offset,
                fin: *fin,
                data: data@,
            },
            ChannelFrame::Datagram { data } => ChannelFrameView::Datagram { data: data@ },
            ChannelFrame::Multicast(frame) => ChannelFrameView::Multicast(frame@),
        }
    }
}

impl Clone for ChannelFrame {
    fn clone(&self) -> (copy: Self)
        ensures
            copy@ == self@,
    {
        match self {
            ChannelFrame::Padding { len } => ChannelFrame::Padding { len: *len },
            ChannelFrame::Ping => ChannelFrame::Ping,
            ChannelFrame::ResetStream { stream_id, error_code, final_size } => {
                ChannelFrame::ResetStream {
                    stream_id: *stream_id,
                    error_code: *error_code,
                    final_size: *final_size,
                }
            },
            ChannelFrame::Stream { stream_id, offset, fin, data } => ChannelFrame::Stream {
                stream_id: *stream_id,
                offset: *offset,
                fin: *fin,
                data: copy_bytes(data),
            },
            ChannelFrame::Datagram { data } => ChannelFrame::Datagram { data: copy_bytes(data) },
            ChannelFrame::Multicast(frame) => ChannelFrame::Multicast(frame.clone()),
        }
    }
}

/// What a list of channel frames holds.
pub open spec fn frame_views(frames: Seq<ChannelFrame>) -> Seq<ChannelFrameView> {
    frames.map_values(|frame: ChannelFrame| frame@)
}

/// A frame of the QUIC wire format, as far as channel packets can carry it.
#[derive(Debug, PartialEq, Eq)]
pub enum QuicFrame {
    /// A run of `PADDING`, with its length.
    Padding(u16),
    /// `PING`
    Ping,
    /// `RESET_STREAM`
    ResetStream {
        /// Stream ID.
        stream_id: u64,
        /// Application error code.
        application_error_code: u64,
        /// Final stream size.
        final_size: u64,
    },
    /// `STREAM`
    Stream {
        /// Stream ID.
        stream_id: u64,
        /// Stream offset.
        offset: u64,
        /// FIN bit.
        fin: bool,
        /// Stream data.
        data: Vec<u8>,
    },
    /// `DATAGRAM`
    Datagram {
        /// DATAGRAM payload.
        data: Vec<u8>,
    },
    /// A multicast control frame.
    Mcquic(Frame),
    /// A frame that no channel packet can carry.
    Other,
}

/// What a [`QuicFrame`] holds.
pub enum QuicFrameView {
    Padding(u16),
    Ping,
    ResetStream { stream_id: u64, application_error_code: u64, final_size: u64 },
    Stream { stream_id: u64, offset: u64, fin: bool, data: Seq<u8> },
    Datagram { data: Seq<u8> },
    Mcquic(FrameView),
    Other,
}

impl View for QuicFrame {
    type V = QuicFrameView;

    open spec fn view(&self) -> QuicFrameView {
        match self {
            QuicFrame::Padding(len) => QuicFrameView::Padding(*len),
            QuicFrame::Ping => QuicFrameView::Ping,
            QuicFrame::ResetStream { stream_id, application_error_code, final_size } => {
                QuicFrameView::ResetStream {
                    stream_id: *stream_id,
                    application_error_code: *application_error_code,
                    final_size: *final_size,
                }
            },
            QuicFrame::Stream { stream_id, offset, fin, data } => QuicFrameView::Stream {
                stream_id: *stream_id,
                offset: *offset,
                fin: *fin,
                data: data@,
            },
            QuicFrame::Datagram { data } => QuicFrameView::Datagram { data: data@ },
            QuicFrame::Mcquic(frame) => QuicFrameView::Mcquic(frame@),
            QuicFrame::Other => QuicFrameView::Other,
        }
    }
}

// ---------------------------------------------------------------------------
// Model: writing
// ---------------------------------------------------------------------------

/// Whether a channel packet can carry data of the stream `stream_id`: the server
/// opened it, and it alone sends on it.
pub open spec fn channel_stream_valid(stream_id: u64) -> bool {
    stream_id::type_of(stream_id) == StreamType::UniDi && stream_id::initiator(stream_id)
        == Role::Server
}

/// Whether a channel packet can carry the control frame `frame`.
pub open spec fn control_frame_permitted(frame: FrameView) -> bool {
    frame is Key || frame is Leave || frame is Integrity || frame is Retire
}

/// The frame type of a `STREAM` frame that is written.
pub open spec fn stream_type_of(offset: u64, fin: bool) -> u64 {
    (STREAM_WITH_LEN + (if fin {
        1int
    } else {
        0int
    }) + (if offset > 0 {
        4int
    } else {
        0int
    })) as u64
}

impl ChannelFrameView {
    /// Whether a channel packet can carry the frame.
    pub open spec fn valid(self) -> bool {
        match self {
            ChannelFrameView::Padding { len: _ } => true,
            ChannelFrameView::Ping => true,
            ChannelFrameView::ResetStream { stream_id: _, error_code: _, final_size: _ } => true,
            ChannelFrameView::Stream { stream_id, offset: _, fin: _, data: _ } => {
                channel_stream_valid(stream_id)
            },
            ChannelFrameView::Datagram { data } => data.len() < MAX_DATAGRAM_LEN,
            ChannelFrameView::Multicast(frame) => control_frame_permitted(frame) && frame.valid(),
        }
    }

    /// Whether every number and every length in the frame fits in its field.
    pub open spec fn fits(self) -> bool {
        match self {
            ChannelFrameView::Padding { len: _ } => true,
            ChannelFrameView::Ping => true,
            ChannelFrameView::ResetStream { stream_id, error_code, final_size } => {
                &&& stream_id < VARINT_LIMIT
                &&& error_code < VARINT_LIMIT
                &&& final_size < VARINT_LIMIT
            },
            ChannelFrameView::Stream { stream_id, offset, fin: _, data } => {
                &&& stream_id < VARINT_LIMIT
                &&& offset < VARINT_LIMIT
                &&& data.len() < VARINT_LIMIT
            },
            ChannelFrameView::Datagram { data: _ } => true,
            ChannelFrameView::Multicast(frame) => frame.fits(),
        }
    }

    /// The frame on the wire.
    pub open spec fn wire_bytes(self) -> Seq<u8> {
        match self {
            ChannelFrameView::Padding { len } => Seq::new(len as nat, |i: int| 0u8),
            ChannelFrameView::Ping => codec::varint_bytes(PING),
            ChannelFrameView::ResetStream { stream_id, error_code, final_size } => {
                codec::varint_bytes(RESET_STREAM) + codec::varint_bytes(stream_id)
                    + codec::varint_bytes(error_code) + codec::varint_bytes(final_size)
            },
            ChannelFrameView::Stream { stream_id, offset, fin, data } => codec::varint_bytes(
                stream_type_of(offset, fin),
            ) + codec::varint_bytes(stream_id) + (if offset > 0 {
                codec::varint_bytes(offset)
            } else {
                Seq::empty()
            }) + codec::vvec_bytes(data),
            ChannelFrameView::Datagram { data } => codec::varint_bytes(DATAGRAM_WITH_LEN)
                + codec::be_bytes((data.len() + 0x4000) as nat, 2) + data,
            ChannelFrameView::Multicast(frame) => frame.wire_bytes(),
        }
    }

    /// The bytes that an encoder writes of the frame: all of it, or what comes
    /// before the first thing that is wrong with it.
    pub open spec fn written_bytes(self) -> Seq<u8> {
        if self.valid() {
            self.wire_bytes()
        } else {
            match self {
                ChannelFrameView::Multicast(frame) if control_frame_permitted(frame) => {
                    frame.written_bytes()
                },
                _ => Seq::empty(),
            }
        }
    }
}

/// Whether every frame that an encoder comes to fits.
pub open spec fn frames_fit(frames: Seq<ChannelFrameView>) -> bool
    decreases frames.len(),
{
    frames.len() > 0 && frames[0].valid() ==> frames[0].fits() && frames_fit(frames.drop_first())
}

/// Whether a packet can carry the frames.
pub open spec fn frames_valid(frames: Seq<ChannelFrameView>) -> bool {
    forall|i: int| 0 <= i < frames.len() ==> (#[trigger] frames[i]).valid()
}

/// The bytes that an encoder writes of the frames, up to the first one that no
/// packet can carry.
pub open spec fn frames_written(frames: Seq<ChannelFrameView>) -> Seq<u8>
    decreases frames.len(),
{
    if frames.len() == 0 {
        Seq::empty()
    } else {
        frames[0].written_bytes() + (if frames[0].valid() {
            frames_written(frames.drop_first())
        } else {
            Seq::empty()
        })
    }
}

/// What an encoder of frames returns: a packet without frames is refused, and so
/// is a frame that no packet can carry.
pub open spec fn frames_encoded(frames: Seq<ChannelFrameView>) -> Result<(), Error> {
    if frames.len() > 0 && frames_valid(frames) {
        Ok(())
    } else {
        Err(Error::FrameEncoding)
    }
}

// ---------------------------------------------------------------------------
// Model: reading
// ---------------------------------------------------------------------------

/// How many bytes at the front of `s` are zero, but at most `max`.
pub open spec fn zero_run(s: Seq<u8>, max: nat) -> nat
    decreases max,
{
    if max == 0 || s.len() == 0 || s[0] != 0 {
        0
    } else {
        1 + zero_run(s.skip(1), (max - 1) as nat)
    }
}

/// Reads what follows the frame type of `RESET_STREAM`.
pub open spec fn parse_reset_stream(s: Seq<u8>) -> Parsed<QuicFrameView> {
    match codec::required(codec::parse_varint(s)) {
        (Err(e), s) => (Err(e), s),
        (Ok(stream_id), s) => match codec::required(codec::parse_varint(s)) {
            (Err(e), s) => (Err(e), s),
            (Ok(application_error_code), s) => match codec::required(codec::parse_varint(s)) {
                (Err(e), s) => (Err(e), s),
                (Ok(final_size), s) => (
                    Ok(
                        QuicFrameView::ResetStream { stream_id, application_error_code, final_size },
                    ),
                    s,
                ),
            },
        },
    }
}

/// Reads a stream offset, where there is one.
pub open spec fn parse_offset(s: Seq<u8>, present: bool) -> Parsed<u64> {
    if present {
        codec::required(codec::parse_varint(s))
    } else {
        (Ok(0), s)
    }
}

/// Reads data behind its length, or all that is left.
pub open spec fn parse_data(s: Seq<u8>, with_len: bool) -> Parsed<Seq<u8>> {
    if with_len {
        codec::required(codec::parse_vvec(s))
    } else {
        (Ok(s), Seq::empty())
    }
}

/// Reads what follows the frame type `frame_type` of `STREAM`.
pub open spec fn parse_stream(s: Seq<u8>, frame_type: u64) -> Parsed<QuicFrameView> {
    match codec::required(codec::parse_varint(s)) {
        (Err(e), s) => (Err(e), s),
        (Ok(stream_id), s) => match parse_offset(s, frame_type % 8 >= 4) {
            (Err(e), s) => (Err(e), s),
            (Ok(offset), s) => match parse_data(s, frame_type % 4 >= 2) {
                (Err(e), s) => (Err(e), s),
                (Ok(data), s) => if offset + data.len() >= VARINT_LIMIT {
                    (Err(Error::FrameEncoding), s)
                } else {
                    (
                        Ok(
                            QuicFrameView::Stream {
                                stream_id,
                                offset,
                                fin: frame_type % 2 == 1,
                                data,
                            },
                        ),
                        s,
                    )
                },
            },
        },
    }
}

/// Reads what follows the frame type `frame_type` of `DATAGRAM`.
pub open spec fn parse_datagram(s: Seq<u8>, frame_type: u64) -> Parsed<QuicFrameView> {
    match parse_data(s, frame_type == DATAGRAM_WITH_LEN) {
        (Err(e), s) => (Err(e), s),
        (Ok(data), s) => (Ok(QuicFrameView::Datagram { data }), s),
    }
}

/// Reads a multicast control frame after its type.
pub open spec fn parse_control(s: Seq<u8>, frame_type: u64) -> Parsed<QuicFrameView> {
    match frame::parse_payload(s, frame_type, None) {
        (Err(e), s) => (Err(e), s),
        (Ok(frame), s) => (Ok(QuicFrameView::Mcquic(frame)), s),
    }
}

/// Reads a frame that no channel packet can carry, after its type.
pub open spec fn parse_other(s: Seq<u8>, frame_type: u64) -> Parsed<QuicFrameView> {
    match foreign_frame::parse_foreign(s, frame_type) {
        (Err(e), s) => (Err(e), s),
        (Ok(_), s) => (Ok(QuicFrameView::Other), s),
    }
}

/// Reads what follows the frame type `frame_type`.
#[verifier::opaque]
pub open spec fn parse_quic_payload(s: Seq<u8>, frame_type: u64) -> Parsed<QuicFrameView> {
    if frame_type == PADDING {
        let more = zero_run(s, 0xfffe);
        (Ok(QuicFrameView::Padding((1 + more) as u16)), s.skip(more as int))
    } else if frame_type == PING {
        (Ok(QuicFrameView::Ping), s)
    } else if frame_type == RESET_STREAM {
        parse_reset_stream(s)
    } else if STREAM <= frame_type <= STREAM_LAST {
        parse_stream(s, frame_type)
    } else if frame_type == DATAGRAM || frame_type == DATAGRAM_WITH_LEN {
        parse_datagram(s, frame_type)
    } else if frame::multicast_type(frame_type) {
        parse_control(s, frame_type)
    } else {
        parse_other(s, frame_type)
    }
}

/// Reads a frame. Its type has to be written as shortly as possible. A run of
/// padding is one frame, up to the length that it can note.
pub open spec fn parse_quic_frame(s: Seq<u8>) -> Parsed<QuicFrameView> {
    match codec::required(codec::parse_varint(s)) {
        (Err(e), rest) => (Err(e), rest),
        (Ok(frame_type), rest) => if codec::varint_size(frame_type) != s.len() - rest.len() {
            (Err(Error::ProtocolViolation), rest)
        } else {
            parse_quic_payload(rest, frame_type)
        },
    }
}

/// The channel frame that a frame is, if a packet of the channel `channel_id` can
/// carry it. A packet does not vouch for packets of its own channel.
pub open spec fn channel_frame_of(
    channel_id: Seq<u8>,
    frame: QuicFrameView,
) -> Result<ChannelFrameView, Error> {
    match frame {
        QuicFrameView::Padding(len) => Ok(ChannelFrameView::Padding { len: len as usize }),
        QuicFrameView::Ping => Ok(ChannelFrameView::Ping),
        QuicFrameView::ResetStream { stream_id, application_error_code, final_size } => Ok(
            ChannelFrameView::ResetStream {
                stream_id,
                error_code: application_error_code,
                final_size,
            },
        ),
        QuicFrameView::Stream { stream_id, offset, fin, data } => if channel_stream_valid(
            stream_id,
        ) {
            Ok(ChannelFrameView::Stream { stream_id, offset, fin, data })
        } else {
            Err(Error::FrameEncoding)
        },
        QuicFrameView::Datagram { data } => Ok(ChannelFrameView::Datagram { data }),
        QuicFrameView::Mcquic(frame) => if control_frame_permitted(frame) && !vouches(
            channel_id,
            frame,
        ) {
            Ok(ChannelFrameView::Multicast(frame))
        } else {
            Err(Error::FrameEncoding)
        },
        QuicFrameView::Other => Err(Error::FrameEncoding),
    }
}

/// Whether `frame` holds hashes of packets of the channel `channel_id`.
pub open spec fn vouches(channel_id: Seq<u8>, frame: FrameView) -> bool {
    frame matches FrameView::Integrity(integrity) && integrity.channel_id == channel_id
}

/// Reads frames up to the end of the input.
pub open spec fn parse_frame_list(channel_id: Seq<u8>, s: Seq<u8>) -> Result<
    Seq<ChannelFrameView>,
    Error,
>
    decreases s.len(),
{
    if s.len() == 0 {
        Ok(Seq::empty())
    } else {
        proof {
            lemma_quic_frame_shrinks(s);
        }
        match parse_quic_frame(s) {
            (Err(e), _) => Err(e),
            (Ok(frame), rest) => match channel_frame_of(channel_id, frame) {
                Err(e) => Err(e),
                Ok(frame) => prepended(frame, parse_frame_list(channel_id, rest)),
            },
        }
    }
}

/// A list with `frame` in front, if it is one.
pub open spec fn prepended(
    frame: ChannelFrameView,
    tail: Result<Seq<ChannelFrameView>, Error>,
) -> Result<Seq<ChannelFrameView>, Error> {
    match tail {
        Ok(tail) => Ok(seq![frame] + tail),
        Err(e) => Err(e),
    }
}

/// Reads the frames of a packet of the channel `channel_id`. A packet has at
/// least one.
pub open spec fn parse_channel_frames(channel_id: Seq<u8>, s: Seq<u8>) -> Result<
    Seq<ChannelFrameView>,
    Error,
> {
    if s.len() == 0 {
        Err(Error::InvalidPacket)
    } else {
        parse_frame_list(channel_id, s)
    }
}

/// The result of a reader of QUIC frames, by what it holds.
pub open spec fn quic_frame_result(r: Res<QuicFrame>) -> Result<QuicFrameView, Error> {
    match r {
        Ok(frame) => Ok(frame@),
        Err(e) => Err(e),
    }
}

/// The result of a reader of channel frames, by what it holds.
pub open spec fn channel_frame_result(r: Res<ChannelFrame>) -> Result<ChannelFrameView, Error> {
    match r {
        Ok(frame) => Ok(frame@),
        Err(e) => Err(e),
    }
}

/// The result of a reader of lists of channel frames, by what it holds.
pub open spec fn channel_frames_result(r: Res<Vec<ChannelFrame>>) -> Result<
    Seq<ChannelFrameView>,
    Error,
> {
    match r {
        Ok(frames) => Ok(frame_views(frames@)),
        Err(e) => Err(e),
    }
}

// ---------------------------------------------------------------------------
// Readers use up their input
// ---------------------------------------------------------------------------

proof fn lemma_fields_shrink()
    ensures
        forall|x: Seq<u8>| (#[trigger] codec::parse_varint(x)).1.len() <= x.len(),
        forall|x: Seq<u8>| (#[trigger] codec::parse_vvec(x)).1.len() <= x.len(),
        forall|x: Seq<u8>| (#[trigger] frame::parse_channel_id(x)).1.len() <= x.len(),
        forall|x: Seq<u8>| (#[trigger] codec::parse_u8(x)).1.len() <= x.len(),
        forall|x: Seq<u8>| (#[trigger] codec::parse_u16(x)).1.len() <= x.len(),
        forall|x: Seq<u8>, n: nat| (#[trigger] codec::parse_bytes(x, n)).1.len() <= x.len(),
{
    assert forall|x: Seq<u8>| (#[trigger] codec::parse_varint(x)).1.len() <= x.len() by {
        codec::lemma_varint_shrinks(x);
    }
}

proof fn lemma_ack_range_list_shrinks(s: Seq<u8>, n: nat)
    ensures
        frame::parse_ack_range_list(s, n).1.len() <= s.len(),
    decreases n,
{
    if n > 0 {
        lemma_fields_shrink();
        lemma_ack_range_list_shrinks(frame::parse_ack_range(s).1, (n - 1) as nat);
    }
}

proof fn lemma_announce_shrinks(s: Seq<u8>, frame_type: u64)
    ensures
        frame::parse_announce(s, frame_type).1.len() <= s.len(),
{
    lemma_fields_shrink();
    assert forall|x: Seq<u8>| (#[trigger] frame::parse_ip(x, frame_type)).1.len() <= x.len() by {}
}

proof fn lemma_ack_shrinks(s: Seq<u8>, frame_type: u64)
    ensures
        frame::parse_ack(s, frame_type).1.len() <= s.len(),
{
    lemma_fields_shrink();
    assert forall|x: Seq<u8>, n: nat| (#[trigger] frame::parse_ack_ranges(x, n)).1.len()
        <= x.len() by {
        lemma_ack_range_list_shrinks(x, n);
    }
    assert forall|x: Seq<u8>| (#[trigger] frame::parse_ecn_of(x, frame_type)).1.len()
        <= x.len() by {}
}

proof fn lemma_integrity_shrinks(s: Seq<u8>, frame_type: u64, hash_len: Option<usize>)
    ensures
        frame::parse_integrity(s, frame_type, hash_len).1.len() <= s.len(),
{
    lemma_fields_shrink();
}

proof fn lemma_limits_shrinks(s: Seq<u8>)
    ensures
        frame::parse_limits_frame(s).1.len() <= s.len(),
{
    lemma_fields_shrink();
}

proof fn lemma_state_shrinks(s: Seq<u8>, frame_type: u64)
    ensures
        frame::parse_state_frame(s, frame_type).1.len() <= s.len(),
{
    lemma_fields_shrink();
}

/// A reader of control frames leaves no more than it was given.
pub proof fn lemma_payload_shrinks(s: Seq<u8>, frame_type: u64, hash_len: Option<usize>)
    ensures
        frame::parse_payload(s, frame_type, hash_len).1.len() <= s.len(),
{
    lemma_announce_shrinks(s, frame_type);
    lemma_ack_shrinks(s, frame_type);
    lemma_integrity_shrinks(s, frame_type, hash_len);
    lemma_limits_shrinks(s);
    lemma_state_shrinks(s, frame_type);
    assert(frame::parse_key(s).1.len() <= s.len()) by {
        lemma_fields_shrink();
    }
    assert(frame::parse_join(s).1.len() <= s.len()) by {
        lemma_fields_shrink();
    }
    assert(frame::parse_leave(s).1.len() <= s.len()) by {
        lemma_fields_shrink();
    }
    assert(frame::parse_retire(s).1.len() <= s.len()) by {
        lemma_fields_shrink();
    }
}

proof fn lemma_zero_run(s: Seq<u8>, max: nat)
    ensures
        zero_run(s, max) <= s.len(),
        zero_run(s, max) <= max,
        forall|i: int| 0 <= i < zero_run(s, max) ==> s[i] == 0,
        zero_run(s, max) < s.len() && zero_run(s, max) < max ==> s[zero_run(s, max) as int] != 0,
    decreases max,
{
    if max == 0 || s.len() == 0 || s[0] != 0 {
    } else {
        let rest = s.skip(1);
        lemma_zero_run(rest, (max - 1) as nat);
        assert forall|i: int| 0 <= i < zero_run(s, max) implies s[i] == 0 by {
            if i > 0 {
                assert(s[i] == rest[i - 1]);
            }
        }
        let n = zero_run(s, max);
        if n < s.len() {
            assert(s[n as int] == rest[n - 1]);
        }
    }
}

/// A frame that was read took up at least one byte.
pub proof fn lemma_quic_frame_shrinks(s: Seq<u8>)
    ensures
        parse_quic_frame(s).0 is Ok ==> parse_quic_frame(s).1.len() < s.len(),
{
    reveal(parse_quic_payload);
    let (frame_type, rest) = codec::required(codec::parse_varint(s));
    if frame_type is Ok {
        let t = frame_type->Ok_0;
        lemma_zero_run(rest, 0xfffe);
        lemma_payload_shrinks(rest, t, None);
        assert(parse_reset_stream(rest).1.len() <= rest.len()) by {
            lemma_fields_shrink();
        }
        assert(parse_stream(rest, t).1.len() <= rest.len()) by {
            lemma_fields_shrink();
        }
        assert(parse_datagram(rest, t).1.len() <= rest.len()) by {
            lemma_fields_shrink();
        }
        foreign_frame::lemma_foreign_shrinks(rest, t);
        codec::lemma_varint_shrinks(s);
    }
}

// ---------------------------------------------------------------------------
// Writing
// ---------------------------------------------------------------------------

/// Checks that a channel packet can carry data of the stream `stream_id`.
pub fn validate_channel_stream_id(stream_id: u64) -> (result: Res<()>)
    ensures
        result == if channel_stream_valid(stream_id) {
            Ok::<(), Error>(())
        } else {
            Err(Error::FrameEncoding)
        },
{
    let stream_id = StreamId::new(stream_id);
    if stream_id.is_uni() && stream_id.is_server_initiated() {
        Ok(())
    } else {
        Err(Error::FrameEncoding)
    }
}

/// Checks that a channel packet can carry the control frame `frame`.
pub fn validate_channel_control_frame(frame: &Frame) -> (result: Res<()>)
    ensures
        result == if control_frame_permitted(frame@) {
            Ok::<(), Error>(())
        } else {
            Err(Error::FrameEncoding)
        },
{
    match frame {
        Frame::Key(_) | Frame::Leave(_) | Frame::Integrity(_) | Frame::Retire(_) => Ok(()),
        _ => Err(Error::FrameEncoding),
    }
}

/// Writes a `DATAGRAM` whose length takes up two bytes.
pub fn encode_datagram_with_two_byte_length(enc: &mut Encoder, data: &[u8]) -> (result: Res<()>)
    ensures
        result == if data@.len() < MAX_DATAGRAM_LEN {
            Ok::<(), Error>(())
        } else {
            Err(Error::FrameEncoding)
        },
        final(enc)@ == old(enc)@ + (ChannelFrameView::Datagram { data: data@ }).written_bytes(),
{
    if data.len() >= MAX_DATAGRAM_LEN {
        assert(enc@ =~= old(enc)@ + (ChannelFrameView::Datagram {
            data: data@,
        }).written_bytes());
        return Err(Error::FrameEncoding);
    }
    enc.encode_varint(DATAGRAM_WITH_LEN);
    enc.encode_uint(2, data.len() as u64 + 0x4000);
    enc.encode(data);
    assert(enc@ =~= old(enc)@ + (ChannelFrameView::Datagram { data: data@ }).written_bytes());
    Ok(())
}

/// Writes padding.
fn encode_padding(enc: &mut Encoder, len: usize)
    ensures
        final(enc)@ == old(enc)@ + (ChannelFrameView::Padding { len }).wire_bytes(),
{
    let mut i: usize = 0;
    assert(enc@ =~= old(enc)@ + (ChannelFrameView::Padding { len: 0 }).wire_bytes());
    while i < len
        invariant
            i <= len,
            enc@ == old(enc)@ + (ChannelFrameView::Padding { len: i }).wire_bytes(),
        decreases len - i,
    {
        enc.encode_varint(PADDING);
        proof {
            reveal(codec::varint_bytes);
            reveal_with_fuel(codec::be_bytes, 2);
            assert(codec::varint_bytes(PADDING) =~= seq![0u8]);
            assert(enc@ =~= old(enc)@ + (ChannelFrameView::Padding {
                len: (i + 1) as usize,
            }).wire_bytes());
        }
        i = i + 1;
    }
}

impl ChannelFrame {
    /// Whether every number and every length in the frame fits in its field.
    pub fn numbers_fit(&self) -> (fit: bool)
        ensures
            fit == self@.fits(),
    {
        match self {
            ChannelFrame::Padding { len: _ } => true,
            ChannelFrame::Ping => true,
            ChannelFrame::ResetStream { stream_id, error_code, final_size } => *stream_id
                < VARINT_LIMIT && *error_code < VARINT_LIMIT && *final_size < VARINT_LIMIT,
            ChannelFrame::Stream { stream_id, offset, fin: _, data } => *stream_id < VARINT_LIMIT
                && *offset < VARINT_LIMIT && (data.len() as u64) < VARINT_LIMIT,
            ChannelFrame::Datagram { data: _ } => true,
            ChannelFrame::Multicast(frame) => frame.numbers_fit(),
        }
    }
}

/// Whether every frame fits. Frames that fit can be given to a writer of frames.
pub fn all_numbers_fit(frames: &[ChannelFrame]) -> (fit: bool)
    ensures
        fit == (forall|i: int| 0 <= i < frames@.len() ==> (#[trigger] frames@[i])@.fits()),
        fit ==> frames_fit(frame_views(frames@)),
{
    let mut i: usize = 0;
    while i < frames.len()
        invariant
            i <= frames@.len(),
            forall|j: int| 0 <= j < i ==> (#[trigger] frames@[j])@.fits(),
        decreases frames@.len() - i,
    {
        if !frames[i].numbers_fit() {
            return false;
        }
        i = i + 1;
    }
    proof {
        let views = frame_views(frames@);
        assert forall|j: int| 0 <= j < views.len() implies (#[trigger] views[j]).fits() by {
            assert(views[j] == frames@[j]@);
        }
        lemma_frames_fit(views);
    }
    true
}

proof fn lemma_frames_fit(frames: Seq<ChannelFrameView>)
    requires
        forall|i: int| 0 <= i < frames.len() ==> (#[trigger] frames[i]).fits(),
    ensures
        frames_fit(frames),
    decreases frames.len(),
{
    if frames.len() > 0 {
        let rest = frames.drop_first();
        assert forall|i: int| 0 <= i < rest.len() implies (#[trigger] rest[i]).fits() by {
            assert(rest[i] == frames[i + 1]);
        }
        lemma_frames_fit(rest);
    }
}

/// Writes a channel frame. Of a frame that no channel packet can carry, nothing is
/// written, or at most the type of a control frame.
pub fn encode_channel_frame(enc: &mut Encoder, frame: &ChannelFrame) -> (result: Res<()>)
    requires
        frame@.valid() ==> frame@.fits(),
    ensures
        result == if frame@.valid() {
            Ok::<(), Error>(())
        } else {
            Err(Error::FrameEncoding)
        },
        final(enc)@ == old(enc)@ + frame@.written_bytes(),
{
    assert(enc@ + Seq::<u8>::empty() =~= enc@);
    match frame {
        ChannelFrame::Padding { len } => {
            encode_padding(enc, *len);
        },
        ChannelFrame::Ping => {
            enc.encode_varint(PING);
        },
        ChannelFrame::ResetStream { stream_id, error_code, final_size } => {
            enc.encode_varint(RESET_STREAM);
            enc.encode_varint(*stream_id);
            enc.encode_varint(*error_code);
            enc.encode_varint(*final_size);
        },
        ChannelFrame::Stream { stream_id, offset, fin, data } => {
            validate_channel_stream_id(*stream_id)?;
            let mut frame_type: u64 = STREAM_WITH_LEN;
            if *fin {
                frame_type = frame_type + 1;
            }
            if *offset > 0 {
                frame_type = frame_type + 4;
            }
            enc.encode_varint(frame_type);
            enc.encode_varint(*stream_id);
            if *offset > 0 {
                enc.encode_varint(*offset);
            }
            enc.encode_vvec(data.as_slice());
        },
        ChannelFrame::Datagram { data } => {
            encode_datagram_with_two_byte_length(enc, data.as_slice())?;
        },
        ChannelFrame::Multicast(frame) => {
            validate_channel_control_frame(frame)?;
            frame.encode(enc)?;
        },
    }
    assert(enc@ =~= old(enc)@ + frame@.written_bytes());
    Ok(())
}

/// Writes the frames of a packet, of which there has to be one at least, up to
/// the first that no channel packet can carry.
pub fn encode_channel_frames(enc: &mut Encoder, frames: &[ChannelFrame]) -> (result: Res<()>)
    requires
        frames_fit(frame_views(frames@)),
    ensures
        result == frames_encoded(frame_views(frames@)),
        final(enc)@ == old(enc)@ + frames_written(frame_views(frames@)),
{
    let ghost views = frame_views(frames@);
    if frames.len() == 0 {
        assert(enc@ =~= old(enc)@ + frames_written(views));
        return Err(Error::FrameEncoding);
    }
    let mut i: usize = 0;
    assert(views.skip(0) =~= views);
    while i < frames.len()
        invariant
            i <= frames@.len(),
            views == frame_views(frames@),
            frames_fit(views.skip(i as int)),
            forall|j: int| 0 <= j < i ==> (#[trigger] views[j]).valid(),
            enc@ + frames_written(views.skip(i as int)) == old(enc)@ + frames_written(views),
        decreases frames@.len() - i,
    {
        let ghost rest = views.skip(i as int);
        let ghost written = enc@;
        assert(rest[0] == views[i as int]);
        assert(rest.drop_first() =~= views.skip(i + 1));
        match encode_channel_frame(enc, &frames[i]) {
            Ok(()) => {},
            Err(e) => {
                assert(frames_written(rest) =~= rest[0].written_bytes());
                assert(!views[i as int].valid());
                return Err(e);
            },
        }
        assert(enc@ + frames_written(views.skip(i + 1)) =~= written + frames_written(rest));
        i = i + 1;
    }
    assert(views.skip(i as int).len() == 0);
    assert(enc@ =~= old(enc)@ + frames_written(views));
    Ok(())
}

// ---------------------------------------------------------------------------
// Reading
// ---------------------------------------------------------------------------

/// Reads data behind its length, or all that is left.
fn decode_data(dec: &mut Decoder, with_len: bool) -> (out: Res<Vec<u8>>)
    ensures
        (codec::bytes_result(out), final(dec)@) == parse_data(old(dec)@, with_len),
{
    if with_len {
        codec::decode_vvec(dec)
    } else {
        Ok(vstd::slice::slice_to_vec(dec.decode_remainder()))
    }
}

/// Takes up to `max` zero bytes.
fn skip_padding(dec: &mut Decoder, max: u16) -> (n: u16)
    ensures
        n <= max,
        n == zero_run(old(dec)@, max as nat),
        final(dec)@ == old(dec)@.skip(n as int),
{
    let mut n: u16 = 0;
    assert(dec@ =~= old(dec)@.skip(0));
    while n < max
        invariant
            n <= max,
            n <= old(dec)@.len(),
            dec@ == old(dec)@.skip(n as int),
            zero_run(old(dec)@, max as nat) == n + zero_run(dec@, (max - n) as nat),
        ensures
            n <= max,
            n == zero_run(old(dec)@, max as nat),
            dec@ == old(dec)@.skip(n as int),
        decreases max - n,
    {
        match dec.peek_byte() {
            Some(0) => {},
            _ => {
                break;
            },
        }
        let ghost before = dec@;
        let _ = dec.decode(1);
        assert(dec@ =~= before.skip(1));
        assert(before.skip(1) =~= old(dec)@.skip(n + 1));
        n = n + 1;
    }
    n
}

impl QuicFrame {
    /// Reads a frame.
    pub fn decode(dec: &mut Decoder) -> (out: Res<Self>)
        ensures
            (quic_frame_result(out), final(dec)@) == parse_quic_frame(old(dec)@),
    {
        proof {
            reveal(parse_quic_payload);
        }
        let before = dec.remaining();
        proof {
            codec::lemma_varint_shrinks(dec@);
        }
        let frame_type = codec::decode_varint(dec)?;
        let width = before - dec.remaining();
        let shortest: usize = if frame_type < 64 {
            1
        } else if frame_type < 0x4000 {
            2
        } else if frame_type < 0x4000_0000 {
            4
        } else {
            8
        };
        if width != shortest {
            return Err(Error::ProtocolViolation);
        }
        if frame_type == PADDING {
            let more = skip_padding(dec, 0xfffe);
            Ok(QuicFrame::Padding(1 + more))
        } else if frame_type == PING {
            Ok(QuicFrame::Ping)
        } else if frame_type == RESET_STREAM {
            let stream_id = codec::decode_varint(dec)?;
            let application_error_code = codec::decode_varint(dec)?;
            let final_size = codec::decode_varint(dec)?;
            Ok(QuicFrame::ResetStream { stream_id, application_error_code, final_size })
        } else if STREAM <= frame_type && frame_type <= STREAM_LAST {
            let stream_id = codec::decode_varint(dec)?;
            let offset: u64 = if frame_type % 8 >= 4 {
                codec::decode_varint(dec)?
            } else {
                0
            };
            let data = decode_data(dec, frame_type % 4 >= 2)?;
            if data.len() as u64 >= VARINT_LIMIT || offset + data.len() as u64 >= VARINT_LIMIT {
                return Err(Error::FrameEncoding);
            }
            Ok(QuicFrame::Stream { stream_id, offset, fin: frame_type % 2 == 1, data })
        } else if frame_type == DATAGRAM || frame_type == DATAGRAM_WITH_LEN {
            let data = decode_data(dec, frame_type == DATAGRAM_WITH_LEN)?;
            Ok(QuicFrame::Datagram { data })
        } else if frame::is_frame_type(frame_type) {
            let frame = Frame::decode_payload(frame_type, dec, None)?;
            Ok(QuicFrame::Mcquic(frame))
        } else {
            skip_frame(frame_type, dec)?;
            Ok(QuicFrame::Other)
        }
    }
}

/// The channel frame that `frame` is, if a packet of the announced channel can
/// carry it.
pub fn decode_channel_frame(announce: &Announce, frame: QuicFrame) -> (out: Res<ChannelFrame>)
    ensures
        channel_frame_result(out) == channel_frame_of(announce@.channel_id, frame@),
{
    Ok(
        match frame {
            QuicFrame::Padding(len) => ChannelFrame::Padding { len: len as usize },
            QuicFrame::Ping => ChannelFrame::Ping,
            QuicFrame::ResetStream { stream_id, application_error_code, final_size } => {
                ChannelFrame::ResetStream {
                    stream_id,
                    error_code: application_error_code,
                    final_size,
                }
            },
            QuicFrame::Stream { stream_id, offset, fin, data } => {
                validate_channel_stream_id(stream_id)?;
                ChannelFrame::Stream { stream_id, offset, fin, data }
            },
            QuicFrame::Datagram { data } => ChannelFrame::Datagram { data },
            QuicFrame::Mcquic(frame) => {
                validate_channel_control_frame(&frame)?;
                if let Frame::Integrity(integrity) = &frame {
                    if codec::bytes_equal(
                        integrity.channel_id.as_slice(),
                        announce.channel_id.as_slice(),
                    ) {
                        return Err(Error::FrameEncoding);
                    }
                }
                ChannelFrame::Multicast(frame)
            },
            QuicFrame::Other => return Err(Error::FrameEncoding),
        },
    )
}

/// Reads the frames of a packet of the announced channel.
pub fn decode_channel_frames(announce: &Announce, payload: &[u8]) -> (out: Res<Vec<ChannelFrame>>)
    ensures
        channel_frames_result(out) == parse_channel_frames(announce@.channel_id, payload@),
{
    let ghost channel_id = announce@.channel_id;
    let mut dec = Decoder::new(payload);
    let mut frames: Vec<ChannelFrame> = Vec::new();
    assert(onto(frame_views(frames@), parse_frame_list(channel_id, dec@)) == parse_frame_list(
        channel_id,
        payload@,
    )) by {
        lemma_onto_empty(parse_frame_list(channel_id, dec@));
        assert(frame_views(frames@) =~= Seq::empty());
    }
    while dec.remaining() > 0
        invariant
            channel_id == announce@.channel_id,
            frames@.len() == 0 ==> dec@ == payload@,
            onto(frame_views(frames@), parse_frame_list(channel_id, dec@)) == parse_frame_list(
                channel_id,
                payload@,
            ),
        decreases dec@.len(),
    {
        let ghost before = dec@;
        let ghost head = frame_views(frames@);
        proof {
            lemma_quic_frame_shrinks(before);
        }
        let quic_frame = QuicFrame::decode(&mut dec)?;
        let frame = decode_channel_frame(announce, quic_frame)?;
        frames.push(frame);
        proof {
            lemma_onto_push(head, frame@, parse_frame_list(channel_id, dec@));
            assert(frame_views(frames@) =~= head.push(frame@));
        }
    }
    if frames.len() == 0 {
        return Err(Error::InvalidPacket);
    }
    assert(frame_views(frames@) + Seq::<ChannelFrameView>::empty() =~= frame_views(frames@));
    Ok(frames)
}

/// What was read of a list before `tail`, and `tail`.
spec fn onto(
    head: Seq<ChannelFrameView>,
    tail: Result<Seq<ChannelFrameView>, Error>,
) -> Result<Seq<ChannelFrameView>, Error> {
    match tail {
        Ok(tail) => Ok(head + tail),
        Err(e) => Err(e),
    }
}

proof fn lemma_onto_empty(tail: Result<Seq<ChannelFrameView>, Error>)
    ensures
        onto(Seq::empty(), tail) == tail,
{
    if tail is Ok {
        assert(Seq::<ChannelFrameView>::empty() + tail->Ok_0 =~= tail->Ok_0);
    }
}

proof fn lemma_onto_push(
    head: Seq<ChannelFrameView>,
    frame: ChannelFrameView,
    tail: Result<Seq<ChannelFrameView>, Error>,
)
    ensures
        onto(head, prepended(frame, tail)) == onto(head.push(frame), tail),
{
    if tail is Ok {
        assert(head + (seq![frame] + tail->Ok_0) =~= head.push(frame) + tail->Ok_0);
    }
}

} // verus!
