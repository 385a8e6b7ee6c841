//! Laws of which frames a multicast channel packet carries, of their bytes, and of
//! what is read of a packet.

use vstd::prelude::*;
use crate::channel_frame;
use crate::channel_frame::{ChannelFrameView, QuicFrameView};
use crate::channel_frame_laws;
use crate::codec;
use crate::codec_laws;
use crate::error::Error;
use crate::foreign_frame;
use crate::frame;
use crate::types::FrameView;

verus! {

// ---------------------------------------------------------------------------
// Which frames a packet carries
// ---------------------------------------------------------------------------

/// MC_KEY, MC_LEAVE, MC_INTEGRITY and MC_RETIRE, if they can be put on the wire at all,
/// are written to a packet, and no other control frame is.
pub proof fn law_control_frames_written(frame: FrameView)
    ensures
        ({
            let carried = frame is Key || frame is Leave || frame is Integrity || frame is Retire;
            let frames = seq![ChannelFrameView::Multicast(frame)];
            &&& channel_frame::control_frame_permitted(frame) <==> carried
            &&& carried && frame.valid() ==> {
                &&& channel_frame::frames_encoded(frames) == Ok::<(), Error>(())
                &&& channel_frame::frames_written(frames) == frame.wire_bytes()
            }
            &&& !carried || !frame.valid() ==> channel_frame::frames_encoded(frames) == Err::<
                (),
                Error,
            >(Error::FrameEncoding)
            &&& !carried ==> channel_frame::frames_written(frames).len() == 0
        }),
{
    let frames = seq![ChannelFrameView::Multicast(frame)];
    assert(frames[0] == ChannelFrameView::Multicast(frame));
    assert(channel_frame::frames_written(frames.drop_first()) =~= Seq::<u8>::empty());
    if frame.valid() && (frame is Key || frame is Leave || frame is Integrity || frame is Retire) {
        assert(channel_frame::frames_written(frames) =~= frame.wire_bytes());
    }
}

/// MC_KEY, MC_LEAVE and MC_RETIRE are read from a packet as they were written, and so
/// is an MC_INTEGRITY for another channel. An MC_INTEGRITY for the packet's own channel
/// is refused, and so is every other control frame.
pub proof fn law_control_frames_read(channel_id: Seq<u8>, frame: FrameView)
    requires
        frame.valid(),
        frame.fits(),
        frame.addresses_valid(),
        frame matches FrameView::Ack(ack) ==> ack.ack_ranges.len() <= 32768,
    ensures
        ({
            let read = channel_frame::parse_channel_frames(channel_id, frame.wire_bytes());
            let carried = match frame {
                FrameView::Key(_) => true,
                FrameView::Leave(_) => true,
                FrameView::Retire(_) => true,
                FrameView::Integrity(integrity) => integrity.channel_id != channel_id,
                _ => false,
            };
            &&& carried ==> read == Ok::<Seq<ChannelFrameView>, Error>(
                seq![ChannelFrameView::Multicast(frame)],
            )
            &&& !carried ==> read == Err::<Seq<ChannelFrameView>, Error>(Error::FrameEncoding)
        }),
{
    let wire = frame.wire_bytes();
    channel_frame_laws::lemma_control_roundtrip(frame, Seq::empty());
    assert(wire + Seq::<u8>::empty() =~= wire);
    codec::lemma_varint_len(frame.wire_type()->Ok_0);
    assert(wire.len() > 0);
    assert(channel_frame::parse_quic_frame(wire) == (
        Ok::<QuicFrameView, Error>(QuicFrameView::Mcquic(frame)),
        Seq::<u8>::empty(),
    ));
    assert(channel_frame::parse_frame_list(channel_id, Seq::empty()) == Ok::<
        Seq<ChannelFrameView>,
        Error,
    >(Seq::empty()));
    assert(seq![ChannelFrameView::Multicast(frame)] + Seq::<ChannelFrameView>::empty() =~= seq![
        ChannelFrameView::Multicast(frame),
    ]);
}

/// A packet can carry padding, PING and RESET_STREAM as they are, STREAM frames on
/// streams that the server opened for one direction, DATAGRAM frames whose length fits in
/// two bytes, and four kinds of control frames.
pub proof fn law_carried_frames(frame: ChannelFrameView)
    ensures
        frame.valid() <==> match frame {
            ChannelFrameView::Stream { stream_id, offset: _, fin: _, data: _ } => stream_id % 4
                == 3,
            ChannelFrameView::Datagram { data } => data.len() < 0x4000,
            ChannelFrameView::Multicast(control) => (control is Key || control is Leave
                || control is Integrity || control is Retire) && control.valid(),
            _ => true,
        },
        frame matches ChannelFrameView::Stream { stream_id, offset, fin, data } ==> (
        channel_frame::channel_stream_valid(stream_id) <==> stream_id % 4 == 3),
        frame.fits() <==> match frame {
            ChannelFrameView::ResetStream { stream_id, error_code, final_size } => stream_id
                < 0x4000_0000_0000_0000 && error_code < 0x4000_0000_0000_0000 && final_size
                < 0x4000_0000_0000_0000,
            ChannelFrameView::Stream { stream_id, offset, fin: _, data } => stream_id
                < 0x4000_0000_0000_0000 && offset < 0x4000_0000_0000_0000 && data.len()
                < 0x4000_0000_0000_0000,
            ChannelFrameView::Multicast(control) => control.fits(),
            _ => true,
        },
{
}

/// Frames are written to a packet if there is one at least and each can be carried.
pub proof fn law_frames_encoded(frames: Seq<ChannelFrameView>)
    ensures
        channel_frame::frames_encoded(frames) is Ok <==> frames.len() > 0 && forall|i: int|
            0 <= i < frames.len() ==> (#[trigger] frames[i]).valid(),
        channel_frame::frames_encoded(frames) matches Err(e) ==> e == Error::FrameEncoding,
{
}

/// Frames can be written if the numbers in each fit, but for those behind the first
/// that cannot be carried, which are not looked at.
pub proof fn law_frames_fit(frame: ChannelFrameView, rest: Seq<ChannelFrameView>)
    ensures
        channel_frame::frames_fit(Seq::empty()),
        channel_frame::frames_fit(seq![frame] + rest) <==> !frame.valid() || frame.fits()
            && channel_frame::frames_fit(rest),
{
    let frames = seq![frame] + rest;
    assert(frames[0] == frame);
    assert(frames.drop_first() =~= rest);
}

/// The frames of a packet stand one behind the other. Nothing stands behind the
/// first that cannot be carried: of it there is at most the type of a control frame of
/// one of the four kinds.
pub proof fn law_frames_joined(frame: ChannelFrameView, rest: Seq<ChannelFrameView>)
    ensures
        channel_frame::frames_written(Seq::empty()).len() == 0,
        frame.valid() ==> channel_frame::frames_written(seq![frame] + rest) == frame.wire_bytes()
            + channel_frame::frames_written(rest),
        !frame.valid() ==> channel_frame::frames_written(seq![frame] + rest) == match frame {
            ChannelFrameView::Multicast(control) => if control is Key || control is Leave
                || control is Integrity || control is Retire {
                codec::varint_bytes(control.wire_type()->Ok_0)
            } else {
                Seq::<u8>::empty()
            },
            _ => Seq::<u8>::empty(),
        },
        frame.valid() ==> frame.written_bytes() == frame.wire_bytes(),
{
    let frames = seq![frame] + rest;
    assert(frames[0] == frame);
    assert(frames.drop_first() =~= rest);
    if !frame.valid() {
        assert(channel_frame::frames_written(frames) =~= frame.written_bytes());
    }
}

// ---------------------------------------------------------------------------
// Bytes
// ---------------------------------------------------------------------------

/// The bytes of each frame: padding is zeros; every other frame begins with its type.
/// The type of a STREAM frame tells whether an offset follows, and whether the stream
/// ends; its length is always there. The length of a DATAGRAM frame takes two bytes.
pub proof fn law_frame_bytes(frame: ChannelFrameView, i: int)
    requires
        frame.valid(),
        frame.fits(),
    ensures
        match frame {
            ChannelFrameView::Padding { len } => {
                &&& frame.wire_bytes().len() == len
                &&& 0 <= i < len ==> frame.wire_bytes()[i] == 0
            },
            ChannelFrameView::Ping => frame.wire_bytes() == seq![0x01u8],
            ChannelFrameView::ResetStream { stream_id, error_code, final_size } => {
                frame.wire_bytes() == seq![0x04u8] + codec::varint_bytes(stream_id)
                    + codec::varint_bytes(error_code) + codec::varint_bytes(final_size)
            },
            ChannelFrameView::Stream { stream_id, offset, fin, data } => {
                let len = codec::varint_bytes(data.len() as u64);
                &&& offset == 0 && !fin ==> frame.wire_bytes() == seq![0x0au8]
                    + codec::varint_bytes(stream_id) + len + data
                &&& offset == 0 && fin ==> frame.wire_bytes() == seq![0x0bu8] + codec::varint_bytes(
                    stream_id,
                ) + len + data
                &&& offset > 0 && !fin ==> frame.wire_bytes() == seq![0x0eu8]
                    + codec::varint_bytes(stream_id) + codec::varint_bytes(offset) + len + data
                &&& offset > 0 && fin ==> frame.wire_bytes() == seq![0x0fu8] + codec::varint_bytes(
                    stream_id,
                ) + codec::varint_bytes(offset) + len + data
            },
            ChannelFrameView::Datagram { data } => frame.wire_bytes() == seq![
                0x31u8,
                (0x40 + data.len() / 256) as u8,
                (data.len() % 256) as u8,
            ] + data,
            ChannelFrameView::Multicast(control) => frame.wire_bytes() == control.wire_bytes(),
        },
{
    codec_laws::law_varint_written(0x01);
    codec_laws::law_varint_written(0x04);
    codec_laws::law_varint_written(0x0a);
    codec_laws::law_varint_written(0x0b);
    codec_laws::law_varint_written(0x0e);
    codec_laws::law_varint_written(0x0f);
    codec_laws::law_varint_written(0x31);
    if let ChannelFrameView::Datagram { data } = frame {
        let v = (data.len() + 0x4000) as u16;
        codec_laws::law_u16_bytes(v);
        assert(v / 256 == 0x40 + data.len() / 256);
        assert(v % 256 == data.len() % 256);
    }
}

// ---------------------------------------------------------------------------
// What is read
// ---------------------------------------------------------------------------

/// The type of a frame is written in as few bytes as it takes. Behind it stands what
/// the type says.
pub proof fn law_frame_type_read(s: Seq<u8>)
    ensures
        ({
            let (frame_type, rest) = codec::parse_varint(s);
            let read = channel_frame::parse_quic_frame(s);
            &&& frame_type is None ==> read.0 == Err::<QuicFrameView, Error>(Error::NoMoreData)
            &&& frame_type matches Some(t) ==> {
                let shortest = codec::varint_bytes(t).len();
                &&& s.len() - rest.len() > shortest ==> read.0 == Err::<QuicFrameView, Error>(
                    Error::ProtocolViolation,
                )
                &&& s.len() - rest.len() == shortest ==> read == channel_frame::parse_quic_payload(
                    rest,
                    t,
                )
            }
        }),
{
    if let Some(t) = codec::parse_varint(s).0 {
        codec::lemma_varint_len(t);
    }
}

/// PING holds nothing. Padding is read as far as zeros go, 65535 of them at most.
pub proof fn law_padding_read(s: Seq<u8>, i: int)
    ensures
        channel_frame::parse_quic_payload(s, 0x01) == (
            Ok::<QuicFrameView, Error>(QuicFrameView::Ping),
            s,
        ),
        ({
            let (read, rest) = channel_frame::parse_quic_payload(s, 0x00);
            &&& read matches Ok(QuicFrameView::Padding(len))
            &&& 1 <= len <= 0xffff
            &&& len - 1 <= s.len()
            &&& 0 <= i < len - 1 ==> s[i] == 0
            &&& rest == s.skip(len - 1)
            &&& rest.len() > 0 && len < 0xffff ==> rest[0] != 0
        }),
{
    reveal(channel_frame::parse_quic_payload);
    lemma_zeros(s, 0xfffe, i);
}

proof fn lemma_zeros(s: Seq<u8>, max: nat, i: int)
    ensures
        ({
            let n = channel_frame::zero_run(s, max);
            &&& n <= max
            &&& n <= s.len()
            &&& 0 <= i < n ==> s[i] == 0
            &&& n < s.len() && n < max ==> s[n as int] != 0
        }),
    decreases max,
{
    if max > 0 && s.len() > 0 && s[0] == 0 {
        lemma_zeros(s.skip(1), (max - 1) as nat, i - 1);
    }
}

/// RESET_STREAM is read field by field.
pub proof fn law_reset_stream_read(s: Seq<u8>)
    ensures
        ({
            let read = channel_frame::parse_quic_payload(s, 0x04);
            let (id, s1) = codec::parse_varint(s);
            let (code, s2) = codec::parse_varint(s1);
            let (size, s3) = codec::parse_varint(s2);
            &&& id is None || code is None || size is None ==> read.0 == Err::<
                QuicFrameView,
                Error,
            >(Error::NoMoreData)
            &&& id is Some && code is Some && size is Some ==> read == (
                Ok::<QuicFrameView, Error>(
                    QuicFrameView::ResetStream {
                        stream_id: id->Some_0,
                        application_error_code: code->Some_0,
                        final_size: size->Some_0,
                    },
                ),
                s3,
            )
        }),
{
    reveal(channel_frame::parse_quic_payload);
}

/// A STREAM frame has an offset if the third bit of its type is set, which counts
/// four, and begins at 0 otherwise. It has a length if the second bit is set, which
/// counts two, and goes to the end of the packet otherwise. The lowest bit is the FIN
/// bit. No stream reaches beyond the largest number that can be written.
pub proof fn law_stream_read(s: Seq<u8>, has_offset: bool, has_len: bool, fin: bool)
    ensures
        ({
            let frame_type = (0x08 + (if has_offset {
                4int
            } else {
                0int
            }) + (if has_len {
                2int
            } else {
                0int
            }) + (if fin {
                1int
            } else {
                0int
            })) as u64;
            let read = channel_frame::parse_quic_payload(s, frame_type);
            let (id, s1) = codec::parse_varint(s);
            let (offset, s2) = if has_offset {
                codec::parse_varint(s1)
            } else {
                (Some(0u64), s1)
            };
            let (data, s3) = if has_len {
                codec::parse_vvec(s2)
            } else {
                (Some(s2), Seq::<u8>::empty())
            };
            let missing = id is None || offset is None || data is None;
            &&& missing ==> read.0 == Err::<QuicFrameView, Error>(Error::NoMoreData)
            &&& !missing && offset->Some_0 + data->Some_0.len() >= 0x4000_0000_0000_0000
                ==> read.0 == Err::<QuicFrameView, Error>(Error::FrameEncoding)
            &&& !missing && offset->Some_0 + data->Some_0.len() < 0x4000_0000_0000_0000 ==> read
                == (
                Ok::<QuicFrameView, Error>(
                    QuicFrameView::Stream {
                        stream_id: id->Some_0,
                        offset: offset->Some_0,
                        fin,
                        data: data->Some_0,
                    },
                ),
                s3,
            )
        }),
{
    reveal(channel_frame::parse_quic_payload);
}

/// A DATAGRAM frame without a length goes to the end of the packet.
pub proof fn law_datagram_read(s: Seq<u8>)
    ensures
        channel_frame::parse_quic_payload(s, 0x30) == (
            Ok::<QuicFrameView, Error>(QuicFrameView::Datagram { data: s }),
            Seq::<u8>::empty(),
        ),
        match codec::parse_vvec(s) {
            (None, _) => channel_frame::parse_quic_payload(s, 0x31).0 == Err::<
                QuicFrameView,
                Error,
            >(Error::NoMoreData),
            (Some(data), rest) => channel_frame::parse_quic_payload(s, 0x31) == (
                Ok::<QuicFrameView, Error>(QuicFrameView::Datagram { data }),
                rest,
            ),
        },
{
    reveal(channel_frame::parse_quic_payload);
}

/// A control frame in a packet is read as one that stands alone is. Frames of any
/// other type are read to their end, and their contents are dropped.
pub proof fn law_other_types_read(s: Seq<u8>, frame_type: u64)
    requires
        !(frame_type <= 0x01 || frame_type == 0x04 || 0x08 <= frame_type <= 0x0f || 0x30
            <= frame_type <= 0x31),
    ensures
        ({
            let read = channel_frame::parse_quic_payload(s, frame_type);
            let control = 0xff3e801 <= frame_type <= 0xff3e807 || 0xff3e809 <= frame_type
                <= 0xff3e80c || 0xff3e811 <= frame_type <= 0xff3e812;
            &&& control ==> match frame::parse_payload(s, frame_type, None) {
                (Err(e), _) => read.0 == Err::<QuicFrameView, Error>(e),
                (Ok(frame), rest) => read == (
                    Ok::<QuicFrameView, Error>(QuicFrameView::Mcquic(frame)),
                    rest,
                ),
            }
            &&& !control ==> match foreign_frame::parse_foreign(s, frame_type) {
                (Err(e), _) => read.0 == Err::<QuicFrameView, Error>(e),
                (Ok(_), rest) => read == (
                    Ok::<QuicFrameView, Error>(QuicFrameView::Other),
                    rest,
                ),
            }
        }),
{
    reveal(channel_frame::parse_quic_payload);
}

/// Of the frames that are read, a packet is refused that holds a STREAM frame on a
/// stream which the server did not open for one direction, a control frame of another
/// kind than the four, an MC_INTEGRITY for its own channel, or a frame that no channel
/// carries. Any other frame is handed on with what it holds.
pub proof fn law_frame_accepted(channel_id: Seq<u8>, frame: QuicFrameView)
    ensures
        ({
            let out = channel_frame::channel_frame_of(channel_id, frame);
            let refused = Err::<ChannelFrameView, Error>(Error::FrameEncoding);
            match frame {
                QuicFrameView::Padding(len) => out matches Ok(ChannelFrameView::Padding { len: n })
                    && n == len,
                QuicFrameView::Ping => out matches Ok(ChannelFrameView::Ping),
                QuicFrameView::ResetStream { stream_id, application_error_code, final_size } => {
                    &&& out matches Ok(
                        ChannelFrameView::ResetStream { stream_id: id, error_code, final_size: size },
                    )
                    &&& id == stream_id
                    &&& error_code == application_error_code
                    &&& size == final_size
                },
                QuicFrameView::Stream { stream_id, offset, fin, data } => {
                    &&& stream_id % 4 != 3 ==> out == refused
                    &&& stream_id % 4 == 3 ==> out == Ok::<ChannelFrameView, Error>(
                        ChannelFrameView::Stream { stream_id, offset, fin, data },
                    )
                },
                QuicFrameView::Datagram { data } => out == Ok::<ChannelFrameView, Error>(
                    ChannelFrameView::Datagram { data },
                ),
                QuicFrameView::Mcquic(control) => {
                    let carried = match control {
                        FrameView::Key(_) => true,
                        FrameView::Leave(_) => true,
                        FrameView::Retire(_) => true,
                        FrameView::Integrity(integrity) => integrity.channel_id != channel_id,
                        _ => false,
                    };
                    &&& carried ==> out == Ok::<ChannelFrameView, Error>(
                        ChannelFrameView::Multicast(control),
                    )
                    &&& !carried ==> out == refused
                },
                QuicFrameView::Other => out == refused,
            }
        }),
{
}

/// A packet is read frame by frame to its end. The first frame that cannot be read or
/// carried decides; an empty packet is refused.
pub proof fn law_frames_read(channel_id: Seq<u8>, s: Seq<u8>)
    ensures
        s.len() == 0 ==> channel_frame::parse_channel_frames(channel_id, s) == Err::<
            Seq<ChannelFrameView>,
            Error,
        >(Error::InvalidPacket),
        s.len() > 0 ==> ({
            let read = channel_frame::parse_channel_frames(channel_id, s);
            let (first, rest) = channel_frame::parse_quic_frame(s);
            match first {
                Err(e) => read == Err::<Seq<ChannelFrameView>, Error>(e),
                Ok(quic) => match channel_frame::channel_frame_of(channel_id, quic) {
                    Err(e) => read == Err::<Seq<ChannelFrameView>, Error>(e),
                    Ok(frame) => if rest.len() == 0 {
                        read == Ok::<Seq<ChannelFrameView>, Error>(seq![frame])
                    } else {
                        match channel_frame::parse_channel_frames(channel_id, rest) {
                            Err(e) => read == Err::<Seq<ChannelFrameView>, Error>(e),
                            Ok(others) => read == Ok::<Seq<ChannelFrameView>, Error>(
                                seq![frame] + others,
                            ),
                        }
                    },
                },
            }
        }),
{
    if s.len() > 0 {
        let (first, rest) = channel_frame::parse_quic_frame(s);
        if let Ok(quic) = first {
            if let Ok(frame) = channel_frame::channel_frame_of(channel_id, quic) {
                assert(seq![frame] + Seq::<ChannelFrameView>::empty() =~= seq![frame]);
            }
        }
    }
}

/// Whatever the bytes of a packet are, the frames that are read of it are ones that
/// the channel may carry.
pub proof fn law_read_frames_carried(channel_id: Seq<u8>, s: Seq<u8>, i: int)
    ensures
        channel_frame::parse_channel_frames(channel_id, s) matches Ok(frames) ==> {
            &&& frames.len() > 0
            &&& 0 <= i < frames.len() ==> match frames[i] {
                ChannelFrameView::Stream { stream_id, offset: _, fin: _, data: _ } => stream_id % 4
                    == 3,
                ChannelFrameView::Multicast(control) => match control {
                    FrameView::Key(_) => true,
                    FrameView::Leave(_) => true,
                    FrameView::Retire(_) => true,
                    FrameView::Integrity(integrity) => integrity.channel_id != channel_id,
                    _ => false,
                },
                _ => true,
            }
        },
{
    channel_frame_laws::law_decoded_frames_permitted(channel_id, s);
    if let Ok(frames) = channel_frame::parse_channel_frames(channel_id, s) {
        if 0 <= i < frames.len() {
            assert(channel_frame_laws::permitted(channel_id, frames[i]));
        }
    }
}

// ---------------------------------------------------------------------------
// Frames that no channel carries
// ---------------------------------------------------------------------------

/// So many numbers are read one behind the other.
pub proof fn law_numbers_read(s: Seq<u8>, n: nat)
    ensures
        foreign_frame::parse_varints(s, 0) == (Ok::<(), Error>(()), s),
        match codec::parse_varint(s) {
            (None, _) => foreign_frame::parse_varints(s, n + 1).0 == Err::<(), Error>(
                Error::NoMoreData,
            ),
            (Some(_), rest) => foreign_frame::parse_varints(s, n + 1)
                == foreign_frame::parse_varints(rest, n),
        },
{
}

/// Frames of numbers only, by their types: two numbers, one, or none.
pub proof fn law_number_frames_read(s: Seq<u8>, frame_type: u64)
    ensures
        frame_type == 0x05 || frame_type == 0x11 || frame_type == 0x15
            ==> foreign_frame::parse_foreign(s, frame_type) == foreign_frame::parse_varints(s, 2),
        frame_type == 0x10 || frame_type == 0x14 || frame_type == 0x16 || frame_type == 0x17
            || frame_type == 0x19 ==> foreign_frame::parse_foreign(s, frame_type)
            == foreign_frame::parse_varints(s, 1),
        foreign_frame::parse_foreign(s, 0x1e) == (Ok::<(), Error>(()), s),
{
}

/// MAX_STREAMS holds a number of streams, 2 to the power of 60 at most.
pub proof fn law_max_streams_read(s: Seq<u8>, frame_type: u64)
    requires
        frame_type == 0x12 || frame_type == 0x13,
    ensures
        match codec::parse_varint(s) {
            (None, _) => foreign_frame::parse_foreign(s, frame_type).0 == Err::<(), Error>(
                Error::NoMoreData,
            ),
            (Some(maximum), rest) => if maximum > 0x1000_0000_0000_0000 {
                foreign_frame::parse_foreign(s, frame_type).0 == Err::<(), Error>(
                    Error::StreamLimit,
                )
            } else {
                foreign_frame::parse_foreign(s, frame_type) == (Ok::<(), Error>(()), rest)
            },
        },
{
}

/// An ACK frame holds the largest packet, the delay, the count of the ranges behind
/// the first, the first range, two numbers for each other range, and three counters
/// where it is one with ECN. 32768 further ranges are too many.
pub proof fn law_quic_ack_read(s: Seq<u8>, ecn: bool)
    ensures
        ({
            let read = foreign_frame::parse_foreign(
                s,
                if ecn {
                    0x03
                } else {
                    0x02
                },
            );
            let (largest, s1) = codec::parse_varint(s);
            let (delay, s2) = codec::parse_varint(s1);
            let (count, s3) = codec::parse_varint(s2);
            &&& largest is None || delay is None || count is None ==> read.0 == Err::<(), Error>(
                Error::NoMoreData,
            )
            &&& largest is Some && delay is Some && count is Some ==> {
                let n = count->Some_0 as nat;
                &&& n >= 32768 ==> read.0 == Err::<(), Error>(Error::TooMuchData)
                &&& n < 32768 && ecn ==> read == foreign_frame::parse_varints(s3, 1 + 2 * n + 3)
                &&& n < 32768 && !ecn ==> read == foreign_frame::parse_varints(s3, 1 + 2 * n)
            }
        }),
{
    reveal_with_fuel(foreign_frame::parse_varints, 3);
}

/// CRYPTO holds an offset and data; no data reaches beyond the largest number that
/// can be written. NEW_TOKEN holds a token that is not empty.
pub proof fn law_data_frames_read(s: Seq<u8>)
    ensures
        ({
            let read = foreign_frame::parse_foreign(s, 0x06);
            let (offset, s1) = codec::parse_varint(s);
            let (data, s2) = codec::parse_vvec(s1);
            &&& offset is None || data is None ==> read.0 == Err::<(), Error>(Error::NoMoreData)
            &&& offset is Some && data is Some ==> if offset->Some_0 + data->Some_0.len()
                >= 0x4000_0000_0000_0000 {
                read.0 == Err::<(), Error>(Error::FrameEncoding)
            } else {
                read == (Ok::<(), Error>(()), s2)
            }
        }),
        match codec::parse_vvec(s) {
            (None, _) => foreign_frame::parse_foreign(s, 0x07).0 == Err::<(), Error>(
                Error::NoMoreData,
            ),
            (Some(token), rest) => if token.len() == 0 {
                foreign_frame::parse_foreign(s, 0x07).0 == Err::<(), Error>(Error::FrameEncoding)
            } else {
                foreign_frame::parse_foreign(s, 0x07) == (Ok::<(), Error>(()), rest)
            },
        },
{
}

/// NEW_CONNECTION_ID holds two numbers, a connection ID of at most 20 bytes behind
/// its length, and sixteen bytes. PATH_CHALLENGE and PATH_RESPONSE hold eight bytes.
pub proof fn law_connection_id_read(s: Seq<u8>, frame_type: u64)
    ensures
        ({
            let read = foreign_frame::parse_foreign(s, 0x18);
            let (sequence, s1) = codec::parse_varint(s);
            let (retire, s2) = codec::parse_varint(s1);
            let (len, s3) = codec::parse_u8(s2);
            let (id, s4) = codec::parse_bytes(s3, len->Some_0 as nat);
            let (token, s5) = codec::parse_bytes(s4, 16);
            &&& sequence is None || retire is None || len is None || id is None ==> read.0 == Err::<
                (),
                Error,
            >(Error::NoMoreData)
            &&& sequence is Some && retire is Some && len is Some && id is Some ==> if len->Some_0
                > 20 {
                read.0 == Err::<(), Error>(Error::FrameEncoding)
            } else if token is None {
                read.0 == Err::<(), Error>(Error::NoMoreData)
            } else {
                read == (Ok::<(), Error>(()), s5)
            }
        }),
        frame_type == 0x1a || frame_type == 0x1b ==> if s.len() < 8 {
            foreign_frame::parse_foreign(s, frame_type).0 == Err::<(), Error>(Error::NoMoreData)
        } else {
            foreign_frame::parse_foreign(s, frame_type) == (Ok::<(), Error>(()), s.skip(8))
        },
{
    reveal_with_fuel(foreign_frame::parse_varints, 3);
}

/// CONNECTION_CLOSE holds an error, the type of a frame where it is one of the
/// transport, and a reason behind its length.
pub proof fn law_connection_close_read(s: Seq<u8>)
    ensures
        ({
            let read = foreign_frame::parse_foreign(s, 0x1c);
            let (code, s1) = codec::parse_varint(s);
            let (cause, s2) = codec::parse_varint(s1);
            let (reason, s3) = codec::parse_vvec(s2);
            if code is None || cause is None || reason is None {
                read.0 == Err::<(), Error>(Error::NoMoreData)
            } else {
                read == (Ok::<(), Error>(()), s3)
            }
        }),
        ({
            let read = foreign_frame::parse_foreign(s, 0x1d);
            let (code, s1) = codec::parse_varint(s);
            let (reason, s2) = codec::parse_vvec(s1);
            if code is None || reason is None {
                read.0 == Err::<(), Error>(Error::NoMoreData)
            } else {
                read == (Ok::<(), Error>(()), s2)
            }
        }),
{
    reveal_with_fuel(foreign_frame::parse_varints, 3);
}

/// ACK_FREQUENCY holds a number, a tolerance that is not 0, a delay, and one byte
/// that is 0 or 1.
pub proof fn law_ack_frequency_read(s: Seq<u8>)
    ensures
        ({
            let read = foreign_frame::parse_foreign(s, 0xaf);
            let (sequence, s1) = codec::parse_varint(s);
            let (tolerance, s2) = codec::parse_varint(s1);
            let (delay, s3) = codec::parse_varint(s2);
            let (order, s4) = codec::parse_u8(s3);
            &&& sequence is None || tolerance is None ==> read.0 == Err::<(), Error>(
                Error::NoMoreData,
            )
            &&& sequence is Some && tolerance == Some(0u64) ==> read.0 == Err::<(), Error>(
                Error::FrameEncoding,
            )
            &&& sequence is Some && tolerance is Some && tolerance != Some(0u64) ==> if delay is None
                || order is None {
                read.0 == Err::<(), Error>(Error::NoMoreData)
            } else if order->Some_0 > 1 {
                read.0 == Err::<(), Error>(Error::FrameEncoding)
            } else {
                read == (Ok::<(), Error>(()), s4)
            }
        }),
{
    reveal_with_fuel(foreign_frame::parse_varints, 2);
}

/// Every other type is unknown.
pub proof fn law_unknown_types_refused(s: Seq<u8>, frame_type: u64)
    requires
        !(0x02 <= frame_type <= 0x03 || 0x05 <= frame_type <= 0x07 || 0x10 <= frame_type <= 0x1e
            || frame_type == 0xaf),
    ensures
        foreign_frame::parse_foreign(s, frame_type).0 == Err::<(), Error>(Error::UnknownFrameType),
{
}

} // verus!
