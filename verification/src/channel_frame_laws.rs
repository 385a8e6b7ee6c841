//! Laws of the frames that a multicast channel packet carries.

use vstd::prelude::*;
use crate::channel_frame;
use crate::channel_frame::{ChannelFrameView, QuicFrameView, DATAGRAM_WITH_LEN, PADDING, PING, RESET_STREAM};
use crate::codec;
use crate::codec::VARINT_LIMIT;
use crate::error::Error;
use crate::frame_laws;
use crate::types::FrameView;

verus! {

/// Whether a packet of the channel `channel_id` can carry `frame` so that it is
/// read as it is.
pub open spec fn readable_frame(channel_id: Seq<u8>, frame: ChannelFrameView) -> bool {
    &&& frame.valid()
    &&& frame.fits()
    &&& match frame {
        ChannelFrameView::Padding { len } => 1 <= len <= 0xffff,
        ChannelFrameView::Stream { stream_id: _, offset, fin: _, data } => offset + data.len()
            < VARINT_LIMIT,
        ChannelFrameView::Multicast(frame) => {
            &&& frame_laws::readable(frame)
            &&& !channel_frame::vouches(channel_id, frame)
        },
        _ => true,
    }
}

/// Whether `frame` takes up the rest of its packet.
pub open spec fn takes_rest(frame: ChannelFrameView) -> bool {
    frame matches ChannelFrameView::Multicast(frame) && frame is Integrity
}

/// Whether a packet of the channel `channel_id` can carry `frames` so that they
/// are read as they are: no two runs of padding meet, and hashes come last.
pub open spec fn readable_frames(channel_id: Seq<u8>, frames: Seq<ChannelFrameView>) -> bool {
    &&& forall|i: int| 0 <= i < frames.len() ==> readable_frame(channel_id, #[trigger] frames[i])
    &&& forall|i: int| 0 <= i < frames.len() - 1 ==> !takes_rest(#[trigger] frames[i])
    &&& forall|i: int, j: int|
        0 <= i < frames.len() - 1 && j == i + 1 ==> !((#[trigger] frames[i]) is Padding && (
        #[trigger] frames[j]) is Padding)
}

/// The frame of the QUIC wire format that a channel frame is written as.
pub open spec fn quic_frame_of(frame: ChannelFrameView) -> QuicFrameView {
    match frame {
        ChannelFrameView::Padding { len } => QuicFrameView::Padding(len as u16),
        ChannelFrameView::Ping => QuicFrameView::Ping,
        ChannelFrameView::ResetStream { stream_id, error_code, final_size } => {
            QuicFrameView::ResetStream { stream_id, application_error_code: error_code, final_size }
        },
        ChannelFrameView::Stream { stream_id, offset, fin, data } => QuicFrameView::Stream {
            stream_id,
            offset,
            fin,
            data,
        },
        ChannelFrameView::Datagram { data } => QuicFrameView::Datagram { data },
        ChannelFrameView::Multicast(frame) => QuicFrameView::Mcquic(frame),
    }
}

proof fn lemma_varint_first(v: u64)
    requires
        v < VARINT_LIMIT,
    ensures
        codec::varint_bytes(v).len() > 0,
        codec::varint_bytes(v)[0] == 0 ==> v == 0,
{
    let bytes = codec::varint_bytes(v);
    codec::lemma_varint_len(v);
    if bytes[0] == 0 {
        reveal(codec::parse_varint);
        codec::lemma_varint_roundtrip(v, Seq::empty());
        assert(bytes + Seq::<u8>::empty() =~= bytes);
        assert(codec::parse_varint(bytes).0 == Some(v));
        let head = bytes.take(1);
        assert(head.drop_last().len() == 0);
        assert(codec::be_value(head.drop_last()) == 0);
        assert(codec::be_value(head) == 0);
    }
}

proof fn lemma_first_byte(frame: ChannelFrameView)
    requires
        frame.valid(),
        frame.fits(),
        !(frame is Padding),
    ensures
        frame.wire_bytes().len() > 0,
        frame.wire_bytes()[0] != 0,
{
    let frame_type = match frame {
        ChannelFrameView::Ping => PING,
        ChannelFrameView::ResetStream { stream_id: _, error_code: _, final_size: _ } => RESET_STREAM,
        ChannelFrameView::Stream { stream_id: _, offset, fin, data: _ } => {
            channel_frame::stream_type_of(offset, fin)
        },
        ChannelFrameView::Datagram { data: _ } => DATAGRAM_WITH_LEN,
        ChannelFrameView::Multicast(frame) => frame.wire_type()->Ok_0,
        _ => PADDING,
    };
    if frame is Multicast {
        frame_laws::law_wire_types_are_multicast(frame->Multicast_0);
    }
    lemma_varint_first(frame_type);
    assert(frame.wire_bytes()[0] == codec::varint_bytes(frame_type)[0]);
}

proof fn lemma_zeros(n: nat, tail: Seq<u8>, max: nat)
    requires
        n <= max,
        tail.len() > 0 ==> tail[0] != 0,
    ensures
        channel_frame::zero_run(Seq::new(n, |i: int| 0u8) + tail, max) == n,
    decreases n,
{
    let s = Seq::new(n, |i: int| 0u8) + tail;
    if n > 0 {
        assert(s.skip(1) =~= Seq::new((n - 1) as nat, |i: int| 0u8) + tail);
        lemma_zeros((n - 1) as nat, tail, (max - 1) as nat);
    } else {
        assert(s =~= tail);
    }
}

proof fn lemma_frame_type(frame_type: u64, tail: Seq<u8>)
    requires
        frame_type < VARINT_LIMIT,
    ensures
        channel_frame::parse_quic_frame(codec::varint_bytes(frame_type) + tail)
            == channel_frame::parse_quic_payload(tail, frame_type),
{
    codec::lemma_varint_roundtrip(frame_type, tail);
    codec::lemma_varint_len(frame_type);
}

proof fn lemma_padding_roundtrip(len: usize, tail: Seq<u8>)
    requires
        1 <= len <= 0xffff,
        tail.len() > 0 ==> tail[0] != 0,
    ensures
        channel_frame::parse_quic_frame((ChannelFrameView::Padding { len }).wire_bytes() + tail)
            == (Ok::<QuicFrameView, Error>(QuicFrameView::Padding(len as u16)), tail),
{
    reveal(channel_frame::parse_quic_payload);
    let more = (len - 1) as nat;
    let rest = Seq::new(more, |i: int| 0u8) + tail;
    reveal(codec::varint_bytes);
    reveal_with_fuel(codec::be_bytes, 2);
    assert(codec::varint_bytes(PADDING) =~= seq![0u8]);
    assert((ChannelFrameView::Padding { len }).wire_bytes() + tail =~= codec::varint_bytes(PADDING)
        + rest);
    lemma_frame_type(PADDING, rest);
    lemma_zeros(more, tail, 0xfffe);
    assert(rest.skip(more as int) =~= tail);
}

proof fn lemma_stream_bytes(
    stream_id: u64,
    offset: u64,
    fin: bool,
    data: Seq<u8>,
    tail: Seq<u8>,
)
    ensures
        (ChannelFrameView::Stream { stream_id, offset, fin, data }).wire_bytes() + tail
            == codec::varint_bytes(channel_frame::stream_type_of(offset, fin)) + (
        codec::varint_bytes(stream_id) + (if offset > 0 {
            codec::varint_bytes(offset) + (codec::vvec_bytes(data) + tail)
        } else {
            codec::vvec_bytes(data) + tail
        })),
{
    let p0 = codec::varint_bytes(channel_frame::stream_type_of(offset, fin));
    let p1 = codec::varint_bytes(stream_id);
    let p3 = codec::vvec_bytes(data);
    if offset > 0 {
        let p2 = codec::varint_bytes(offset);
        assert(p0 + p1 + p2 + p3 + tail =~= p0 + (p1 + (p2 + (p3 + tail))));
    } else {
        assert(p0 + p1 + Seq::empty() + p3 + tail =~= p0 + (p1 + (p3 + tail)));
    }
}

proof fn lemma_stream_payload(
    frame_type: u64,
    stream_id: u64,
    offset: u64,
    fin: bool,
    data: Seq<u8>,
    tail: Seq<u8>,
)
    requires
        stream_id < VARINT_LIMIT,
        offset + data.len() < VARINT_LIMIT,
        frame_type == channel_frame::stream_type_of(offset, fin),
    ensures
        channel_frame::parse_stream(
            codec::varint_bytes(stream_id) + (if offset > 0 {
                codec::varint_bytes(offset) + (codec::vvec_bytes(data) + tail)
            } else {
                codec::vvec_bytes(data) + tail
            }),
            frame_type,
        ) == (
            Ok::<QuicFrameView, Error>(QuicFrameView::Stream { stream_id, offset, fin, data }),
            tail,
        ),
{
    let s2 = codec::vvec_bytes(data) + tail;
    codec::lemma_vvec_roundtrip(data, tail);
    if offset > 0 {
        let s1 = codec::varint_bytes(offset) + s2;
        codec::lemma_varint_roundtrip(stream_id, s1);
        codec::lemma_varint_roundtrip(offset, s2);
    } else {
        codec::lemma_varint_roundtrip(stream_id, s2);
    }
}

proof fn lemma_stream_roundtrip(
    stream_id: u64,
    offset: u64,
    fin: bool,
    data: Seq<u8>,
    tail: Seq<u8>,
)
    requires
        stream_id < VARINT_LIMIT,
        offset + data.len() < VARINT_LIMIT,
    ensures
        channel_frame::parse_quic_frame(
            (ChannelFrameView::Stream { stream_id, offset, fin, data }).wire_bytes() + tail,
        ) == (
            Ok::<QuicFrameView, Error>(QuicFrameView::Stream { stream_id, offset, fin, data }),
            tail,
        ),
{
    reveal(channel_frame::parse_quic_payload);
    let frame_type = channel_frame::stream_type_of(offset, fin);
    let rest = codec::varint_bytes(stream_id) + (if offset > 0 {
        codec::varint_bytes(offset) + (codec::vvec_bytes(data) + tail)
    } else {
        codec::vvec_bytes(data) + tail
    });
    lemma_stream_bytes(stream_id, offset, fin, data, tail);
    lemma_frame_type(frame_type, rest);
    lemma_stream_payload(frame_type, stream_id, offset, fin, data, tail);
}

proof fn lemma_reset_stream_roundtrip(
    stream_id: u64,
    error_code: u64,
    final_size: u64,
    tail: Seq<u8>,
)
    requires
        stream_id < VARINT_LIMIT,
        error_code < VARINT_LIMIT,
        final_size < VARINT_LIMIT,
    ensures
        channel_frame::parse_quic_frame(
            (ChannelFrameView::ResetStream { stream_id, error_code, final_size }).wire_bytes()
                + tail,
        ) == (
            Ok::<QuicFrameView, Error>(
                QuicFrameView::ResetStream {
                    stream_id,
                    application_error_code: error_code,
                    final_size,
                },
            ),
            tail,
        ),
{
    reveal(channel_frame::parse_quic_payload);
    let s2 = codec::varint_bytes(final_size) + tail;
    let s1 = codec::varint_bytes(error_code) + s2;
    let s0 = codec::varint_bytes(stream_id) + s1;
    assert((ChannelFrameView::ResetStream { stream_id, error_code, final_size }).wire_bytes() + tail
        =~= codec::varint_bytes(RESET_STREAM) + s0);
    lemma_frame_type(RESET_STREAM, s0);
    codec::lemma_varint_roundtrip(stream_id, s1);
    codec::lemma_varint_roundtrip(error_code, s2);
    codec::lemma_varint_roundtrip(final_size, tail);
}

pub proof fn lemma_control_roundtrip(control: FrameView, tail: Seq<u8>)
    requires
        frame_laws::readable(control),
        control is Integrity ==> tail.len() == 0,
    ensures
        channel_frame::parse_quic_frame(control.wire_bytes() + tail) == (
            Ok::<QuicFrameView, Error>(QuicFrameView::Mcquic(control)),
            tail,
        ),
{
    reveal(channel_frame::parse_quic_payload);
    let frame_type = control.wire_type()->Ok_0;
    let rest = control.payload_bytes() + tail;
    assert(control.wire_bytes() + tail =~= codec::varint_bytes(frame_type) + rest);
    frame_laws::law_wire_types_are_multicast(control);
    lemma_frame_type(frame_type, rest);
    frame_laws::law_payload_roundtrip(control, None, tail);
}

proof fn lemma_datagram_roundtrip(data: Seq<u8>, tail: Seq<u8>)
    requires
        data.len() < 0x4000,
    ensures
        channel_frame::parse_quic_frame((ChannelFrameView::Datagram { data }).wire_bytes() + tail)
            == (Ok::<QuicFrameView, Error>(QuicFrameView::Datagram { data }), tail),
{
    reveal(channel_frame::parse_quic_payload);
    let tagged = (data.len() + 0x4000) as nat;
    let len = codec::be_bytes(tagged, 2);
    let s1 = data + tail;
    let s0 = len + s1;
    assert((ChannelFrameView::Datagram { data }).wire_bytes() + tail =~= codec::varint_bytes(
        DATAGRAM_WITH_LEN,
    ) + s0);
    lemma_frame_type(DATAGRAM_WITH_LEN, s0);
    codec::lemma_pow256();
    codec::lemma_be_roundtrip(tagged, 2);
    codec::lemma_be_bytes_first(tagged, 2);
    let first = len[0] as int;
    assert(first * 0x100 <= tagged < (first + 1) * 0x100);
    assert(s0[0] == len[0]);
    assert(s0.take(2) =~= len);
    assert(s0.skip(2) =~= s1);
    assert(codec::parse_varint(s0) == (Some(data.len() as u64), s1)) by {
        reveal(codec::parse_varint);
    }
    codec::lemma_bytes_roundtrip(data, tail);
}

proof fn lemma_frame_roundtrip(channel_id: Seq<u8>, frame: ChannelFrameView, tail: Seq<u8>)
    requires
        readable_frame(channel_id, frame),
        takes_rest(frame) ==> tail.len() == 0,
        frame is Padding && tail.len() > 0 ==> tail[0] != 0,
    ensures
        channel_frame::parse_quic_frame(frame.wire_bytes() + tail) == (
            Ok::<QuicFrameView, Error>(quic_frame_of(frame)),
            tail,
        ),
        channel_frame::channel_frame_of(channel_id, quic_frame_of(frame)) == Ok::<
            ChannelFrameView,
            Error,
        >(frame),
{
    match frame {
        ChannelFrameView::Padding { len } => {
            lemma_padding_roundtrip(len, tail);
        },
        ChannelFrameView::Ping => {
            lemma_frame_type(PING, tail);
            reveal(channel_frame::parse_quic_payload);
        },
        ChannelFrameView::ResetStream { stream_id, error_code, final_size } => {
            lemma_reset_stream_roundtrip(stream_id, error_code, final_size, tail);
        },
        ChannelFrameView::Stream { stream_id, offset, fin, data } => {
            lemma_stream_roundtrip(stream_id, offset, fin, data, tail);
        },
        ChannelFrameView::Datagram { data } => {
            lemma_datagram_roundtrip(data, tail);
        },
        ChannelFrameView::Multicast(control) => {
            lemma_control_roundtrip(control, tail);
        },
    }
}

proof fn lemma_frame_list_roundtrip(channel_id: Seq<u8>, frames: Seq<ChannelFrameView>)
    requires
        readable_frames(channel_id, frames),
    ensures
        channel_frame::parse_frame_list(channel_id, channel_frame::frames_written(frames)) == Ok::<
            Seq<ChannelFrameView>,
            Error,
        >(frames),
    decreases frames.len(),
{
    if frames.len() == 0 {
        assert(frames =~= Seq::empty());
    } else {
        let rest = frames.drop_first();
        let tail = channel_frame::frames_written(rest);
        assert forall|i: int| 0 <= i < rest.len() implies readable_frame(
            channel_id,
            #[trigger] rest[i],
        ) by {
            assert(rest[i] == frames[i + 1]);
        }
        assert forall|i: int| 0 <= i < rest.len() - 1 implies !takes_rest(#[trigger] rest[i]) by {
            assert(rest[i] == frames[i + 1]);
        }
        assert forall|i: int, j: int| 0 <= i < rest.len() - 1 && j == i + 1 implies !((
        #[trigger] rest[i]) is Padding && (#[trigger] rest[j]) is Padding) by {
            assert(rest[i] == frames[i + 1] && rest[j] == frames[j + 1]);
        }
        lemma_frame_list_roundtrip(channel_id, rest);
        if rest.len() > 0 {
            assert(rest[0] == frames[1]);
            assert(!takes_rest(frames[0]));
            if frames[0] is Padding {
                assert(!(frames[1] is Padding));
                lemma_first_byte(rest[0]);
                assert(tail[0] == rest[0].wire_bytes()[0]);
            }
        }
        assert(readable_frame(channel_id, frames[0]));
        lemma_frame_roundtrip(channel_id, frames[0], tail);
        lemma_wire_nonempty(channel_id, frames[0]);
        assert(channel_frame::frames_written(frames) == frames[0].wire_bytes() + tail);
        assert(seq![frames[0]] + rest =~= frames);
    }
}

proof fn lemma_wire_nonempty(channel_id: Seq<u8>, frame: ChannelFrameView)
    requires
        readable_frame(channel_id, frame),
    ensures
        frame.wire_bytes().len() > 0,
{
    if !(frame is Padding) {
        lemma_first_byte(frame);
    }
}

/// The frames of a packet are read as they were written.
pub proof fn law_channel_frames_roundtrip(channel_id: Seq<u8>, frames: Seq<ChannelFrameView>)
    requires
        frames.len() > 0,
        readable_frames(channel_id, frames),
    ensures
        channel_frame::frames_encoded(frames) == Ok::<(), Error>(()),
        channel_frame::parse_channel_frames(channel_id, channel_frame::frames_written(frames))
            == Ok::<Seq<ChannelFrameView>, Error>(frames),
{
    lemma_frame_list_roundtrip(channel_id, frames);
    assert(readable_frame(channel_id, frames[0]));
    lemma_wire_nonempty(channel_id, frames[0]);
}

/// Whether a packet of the channel `channel_id` may carry `frame`.
pub open spec fn permitted(channel_id: Seq<u8>, frame: ChannelFrameView) -> bool {
    match frame {
        ChannelFrameView::Stream { stream_id, offset: _, fin: _, data: _ } => {
            channel_frame::channel_stream_valid(stream_id)
        },
        ChannelFrameView::Multicast(frame) => channel_frame::control_frame_permitted(frame)
            && !channel_frame::vouches(channel_id, frame),
        _ => true,
    }
}

proof fn lemma_frame_list_permitted(channel_id: Seq<u8>, s: Seq<u8>)
    ensures
        channel_frame::parse_frame_list(channel_id, s) matches Ok(frames) ==> (s.len() > 0
            ==> frames.len() > 0) && forall|i: int|
            0 <= i < frames.len() ==> permitted(channel_id, #[trigger] frames[i]),
    decreases s.len(),
{
    if s.len() > 0 {
        channel_frame::lemma_quic_frame_shrinks(s);
        let (frame, rest) = channel_frame::parse_quic_frame(s);
        if frame is Ok {
            lemma_frame_list_permitted(channel_id, rest);
        }
    }
}

/// Every frame that is read from a packet is one that the channel may carry, and
/// there is at least one.
pub proof fn law_decoded_frames_permitted(channel_id: Seq<u8>, s: Seq<u8>)
    ensures
        channel_frame::parse_channel_frames(channel_id, s) matches Ok(frames) ==> frames.len() > 0
            && forall|i: int|
            0 <= i < frames.len() ==> permitted(channel_id, #[trigger] frames[i]),
{
    lemma_frame_list_permitted(channel_id, s);
}

} // verus!
