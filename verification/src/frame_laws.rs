//! Laws of the wire format of multicast control frames.

use vstd::prelude::*;
use crate::codec;
use crate::codec::VARINT_LIMIT;
use crate::error::Error;
use crate::frame;
use crate::frame::MAX_ACK_RANGE_COUNT;
use crate::types::{AckEcnCounts, AckRange, ClientLimits, FrameView, IpAddrView};

verus! {

/// Whether a reader of `frame` that takes hashes for `hash_len` bytes long knows
/// where the frame ends.
pub open spec fn self_delimited(frame: FrameView, hash_len: Option<usize>) -> bool {
    match frame {
        FrameView::Integrity(integrity) => integrity.packet_hash_count is Some && hash_len is Some,
        _ => true,
    }
}

/// Whether the hashes in `frame` are as many and as long as it says, as far as it
/// says so.
pub open spec fn hashes_match(frame: FrameView, hash_len: Option<usize>) -> bool {
    match frame {
        FrameView::Integrity(integrity) => match (integrity.packet_hash_count, hash_len) {
            (Some(count), Some(len)) => count * len == integrity.packet_hashes.len() && count * len
                <= usize::MAX,
            _ => true,
        },
        _ => true,
    }
}

/// Whether `frame` has no more ACK ranges than a reader takes.
pub open spec fn ack_count_accepted(frame: FrameView) -> bool {
    match frame {
        FrameView::Ack(ack) => ack.ack_ranges.len() <= MAX_ACK_RANGE_COUNT,
        _ => true,
    }
}

/// Whether `frame` can be written in full, and read again.
pub open spec fn readable(frame: FrameView) -> bool {
    &&& frame.valid()
    &&& frame.fits()
    &&& frame.addresses_valid()
    &&& ack_count_accepted(frame)
}

proof fn lemma_channel_id_roundtrip(channel_id: Seq<u8>, tail: Seq<u8>)
    requires
        frame::channel_id_valid(channel_id),
    ensures
        frame::parse_channel_id(frame::channel_id_bytes(channel_id) + tail) == (
            Ok::<Seq<u8>, Error>(channel_id),
            tail,
        ),
{
    let len = channel_id.len() as u8;
    assert(frame::channel_id_bytes(channel_id) + tail =~= seq![len] + (channel_id + tail));
    codec::lemma_u8_roundtrip(len, channel_id + tail);
    codec::lemma_bytes_roundtrip(channel_id, tail);
}

proof fn lemma_ip_roundtrip(addr: IpAddrView, frame_type: u64, tail: Seq<u8>)
    requires
        frame::ip_valid(addr),
        addr is V4 ==> frame_type == frame::FRAME_TYPE_ANNOUNCE_V4,
        addr is V6 ==> frame_type == frame::FRAME_TYPE_ANNOUNCE_V6,
    ensures
        frame::parse_ip(frame::ip_bytes(addr) + tail, frame_type) == (
            Ok::<IpAddrView, Error>(addr),
            tail,
        ),
{
    codec::lemma_bytes_roundtrip(frame::ip_bytes(addr), tail);
}

/// Reading limits gives the ones that were written, and leaves what follows them.
pub proof fn lemma_limits_roundtrip(limits: ClientLimits, tail: Seq<u8>)
    requires
        frame::limits_fit(limits),
    ensures
        frame::parse_limits(frame::limits_bytes(limits) + tail) == (
            Ok::<ClientLimits, Error>(limits),
            tail,
        ),
{
    let flags = frame::limit_flags(limits);
    let ids = codec::varint_bytes(limits.max_channel_ids);
    let rate = codec::varint_bytes(limits.max_aggregate_rate_kibps);
    assert(frame::limits_bytes(limits) + tail =~= seq![flags] + (rate + (ids + tail)));
    codec::lemma_u8_roundtrip(flags, rate + (ids + tail));
    codec::lemma_varint_roundtrip(limits.max_aggregate_rate_kibps, ids + tail);
    codec::lemma_varint_roundtrip(limits.max_channel_ids, tail);
    assert(0u8 & 1 == 0 && 1u8 & 1 == 1 && 2u8 & 1 == 0 && 3u8 & 1 == 1 && 0u8 & 2 == 0 && 1u8 & 2
        == 0 && 2u8 & 2 == 2 && 3u8 & 2 == 2) by (bit_vector);
}

proof fn lemma_ack_ranges_front(ranges: Seq<AckRange>)
    requires
        ranges.len() > 0,
    ensures
        frame::ack_ranges_bytes(ranges) == codec::varint_bytes(ranges[0].gap)
            + codec::varint_bytes(ranges[0].ack_range_length) + frame::ack_ranges_bytes(
            ranges.drop_first(),
        ),
    decreases ranges.len(),
{
    let head = codec::varint_bytes(ranges[0].gap) + codec::varint_bytes(ranges[0].ack_range_length);
    if ranges.len() == 1 {
        assert(ranges.drop_last() =~= Seq::empty());
        assert(ranges.drop_first() =~= Seq::empty());
        assert(ranges.last() == ranges[0]);
        assert(frame::ack_ranges_bytes(ranges) =~= head + frame::ack_ranges_bytes(
            ranges.drop_first(),
        ));
    } else {
        let init = ranges.drop_last();
        lemma_ack_ranges_front(init);
        assert(init[0] == ranges[0]);
        assert(ranges.drop_first().drop_last() =~= init.drop_first());
        assert(ranges.drop_first().last() == ranges.last());
        assert(frame::ack_ranges_bytes(ranges) =~= head + frame::ack_ranges_bytes(
            ranges.drop_first(),
        ));
    }
}

proof fn lemma_ack_range_list_roundtrip(ranges: Seq<AckRange>, tail: Seq<u8>)
    requires
        frame::ack_ranges_fit(ranges),
    ensures
        frame::parse_ack_range_list(frame::ack_ranges_bytes(ranges) + tail, ranges.len()) == (
            Ok::<Seq<AckRange>, Error>(ranges),
            tail,
        ),
        frame::ack_ranges_bytes(ranges).len() >= 2 * ranges.len(),
    decreases ranges.len(),
{
    if ranges.len() == 0 {
        assert(ranges =~= Seq::empty());
        assert(frame::ack_ranges_bytes(ranges) + tail =~= tail);
    } else {
        let rest = ranges.drop_first();
        assert forall|i: int| 0 <= i < rest.len() implies (#[trigger] rest[i]).gap < VARINT_LIMIT
            && rest[i].ack_range_length < VARINT_LIMIT by {
            assert(rest[i] == ranges[i + 1]);
        }
        lemma_ack_ranges_front(ranges);
        lemma_ack_range_list_roundtrip(rest, tail);
        let gap = codec::varint_bytes(ranges[0].gap);
        let len = codec::varint_bytes(ranges[0].ack_range_length);
        let after = frame::ack_ranges_bytes(rest) + tail;
        codec::lemma_varint_len(ranges[0].gap);
        codec::lemma_varint_len(ranges[0].ack_range_length);
        assert(frame::ack_ranges_bytes(ranges) + tail =~= gap + (len + after));
        codec::lemma_varint_roundtrip(ranges[0].gap, len + after);
        codec::lemma_varint_roundtrip(ranges[0].ack_range_length, after);
        assert(seq![ranges[0]] + rest =~= ranges);
    }
}

proof fn lemma_ecn_roundtrip(counts: AckEcnCounts, tail: Seq<u8>)
    requires
        frame::ecn_fits(counts),
    ensures
        frame::parse_ecn(frame::ecn_bytes(Some(counts)) + tail) == (
            Ok::<AckEcnCounts, Error>(counts),
            tail,
        ),
{
    let a = codec::varint_bytes(counts.ect0_count);
    let b = codec::varint_bytes(counts.ect1_count);
    let c = codec::varint_bytes(counts.ecn_ce_count);
    assert(frame::ecn_bytes(Some(counts)) + tail =~= a + (b + (c + tail)));
    codec::lemma_varint_roundtrip(counts.ect0_count, b + (c + tail));
    codec::lemma_varint_roundtrip(counts.ect1_count, c + tail);
    codec::lemma_varint_roundtrip(counts.ecn_ce_count, tail);
}

/// Chaining is associative.
proof fn lemma_chain(a: Seq<u8>, b: Seq<u8>, c: Seq<u8>)
    ensures
        a + b + c == a + (b + c),
{
    assert(a + b + c =~= a + (b + c));
}

proof fn lemma_announce_bytes(frame: FrameView, tail: Seq<u8>)
    requires
        frame is Announce,
    ensures
        ({
            let f = frame->Announce_0;
            frame.payload_bytes() + tail == frame::channel_id_bytes(f.channel_id) + (
            frame::ip_bytes(f.source) + (frame::ip_bytes(f.group) + (codec::be_bytes(
                f.udp_port as nat,
                2,
            ) + (codec::be_bytes(f.header_protection_algorithm as nat, 2) + (codec::vvec_bytes(
                f.header_secret,
            ) + (codec::be_bytes(f.aead_algorithm as nat, 2) + (codec::be_bytes(
                f.integrity_hash_algorithm as nat,
                2,
            ) + (codec::varint_bytes(f.max_rate_kibps) + (codec::varint_bytes(f.max_ack_delay_ms)
                + tail)))))))))
        }),
{
    let f = frame->Announce_0;
    let p0 = frame::channel_id_bytes(f.channel_id);
    let p1 = frame::ip_bytes(f.source);
    let p2 = frame::ip_bytes(f.group);
    let p3 = codec::be_bytes(f.udp_port as nat, 2);
    let p4 = codec::be_bytes(f.header_protection_algorithm as nat, 2);
    let p5 = codec::vvec_bytes(f.header_secret);
    let p6 = codec::be_bytes(f.aead_algorithm as nat, 2);
    let p7 = codec::be_bytes(f.integrity_hash_algorithm as nat, 2);
    let p8 = codec::varint_bytes(f.max_rate_kibps);
    let p9 = codec::varint_bytes(f.max_ack_delay_ms);
    let s9 = p9 + tail;
    let s8 = p8 + s9;
    let s7 = p7 + s8;
    let s6 = p6 + s7;
    let s5 = p5 + s6;
    let s4 = p4 + s5;
    let s3 = p3 + s4;
    let s2 = p2 + s3;
    lemma_chain(p0 + p1 + p2 + p3 + p4 + p5 + p6 + p7 + p8, p9, tail);
    lemma_chain(p0 + p1 + p2 + p3 + p4 + p5 + p6 + p7, p8, s9);
    lemma_chain(p0 + p1 + p2 + p3 + p4 + p5 + p6, p7, s8);
    lemma_chain(p0 + p1 + p2 + p3 + p4 + p5, p6, s7);
    lemma_chain(p0 + p1 + p2 + p3 + p4, p5, s6);
    lemma_chain(p0 + p1 + p2 + p3, p4, s5);
    lemma_chain(p0 + p1 + p2, p3, s4);
    lemma_chain(p0 + p1, p2, s3);
    lemma_chain(p0, p1, s2);
}

proof fn lemma_announce_roundtrip(frame: FrameView, tail: Seq<u8>)
    requires
        readable(frame),
        frame is Announce,
    ensures
        frame::parse_announce(frame.payload_bytes() + tail, frame.wire_type()->Ok_0) == (
            Ok::<FrameView, Error>(frame),
            tail,
        ),
{
    let f = frame->Announce_0;
    let t = frame.wire_type()->Ok_0;
    let source = frame::ip_bytes(f.source);
    let group = frame::ip_bytes(f.group);
    let s9 = codec::varint_bytes(f.max_ack_delay_ms) + tail;
    let s8 = codec::varint_bytes(f.max_rate_kibps) + s9;
    let s7 = codec::be_bytes(f.integrity_hash_algorithm as nat, 2) + s8;
    let s6 = codec::be_bytes(f.aead_algorithm as nat, 2) + s7;
    let s5 = codec::vvec_bytes(f.header_secret) + s6;
    let s4 = codec::be_bytes(f.header_protection_algorithm as nat, 2) + s5;
    let s3 = codec::be_bytes(f.udp_port as nat, 2) + s4;
    let s2 = group + s3;
    let s1 = source + s2;
    lemma_announce_bytes(frame, tail);
    lemma_channel_id_roundtrip(f.channel_id, s1);
    lemma_ip_roundtrip(f.source, t, s2);
    lemma_ip_roundtrip(f.group, t, s3);
    codec::lemma_u16_roundtrip(f.udp_port, s4);
    codec::lemma_u16_roundtrip(f.header_protection_algorithm, s5);
    codec::lemma_vvec_roundtrip(f.header_secret, s6);
    codec::lemma_u16_roundtrip(f.aead_algorithm, s7);
    codec::lemma_u16_roundtrip(f.integrity_hash_algorithm, s8);
    codec::lemma_varint_roundtrip(f.max_rate_kibps, s9);
    codec::lemma_varint_roundtrip(f.max_ack_delay_ms, tail);
}

proof fn lemma_integrity_roundtrip(frame: FrameView, hash_len: Option<usize>, tail: Seq<u8>)
    requires
        readable(frame),
        frame is Integrity,
        hashes_match(frame, hash_len),
        self_delimited(frame, hash_len) || tail.len() == 0,
    ensures
        frame::parse_integrity(frame.payload_bytes() + tail, frame.wire_type()->Ok_0, hash_len) == (
            Ok::<FrameView, Error>(frame),
            tail,
        ),
{
    let f = frame->Integrity_0;
    let s3 = f.packet_hashes + tail;
    let count = match f.packet_hash_count {
        Some(count) => codec::varint_bytes(count),
        None => Seq::empty(),
    };
    let s2 = count + s3;
    let s1 = codec::varint_bytes(f.packet_number_start) + s2;
    assert(frame.payload_bytes() + tail =~= frame::channel_id_bytes(f.channel_id) + s1);
    lemma_channel_id_roundtrip(f.channel_id, s1);
    codec::lemma_varint_roundtrip(f.packet_number_start, s2);
    if f.packet_hash_count is Some {
        codec::lemma_varint_roundtrip(f.packet_hash_count->Some_0, s3);
    } else {
        assert(s2 =~= s3);
    }
    if f.packet_hash_count is Some && hash_len is Some {
        codec::lemma_bytes_roundtrip(f.packet_hashes, tail);
    } else {
        assert(tail =~= Seq::empty());
        assert(s3 =~= f.packet_hashes);
    }
}

proof fn lemma_ack_bytes(frame: FrameView, tail: Seq<u8>)
    requires
        frame is Ack,
    ensures
        ({
            let f = frame->Ack_0;
            frame.payload_bytes() + tail == frame::channel_id_bytes(f.channel_id) + (
            codec::varint_bytes(f.largest_acknowledged) + (codec::varint_bytes(f.ack_delay) + (
            codec::varint_bytes(f.ack_ranges.len() as u64) + (codec::varint_bytes(
                f.first_ack_range,
            ) + (frame::ack_ranges_bytes(f.ack_ranges) + (frame::ecn_bytes(f.ecn_counts)
                + tail))))))
        }),
{
    let f = frame->Ack_0;
    let p0 = frame::channel_id_bytes(f.channel_id);
    let p1 = codec::varint_bytes(f.largest_acknowledged);
    let p2 = codec::varint_bytes(f.ack_delay);
    let p3 = codec::varint_bytes(f.ack_ranges.len() as u64);
    let p4 = codec::varint_bytes(f.first_ack_range);
    let p5 = frame::ack_ranges_bytes(f.ack_ranges);
    let p6 = frame::ecn_bytes(f.ecn_counts);
    let s6 = p6 + tail;
    let s5 = p5 + s6;
    let s4 = p4 + s5;
    let s3 = p3 + s4;
    let s2 = p2 + s3;
    lemma_chain(p0 + p1 + p2 + p3 + p4 + p5, p6, tail);
    lemma_chain(p0 + p1 + p2 + p3 + p4, p5, s6);
    lemma_chain(p0 + p1 + p2 + p3, p4, s5);
    lemma_chain(p0 + p1 + p2, p3, s4);
    lemma_chain(p0 + p1, p2, s3);
    lemma_chain(p0, p1, s2);
}

proof fn lemma_ack_roundtrip(frame: FrameView, tail: Seq<u8>)
    requires
        readable(frame),
        frame is Ack,
    ensures
        frame::parse_ack(frame.payload_bytes() + tail, frame.wire_type()->Ok_0) == (
            Ok::<FrameView, Error>(frame),
            tail,
        ),
{
    let f = frame->Ack_0;
    let s6 = frame::ecn_bytes(f.ecn_counts) + tail;
    let s5 = frame::ack_ranges_bytes(f.ack_ranges) + s6;
    let s4 = codec::varint_bytes(f.first_ack_range) + s5;
    let s3 = codec::varint_bytes(f.ack_ranges.len() as u64) + s4;
    let s2 = codec::varint_bytes(f.ack_delay) + s3;
    let s1 = codec::varint_bytes(f.largest_acknowledged) + s2;
    lemma_ack_bytes(frame, tail);
    lemma_channel_id_roundtrip(f.channel_id, s1);
    codec::lemma_varint_roundtrip(f.largest_acknowledged, s2);
    codec::lemma_varint_roundtrip(f.ack_delay, s3);
    codec::lemma_varint_roundtrip(f.ack_ranges.len() as u64, s4);
    codec::lemma_varint_roundtrip(f.first_ack_range, s5);
    lemma_ack_range_list_roundtrip(f.ack_ranges, s6);
    if f.ecn_counts is Some {
        lemma_ecn_roundtrip(f.ecn_counts->Some_0, tail);
    } else {
        assert(s6 =~= tail);
    }
}

proof fn lemma_state_roundtrip(frame: FrameView, tail: Seq<u8>)
    requires
        readable(frame),
        frame is State,
    ensures
        frame::parse_state_frame(frame.payload_bytes() + tail, frame.wire_type()->Ok_0) == (
            Ok::<FrameView, Error>(frame),
            tail,
        ),
{
    let f = frame->State_0;
    let s4 = codec::vvec_bytes(f.reason_phrase) + tail;
    let s3 = codec::varint_bytes(f.reason_code) + s4;
    let s2 = seq![frame::state_code(f.state)] + s3;
    let s1 = codec::varint_bytes(f.sequence) + s2;
    assert(frame.payload_bytes() + tail =~= frame::channel_id_bytes(f.channel_id) + s1);
    lemma_channel_id_roundtrip(f.channel_id, s1);
    codec::lemma_varint_roundtrip(f.sequence, s2);
    codec::lemma_u8_roundtrip(frame::state_code(f.state), s3);
    codec::lemma_varint_roundtrip(f.reason_code, s4);
    codec::lemma_vvec_roundtrip(f.reason_phrase, tail);
}

/// Reading the payload that a frame was written to gives the frame, and leaves
/// what follows it. A list of hashes that is not counted, or whose hash length is
/// not known, has to be the last thing in the input.
pub proof fn law_payload_roundtrip(frame: FrameView, hash_len: Option<usize>, tail: Seq<u8>)
    requires
        readable(frame),
        hashes_match(frame, hash_len),
        self_delimited(frame, hash_len) || tail.len() == 0,
    ensures
        frame::parse_payload(frame.payload_bytes() + tail, frame.wire_type()->Ok_0, hash_len) == (
            Ok::<FrameView, Error>(frame),
            tail,
        ),
{
    match frame {
        FrameView::Announce(f) => {
            lemma_announce_roundtrip(frame, tail);
        },
        FrameView::Key(f) => {
            let s3 = codec::vvec_bytes(f.secret) + tail;
            let s2 = codec::varint_bytes(f.from_packet_number) + s3;
            let s1 = codec::varint_bytes(f.key_sequence) + s2;
            assert(frame.payload_bytes() + tail =~= frame::channel_id_bytes(f.channel_id) + s1);
            lemma_channel_id_roundtrip(f.channel_id, s1);
            codec::lemma_varint_roundtrip(f.key_sequence, s2);
            codec::lemma_varint_roundtrip(f.from_packet_number, s3);
            codec::lemma_vvec_roundtrip(f.secret, tail);
        },
        FrameView::Join(f) => {
            let s3 = codec::varint_bytes(f.mc_key_sequence) + tail;
            let s2 = codec::varint_bytes(f.mc_state_sequence) + s3;
            let s1 = codec::varint_bytes(f.mc_limits_sequence) + s2;
            assert(frame.payload_bytes() + tail =~= frame::channel_id_bytes(f.channel_id) + s1);
            lemma_channel_id_roundtrip(f.channel_id, s1);
            codec::lemma_varint_roundtrip(f.mc_limits_sequence, s2);
            codec::lemma_varint_roundtrip(f.mc_state_sequence, s3);
            codec::lemma_varint_roundtrip(f.mc_key_sequence, tail);
        },
        FrameView::Leave(f) => {
            let s2 = codec::varint_bytes(f.after_packet_number) + tail;
            let s1 = codec::varint_bytes(f.mc_state_sequence) + s2;
            assert(frame.payload_bytes() + tail =~= frame::channel_id_bytes(f.channel_id) + s1);
            lemma_channel_id_roundtrip(f.channel_id, s1);
            codec::lemma_varint_roundtrip(f.mc_state_sequence, s2);
            codec::lemma_varint_roundtrip(f.after_packet_number, tail);
        },
        FrameView::Integrity(f) => {
            lemma_integrity_roundtrip(frame, hash_len, tail);
        },
        FrameView::Ack(f) => {
            lemma_ack_roundtrip(frame, tail);
        },
        FrameView::Limits(f) => {
            let s2 = codec::varint_bytes(f.max_joined_count) + tail;
            let s1 = frame::limits_bytes(f.limits) + s2;
            assert(frame.payload_bytes() + tail =~= codec::varint_bytes(f.sequence) + s1);
            codec::lemma_varint_roundtrip(f.sequence, s1);
            lemma_limits_roundtrip(f.limits, s2);
            codec::lemma_varint_roundtrip(f.max_joined_count, tail);
        },
        FrameView::Retire(f) => {
            let s1 = codec::varint_bytes(f.after_packet_number) + tail;
            assert(frame.payload_bytes() + tail =~= frame::channel_id_bytes(f.channel_id) + s1);
            lemma_channel_id_roundtrip(f.channel_id, s1);
            codec::lemma_varint_roundtrip(f.after_packet_number, tail);
        },
        FrameView::State(f) => {
            lemma_state_roundtrip(frame, tail);
        },
    }
}

/// Reading a frame that was written gives the frame, and leaves what follows it.
/// A list of hashes has to be the last thing in the input.
pub proof fn law_frame_roundtrip(frame: FrameView, tail: Seq<u8>)
    requires
        readable(frame),
        frame is Integrity ==> tail.len() == 0,
    ensures
        frame::parse_frame(frame.wire_bytes() + tail) == (Ok::<FrameView, Error>(frame), tail),
{
    let t = frame.wire_type()->Ok_0;
    assert(frame.wire_bytes() + tail =~= codec::varint_bytes(t) + (frame.payload_bytes() + tail));
    codec::lemma_varint_roundtrip(t, frame.payload_bytes() + tail);
    law_payload_roundtrip(frame, None, tail);
}

/// A frame that was written on its own is read back as it was.
pub proof fn law_whole_frame_roundtrip(frame: FrameView)
    requires
        readable(frame),
    ensures
        frame::parse_whole_frame(frame.wire_bytes()) == Ok::<FrameView, Error>(frame),
{
    assert(frame.wire_bytes() + Seq::empty() =~= frame.wire_bytes());
    law_frame_roundtrip(frame, Seq::empty());
}

/// Two frames that can be read again differ on the wire, unless they are the
/// same.
pub proof fn law_encoding_unique(a: FrameView, b: FrameView)
    requires
        readable(a),
        readable(b),
        a.wire_bytes() == b.wire_bytes(),
    ensures
        a == b,
{
    law_whole_frame_roundtrip(a);
    law_whole_frame_roundtrip(b);
}

/// Bytes after a frame are refused, where the frame does not take them up itself.
pub proof fn law_trailing_bytes_rejected(frame: FrameView, extra: Seq<u8>)
    requires
        readable(frame),
        !(frame is Integrity),
        extra.len() > 0,
    ensures
        frame::parse_whole_frame(frame.wire_bytes() + extra) == Err::<FrameView, Error>(
            Error::TooMuchData,
        ),
{
    law_frame_roundtrip(frame, extra);
}

proof fn lemma_ack_range_list_fits(s: Seq<u8>, n: nat)
    ensures
        frame::parse_ack_range_list(s, n).0 matches Ok(ranges) ==> frame::ack_ranges_fit(ranges)
            && ranges.len() == n,
    decreases n,
{
    if n > 0 {
        codec::lemma_varint_in_range(s);
        codec::lemma_varint_in_range(codec::parse_varint(s).1);
        let rest = frame::parse_ack_range(s).1;
        lemma_ack_range_list_fits(rest, (n - 1) as nat);
    }
}

proof fn lemma_fields_in_range()
    ensures
        forall|x: Seq<u8>|
            (#[trigger] codec::parse_varint(x)).0 is Some ==> codec::parse_varint(x).0->Some_0
                < VARINT_LIMIT,
        forall|x: Seq<u8>|
            (#[trigger] codec::parse_vvec(x)).0 is Some ==> codec::parse_vvec(x).0->Some_0.len()
                < VARINT_LIMIT,
        forall|x: Seq<u8>|
            (#[trigger] frame::parse_channel_id(x)).0 is Ok ==> frame::channel_id_valid(
                frame::parse_channel_id(x).0->Ok_0,
            ),
{
    assert forall|x: Seq<u8>| (#[trigger] codec::parse_varint(x)).0 is Some implies
        codec::parse_varint(x).0->Some_0 < VARINT_LIMIT by {
        codec::lemma_varint_in_range(x);
    }
    assert forall|x: Seq<u8>| (#[trigger] codec::parse_vvec(x)).0 is Some implies
        codec::parse_vvec(x).0->Some_0.len() < VARINT_LIMIT by {
        codec::lemma_varint_in_range(x);
    }
}

/// Whether what `parse_payload` gave is a frame that can be written, with the
/// type that it was read with, and read again.
pub open spec fn read_well(
    p: codec::Parsed<FrameView>,
    frame_type: u64,
    hash_len: Option<usize>,
) -> bool {
    p.0 matches Ok(frame) ==> {
        &&& readable(frame)
        &&& frame.wire_type() == Ok::<u64, Error>(frame_type)
        &&& hashes_match(frame, hash_len)
    }
}

proof fn lemma_announce_read_well(s: Seq<u8>, frame_type: u64, hash_len: Option<usize>)
    requires
        frame_type == frame::FRAME_TYPE_ANNOUNCE_V4 || frame_type == frame::FRAME_TYPE_ANNOUNCE_V6,
    ensures
        read_well(frame::parse_announce(s, frame_type), frame_type, hash_len),
{
    lemma_fields_in_range();
    assert forall|x: Seq<u8>| (#[trigger] frame::parse_ip(x, frame_type)).0 is Ok implies
        frame::ip_valid(frame::parse_ip(x, frame_type).0->Ok_0) by {}
}

proof fn lemma_key_read_well(s: Seq<u8>, frame_type: u64, hash_len: Option<usize>)
    requires
        frame_type == frame::FRAME_TYPE_KEY,
    ensures
        read_well(frame::parse_key(s), frame_type, hash_len),
{
    lemma_fields_in_range();
}

proof fn lemma_join_read_well(s: Seq<u8>, frame_type: u64, hash_len: Option<usize>)
    requires
        frame_type == frame::FRAME_TYPE_JOIN,
    ensures
        read_well(frame::parse_join(s), frame_type, hash_len),
{
    lemma_fields_in_range();
}

proof fn lemma_leave_read_well(s: Seq<u8>, frame_type: u64, hash_len: Option<usize>)
    requires
        frame_type == frame::FRAME_TYPE_LEAVE,
    ensures
        read_well(frame::parse_leave(s), frame_type, hash_len),
{
    lemma_fields_in_range();
}

proof fn lemma_integrity_read_well(s: Seq<u8>, frame_type: u64, hash_len: Option<usize>)
    requires
        frame_type == frame::FRAME_TYPE_INTEGRITY || frame_type == frame::FRAME_TYPE_INTEGRITY_WITH_LENGTH,
    ensures
        read_well(frame::parse_integrity(s, frame_type, hash_len), frame_type, hash_len),
{
    lemma_fields_in_range();
}

proof fn lemma_ack_read_well(s: Seq<u8>, frame_type: u64, hash_len: Option<usize>)
    requires
        frame_type == frame::FRAME_TYPE_ACK || frame_type == frame::FRAME_TYPE_ACK_ECN,
    ensures
        read_well(frame::parse_ack(s, frame_type), frame_type, hash_len),
{
    lemma_fields_in_range();
    assert forall|x: Seq<u8>, n: nat|
        (#[trigger] frame::parse_ack_range_list(x, n)).0 is Ok implies frame::ack_ranges_fit(
        frame::parse_ack_range_list(x, n).0->Ok_0,
    ) && frame::parse_ack_range_list(x, n).0->Ok_0.len() == n by {
        lemma_ack_range_list_fits(x, n);
    }
}

proof fn lemma_limits_read_well(s: Seq<u8>, frame_type: u64, hash_len: Option<usize>)
    requires
        frame_type == frame::FRAME_TYPE_LIMITS,
    ensures
        read_well(frame::parse_limits_frame(s), frame_type, hash_len),
{
    lemma_fields_in_range();
}

proof fn lemma_retire_read_well(s: Seq<u8>, frame_type: u64, hash_len: Option<usize>)
    requires
        frame_type == frame::FRAME_TYPE_RETIRE,
    ensures
        read_well(frame::parse_retire(s), frame_type, hash_len),
{
    lemma_fields_in_range();
}

proof fn lemma_state_read_well(s: Seq<u8>, frame_type: u64, hash_len: Option<usize>)
    requires
        frame_type == frame::FRAME_TYPE_STATE || frame_type == frame::FRAME_TYPE_STATE_APPLICATION,
    ensures
        read_well(frame::parse_state_frame(s, frame_type), frame_type, hash_len),
{
    lemma_fields_in_range();
}

/// Every frame that is read can be written, with the type that it was read with,
/// and would be read again.
pub proof fn law_decoded_is_readable(s: Seq<u8>, frame_type: u64, hash_len: Option<usize>)
    ensures
        read_well(frame::parse_payload(s, frame_type, hash_len), frame_type, hash_len),
{
    if frame_type == frame::FRAME_TYPE_ANNOUNCE_V4 || frame_type == frame::FRAME_TYPE_ANNOUNCE_V6 {
        lemma_announce_read_well(s, frame_type, hash_len);
    }
    if frame_type == frame::FRAME_TYPE_KEY {
        lemma_key_read_well(s, frame_type, hash_len);
    }
    if frame_type == frame::FRAME_TYPE_JOIN {
        lemma_join_read_well(s, frame_type, hash_len);
    }
    if frame_type == frame::FRAME_TYPE_LEAVE {
        lemma_leave_read_well(s, frame_type, hash_len);
    }
    if frame_type == frame::FRAME_TYPE_INTEGRITY || frame_type == frame::FRAME_TYPE_INTEGRITY_WITH_LENGTH {
        lemma_integrity_read_well(s, frame_type, hash_len);
    }
    if frame_type == frame::FRAME_TYPE_ACK || frame_type == frame::FRAME_TYPE_ACK_ECN {
        lemma_ack_read_well(s, frame_type, hash_len);
    }
    if frame_type == frame::FRAME_TYPE_LIMITS {
        lemma_limits_read_well(s, frame_type, hash_len);
    }
    if frame_type == frame::FRAME_TYPE_RETIRE {
        lemma_retire_read_well(s, frame_type, hash_len);
    }
    if frame_type == frame::FRAME_TYPE_STATE || frame_type == frame::FRAME_TYPE_STATE_APPLICATION {
        lemma_state_read_well(s, frame_type, hash_len);
    }
}

/// A frame that was read on its own is read again from what it is written to.
pub proof fn law_reencoding(s: Seq<u8>)
    ensures
        frame::parse_whole_frame(s) matches Ok(frame) ==> frame::parse_whole_frame(
            frame.wire_bytes(),
        ) == Ok::<FrameView, Error>(frame),
{
    if let Ok(frame) = frame::parse_whole_frame(s) {
        let (frame_type, rest) = codec::required(codec::parse_varint(s));
        law_decoded_is_readable(rest, frame_type->Ok_0, None);
        law_whole_frame_roundtrip(frame);
    }
}

/// A frame type is refused as unknown exactly if it is not a multicast frame
/// type.
pub proof fn law_unknown_types_rejected(s: Seq<u8>, frame_type: u64, hash_len: Option<usize>)
    ensures
        frame::parse_payload(s, frame_type, hash_len).0 == Err::<FrameView, Error>(
            Error::UnknownFrameType,
        ) <==> !frame::multicast_type(frame_type),
{
    assert forall|x: Seq<u8>, n: nat|
        (#[trigger] frame::parse_ack_range_list(x, n)).0 is Err implies
        frame::parse_ack_range_list(x, n).0->Err_0 == Error::NoMoreData by {
        lemma_ack_range_list_error(x, n);
    }
}

proof fn lemma_ack_range_list_error(s: Seq<u8>, n: nat)
    ensures
        frame::parse_ack_range_list(s, n).0 matches Err(e) ==> e == Error::NoMoreData,
    decreases n,
{
    if n > 0 {
        lemma_ack_range_list_error(frame::parse_ack_range(s).1, (n - 1) as nat);
    }
}

/// Every frame that can be written has a multicast frame type.
pub proof fn law_wire_types_are_multicast(frame: FrameView)
    ensures
        frame.wire_type() matches Ok(frame_type) ==> frame::multicast_type(frame_type),
{
}

/// Whether `p` reads some input, and `q` the same of it with `more` behind it.
spec fn same_with_more<T>(p: codec::Parsed<T>, q: codec::Parsed<T>, more: Seq<u8>) -> bool {
    p.0 is Ok ==> q == (p.0, p.1 + more)
}

proof fn lemma_fields_with_more(more: Seq<u8>, frame_type: u64)
    ensures
        forall|x: Seq<u8>|
            codec::parse_u8(x).0 is Some ==> #[trigger] codec::parse_u8(x + more) == (
                codec::parse_u8(x).0,
                codec::parse_u8(x).1 + more,
            ),
        forall|x: Seq<u8>|
            codec::parse_u16(x).0 is Some ==> #[trigger] codec::parse_u16(x + more) == (
                codec::parse_u16(x).0,
                codec::parse_u16(x).1 + more,
            ),
        forall|x: Seq<u8>|
            codec::parse_varint(x).0 is Some ==> #[trigger] codec::parse_varint(x + more) == (
                codec::parse_varint(x).0,
                codec::parse_varint(x).1 + more,
            ),
        forall|x: Seq<u8>, n: nat|
            codec::parse_bytes(x, n).0 is Some ==> #[trigger] codec::parse_bytes(x + more, n) == (
                codec::parse_bytes(x, n).0,
                codec::parse_bytes(x, n).1 + more,
            ),
        forall|x: Seq<u8>|
            codec::parse_vvec(x).0 is Some ==> #[trigger] codec::parse_vvec(x + more) == (
                codec::parse_vvec(x).0,
                codec::parse_vvec(x).1 + more,
            ),
        forall|x: Seq<u8>|
            same_with_more(
                frame::parse_channel_id(x),
                #[trigger] frame::parse_channel_id(x + more),
                more,
            ),
        forall|x: Seq<u8>|
            same_with_more(
                frame::parse_ip(x, frame_type),
                #[trigger] frame::parse_ip(x + more, frame_type),
                more,
            ),
{
    assert forall|x: Seq<u8>| codec::parse_u8(x).0 is Some implies #[trigger] codec::parse_u8(
        x + more,
    ) == (codec::parse_u8(x).0, codec::parse_u8(x).1 + more) by {
        codec::lemma_reads_with_more(x, more);
    }
    assert forall|x: Seq<u8>| codec::parse_u16(x).0 is Some implies #[trigger] codec::parse_u16(
        x + more,
    ) == (codec::parse_u16(x).0, codec::parse_u16(x).1 + more) by {
        assert((x + more).skip(2) =~= x.skip(2) + more);
    }
    assert forall|x: Seq<u8>| codec::parse_varint(x).0 is Some implies
        #[trigger] codec::parse_varint(x + more) == (
        codec::parse_varint(x).0,
        codec::parse_varint(x).1 + more,
    ) by {
        codec::lemma_reads_with_more(x, more);
    }
    assert forall|x: Seq<u8>, n: nat| codec::parse_bytes(x, n).0 is Some implies
        #[trigger] codec::parse_bytes(x + more, n) == (
        codec::parse_bytes(x, n).0,
        codec::parse_bytes(x, n).1 + more,
    ) by {
        assert((x + more).take(n as int) =~= x.take(n as int));
        assert((x + more).skip(n as int) =~= x.skip(n as int) + more);
    }
}

proof fn lemma_ack_range_list_with_more(s: Seq<u8>, n: nat, more: Seq<u8>)
    ensures
        same_with_more(
            frame::parse_ack_range_list(s, n),
            frame::parse_ack_range_list(s + more, n),
            more,
        ),
    decreases n,
{
    lemma_fields_with_more(more, 0);
    if n > 0 {
        lemma_ack_range_list_with_more(frame::parse_ack_range(s).1, (n - 1) as nat, more);
    }
}

proof fn lemma_announce_with_more(s: Seq<u8>, frame_type: u64, more: Seq<u8>)
    ensures
        same_with_more(
            frame::parse_announce(s, frame_type),
            frame::parse_announce(s + more, frame_type),
            more,
        ),
{
    lemma_fields_with_more(more, frame_type);
}

proof fn lemma_key_with_more(s: Seq<u8>, more: Seq<u8>)
    ensures
        same_with_more(
            frame::parse_key(s),
            frame::parse_key(s + more),
            more,
        ),
{
    lemma_fields_with_more(more, 0);
}

proof fn lemma_join_with_more(s: Seq<u8>, more: Seq<u8>)
    ensures
        same_with_more(
            frame::parse_join(s),
            frame::parse_join(s + more),
            more,
        ),
{
    lemma_fields_with_more(more, 0);
}

proof fn lemma_leave_with_more(s: Seq<u8>, more: Seq<u8>)
    ensures
        same_with_more(
            frame::parse_leave(s),
            frame::parse_leave(s + more),
            more,
        ),
{
    lemma_fields_with_more(more, 0);
}

proof fn lemma_ack_with_more(s: Seq<u8>, frame_type: u64, more: Seq<u8>)
    ensures
        same_with_more(
            frame::parse_ack(s, frame_type),
            frame::parse_ack(s + more, frame_type),
            more,
        ),
{
    lemma_fields_with_more(more, frame_type);
    assert forall|x: Seq<u8>, n: nat|
        same_with_more(
            frame::parse_ack_ranges(x, n),
            #[trigger] frame::parse_ack_ranges(x + more, n),
            more,
        ) by {
        lemma_ack_range_list_with_more(x, n, more);
    }
    assert forall|x: Seq<u8>|
        same_with_more(
            frame::parse_ecn_of(x, frame_type),
            #[trigger] frame::parse_ecn_of(x + more, frame_type),
            more,
        ) by {}
}

proof fn lemma_limits_frame_with_more(s: Seq<u8>, more: Seq<u8>)
    ensures
        same_with_more(
            frame::parse_limits_frame(s),
            frame::parse_limits_frame(s + more),
            more,
        ),
{
    lemma_fields_with_more(more, 0);
}

proof fn lemma_retire_with_more(s: Seq<u8>, more: Seq<u8>)
    ensures
        same_with_more(
            frame::parse_retire(s),
            frame::parse_retire(s + more),
            more,
        ),
{
    lemma_fields_with_more(more, 0);
}

proof fn lemma_state_frame_with_more(s: Seq<u8>, frame_type: u64, more: Seq<u8>)
    ensures
        same_with_more(
            frame::parse_state_frame(s, frame_type),
            frame::parse_state_frame(s + more, frame_type),
            more,
        ),
{
    lemma_fields_with_more(more, frame_type);
}

proof fn lemma_counted_hashes_with_more(s: Seq<u8>, hash_len: usize, more: Seq<u8>)
    ensures
        same_with_more(
            frame::parse_integrity(s, frame::FRAME_TYPE_INTEGRITY_WITH_LENGTH, Some(hash_len)),
            frame::parse_integrity(
                s + more,
                frame::FRAME_TYPE_INTEGRITY_WITH_LENGTH,
                Some(hash_len),
            ),
            more,
        ),
{
    lemma_fields_with_more(more, 0);
}

/// A frame that was read is read the same with more behind it, which is left then,
/// however the frame was written. Hashes have to be counted, and their length known.
pub proof fn law_frame_ends_itself(
    s: Seq<u8>,
    frame_type: u64,
    hash_len: Option<usize>,
    more: Seq<u8>,
)
    requires
        frame::parse_payload(s, frame_type, hash_len).0 is Ok,
        frame_type != frame::FRAME_TYPE_INTEGRITY,
        frame_type == frame::FRAME_TYPE_INTEGRITY_WITH_LENGTH ==> hash_len is Some,
    ensures
        frame::parse_payload(s + more, frame_type, hash_len) == (
            frame::parse_payload(s, frame_type, hash_len).0,
            frame::parse_payload(s, frame_type, hash_len).1 + more,
        ),
{
    if frame_type == frame::FRAME_TYPE_INTEGRITY_WITH_LENGTH {
        lemma_counted_hashes_with_more(s, hash_len->Some_0, more);
    }
    lemma_announce_with_more(s, frame_type, more);
    lemma_key_with_more(s, more);
    lemma_join_with_more(s, more);
    lemma_leave_with_more(s, more);
    lemma_ack_with_more(s, frame_type, more);
    lemma_limits_frame_with_more(s, more);
    lemma_retire_with_more(s, more);
    lemma_state_frame_with_more(s, frame_type, more);
}

/// A frame that is cut off anywhere is refused, but for hashes, which end where the
/// input does.
pub proof fn law_cut_off_frame_rejected(frame: FrameView, k: int)
    requires
        readable(frame),
        !(frame is Integrity),
        0 <= k < frame.wire_bytes().len(),
    ensures
        frame::parse_whole_frame(frame.wire_bytes().take(k)) is Err,
{
    let bytes = frame.wire_bytes();
    let (head, tail) = (bytes.take(k), bytes.skip(k));
    assert(head + tail =~= bytes);
    if frame::parse_whole_frame(head) is Ok {
        let (frame_type, rest) = codec::parse_varint(head);
        codec::lemma_reads_with_more(head, tail);
        codec::lemma_varint_roundtrip(frame.wire_type()->Ok_0, frame.payload_bytes());
        law_frame_ends_itself(rest, frame_type->Some_0, None, tail);
        law_whole_frame_roundtrip(frame);
    }
}

} // verus!
