//! Laws of multicast channel packets.

use vstd::prelude::*;
use crate::codec;
use crate::error::Error;
use crate::frame;
use crate::packet;
use crate::packet::{DecryptedChannelHeader, HP_MASK_LEN, HP_SAMPLE_SIZE, PACKET_NUMBER_LEN};
use crate::types::AnnounceView;

verus! {

/// Applying a mask twice gives what was there before.
pub proof fn law_mask_involutive(channel_id: Seq<u8>, packet: Seq<u8>, mask: Seq<u8>, n: int)
    requires
        packet.len() > 0,
    ensures
        packet::masked(channel_id, packet::masked(channel_id, packet, mask, n), mask, n) == packet,
{
    let twice = packet::masked(channel_id, packet::masked(channel_id, packet, mask, n), mask, n);
    assert forall|i: int| 0 <= i < packet.len() implies twice[i] == packet[i] by {
        let a = packet[i];
        let m = if i == 0 {
            mask[0] & packet::SHORT_HEADER_HP_MASK
        } else {
            mask[1 + i - packet::number_offset(channel_id)]
        };
        assert((a ^ m) ^ m == a) by (bit_vector);
    }
    assert(twice =~= packet);
}

/// Header protection does not touch the sample that its mask is made from: the
/// receiver asks for the mask that the sender asked for.
pub proof fn law_sample_kept(announce: AnnounceView, packet: Seq<u8>, mask: Seq<u8>)
    requires
        packet.len() >= packet::sample_end(announce.channel_id),
    ensures
        packet::sample_of(
            announce.channel_id,
            packet::masked(announce.channel_id, packet, mask, PACKET_NUMBER_LEN as int),
        ) == packet::sample_of(announce.channel_id, packet),
{
    let plain = packet::sample_of(announce.channel_id, packet);
    let covered = packet::sample_of(
        announce.channel_id,
        packet::masked(announce.channel_id, packet, mask, PACKET_NUMBER_LEN as int),
    );
    assert(plain =~= covered);
}

/// The parts of a header.
pub proof fn lemma_plain_header(channel_id: Seq<u8>, packet_number: u64, key_phase: bool)
    ensures
        packet::plain_header(channel_id, packet_number, key_phase).len() == packet::number_offset(
            channel_id,
        ) + 4,
        packet::plain_header(channel_id, packet_number, key_phase).subrange(
            1,
            packet::number_offset(channel_id),
        ) == channel_id,
        packet::plain_header(channel_id, packet_number, key_phase).skip(
            packet::number_offset(channel_id),
        ) == codec::be_bytes(packet_number as nat, 4),
{
    let header = packet::plain_header(channel_id, packet_number, key_phase);
    codec::lemma_be_bytes_len(packet_number as nat, 4);
    assert(header.subrange(1, packet::number_offset(channel_id)) =~= channel_id);
    assert(header.skip(packet::number_offset(channel_id)) =~= codec::be_bytes(
        packet_number as nat,
        4,
    ));
}

/// A packet whose header was protected is one of its channel, and removing the
/// protection with the same mask gives the packet, its number and its key phase,
/// if no packet number with the same four bytes is nearer to the largest one that the
/// receiver has seen.
pub proof fn law_header_roundtrip(
    announce: AnnounceView,
    packet_number: u64,
    key_phase: bool,
    ciphertext: Seq<u8>,
    mask: Seq<u8>,
    largest: u64,
)
    requires
        frame::channel_id_valid(announce.channel_id),
        ciphertext.len() >= HP_SAMPLE_SIZE,
        mask.len() >= HP_MASK_LEN,
        packet::near(packet_number, largest, PACKET_NUMBER_LEN),
    ensures
        ({
            let header = packet::plain_header(announce.channel_id, packet_number, key_phase);
            let plain = header + ciphertext;
            packet::protect_header(announce, plain, mask) matches Ok(protected) && {
                &&& packet::for_channel(announce.channel_id, protected)
                &&& packet::opening_mask_request(announce, protected)
                    == packet::sealing_mask_request(announce, plain)
                &&& packet::open_header(announce, protected, mask, largest) == Ok::<
                    (DecryptedChannelHeader, Seq<u8>),
                    Error,
                >(
                    (
                        DecryptedChannelHeader {
                            packet_number,
                            key_phase,
                            header_end: header.len() as usize,
                        },
                        plain,
                    ),
                )
            }
        }),
{
    let channel_id = announce.channel_id;
    let start = packet::number_offset(channel_id);
    let header = packet::plain_header(channel_id, packet_number, key_phase);
    let plain = header + ciphertext;
    lemma_plain_header(channel_id, packet_number, key_phase);
    let protected = packet::masked(channel_id, plain, mask, 4);
    law_sample_kept(announce, plain, mask);
    law_mask_involutive(channel_id, plain, mask, 4);
    assert(plain[0] == header[0]);
    let m = mask[0];
    assert(((0x47u8 ^ (m & 0x1f)) & 0x80) == 0 && ((0x47u8 ^ (m & 0x1f)) & 0x40) != 0 && ((0x43u8 ^ (
    m & 0x1f)) & 0x80) == 0 && ((0x43u8 ^ (m & 0x1f)) & 0x40) != 0) by (bit_vector);
    assert(((0x47u8 ^ (m & 0x1f)) ^ (m & 0x1f)) == 0x47u8 && ((0x43u8 ^ (m & 0x1f)) ^ (m & 0x1f))
        == 0x43u8) by (bit_vector);
    assert(0x47u8 & 0x80 == 0 && 0x47u8 & 0x40 != 0 && 0x43u8 & 0x80 == 0 && 0x43u8 & 0x40 != 0
        && 0x47u8 & 0x03 == 3 && 0x43u8 & 0x03 == 3 && 0x47u8 & 0x04 != 0 && 0x43u8 & 0x04 == 0)
        by (bit_vector);
    assert(protected.subrange(1, start) =~= plain.subrange(1, start));
    assert(plain.subrange(1, start) =~= header.subrange(1, start));
    assert(plain.subrange(start, start + 4) =~= header.skip(start));
    codec::lemma_pow256();
    packet::law_packet_number_roundtrip(packet_number, largest, 4);
}

/// How many bytes the packet number of `packet` has, once the mask is removed.
pub open spec fn number_len_of(packet: Seq<u8>, mask: Seq<u8>) -> usize {
    packet::number_len(packet[0] ^ (mask[0] & packet::SHORT_HEADER_HP_MASK)) as usize
}

/// The header of a packet that was read says the same when it is read again with
/// the same mask, where its packet number is the nearest to the largest one that was
/// seen by then. It is where that is the packet number itself, or the largest one
/// that was seen before.
pub proof fn law_header_read_again(
    announce: AnnounceView,
    packet: Seq<u8>,
    mask: Seq<u8>,
    largest: u64,
    later: u64,
)
    ensures
        packet::open_header(announce, packet, mask, largest) matches Ok((header, plain)) ==> {
            &&& packet::near(header.packet_number, later, number_len_of(packet, mask)) ==>
                packet::open_header(announce, packet, mask, later) == Ok::<
                (DecryptedChannelHeader, Seq<u8>),
                Error,
            >((header, plain))
            &&& packet::near(header.packet_number, largest, number_len_of(packet, mask))
            &&& packet::near(
                header.packet_number,
                header.packet_number,
                number_len_of(packet, mask),
            )
        },
{
    if let Ok((header, plain)) = packet::open_header(announce, packet, mask, largest) {
        let first = packet[0] ^ (mask[0] & packet::SHORT_HEADER_HP_MASK);
        assert(first & 0x03 <= 3) by (bit_vector);
        let n = packet::number_len(first);
        let start = packet::number_offset(announce.channel_id);
        let number = plain.subrange(start, start + n);
        codec::lemma_be_value_bound(number);
        codec::lemma_pow256();
        packet::law_packet_number_decoded_again(
            largest,
            codec::be_value(number) as u64,
            n as usize,
            later,
        );
    }
}

} // verus!
