//! Laws of the bytes of a channel packet, and of what is asked of a cryptographic
//! library for it.

use vstd::prelude::*;
use crate::algorithms;
use crate::algorithms::{Cipher, HashAlgorithm, IntegrityHashAlgorithm};
use crate::channel_frame;
use crate::channel_frame::ChannelFrameView;
use crate::codec;
use crate::codec_laws;
use crate::error::Error;
use crate::packet;
use crate::packet::{ChannelPacketView, CryptoRequestView, DecryptedChannelHeader, ParsedChannelPacket};
use crate::types::{AnnounceView, KeyView};

verus! {

/// The cipher suites that there are, by their numbers.
pub proof fn law_cipher_suites(id: u16)
    ensures
        id == 0x1301 ==> algorithms::cipher_of(id) == Ok::<Cipher, Error>(Cipher::Aes128GcmSha256),
        id == 0x1302 ==> algorithms::cipher_of(id) == Ok::<Cipher, Error>(Cipher::Aes256GcmSha384),
        id == 0x1303 ==> algorithms::cipher_of(id) == Ok::<Cipher, Error>(
            Cipher::ChaCha20Poly1305Sha256,
        ),
        0x1301 <= id <= 0x1303 <==> algorithms::encryption_supported(id),
        !(0x1301 <= id <= 0x1303) ==> algorithms::cipher_of(id) == Err::<Cipher, Error>(
            Error::NotAvailable,
        ),
{
}

/// The packet hashes that there are, by their numbers: the hash function, and how
/// many bytes of its output are kept.
pub proof fn law_packet_hashes(id: u16)
    ensures
        1 <= id <= 8 <==> algorithms::integrity_hash_of(id) is Ok,
        !(1 <= id <= 8) ==> algorithms::integrity_hash_of(id) == Err::<
            IntegrityHashAlgorithm,
            Error,
        >(Error::NotAvailable),
        1 <= id <= 6 ==> algorithms::integrity_hash_of(id)->Ok_0.function() is Sha256,
        id == 1 ==> algorithms::integrity_hash_of(id)->Ok_0.len() == 32,
        id == 2 ==> algorithms::integrity_hash_of(id)->Ok_0.len() == 16,
        id == 3 ==> algorithms::integrity_hash_of(id)->Ok_0.len() == 15,
        id == 4 ==> algorithms::integrity_hash_of(id)->Ok_0.len() == 12,
        id == 5 ==> algorithms::integrity_hash_of(id)->Ok_0.len() == 8,
        id == 6 ==> algorithms::integrity_hash_of(id)->Ok_0.len() == 4,
        id == 7 ==> algorithms::integrity_hash_of(id)->Ok_0.function() is Sha384
            && algorithms::integrity_hash_of(id)->Ok_0.len() == 48,
        id == 8 ==> algorithms::integrity_hash_of(id)->Ok_0.function() is Sha512
            && algorithms::integrity_hash_of(id)->Ok_0.len() == 64,
{
}

/// Of every packet hash, what is kept is how the digest begins, and no more of it
/// than the hash is long. A shorter digest is kept whole.
pub proof fn law_digest_cut(algorithm: IntegrityHashAlgorithm, digest: Seq<u8>, i: int)
    ensures
        ({
            let hash = algorithms::truncated(digest, algorithm.len() as nat);
            &&& hash.len() == if digest.len() < algorithm.len() {
                digest.len()
            } else {
                algorithm.len() as nat
            }
            &&& 0 <= i < hash.len() ==> hash[i] == digest[i]
        }),
        algorithm matches IntegrityHashAlgorithm::Sha256 { output_len } ==> algorithm.len()
            == output_len && algorithm.function() == HashAlgorithm::Sha256,
        algorithm is Sha384 ==> algorithm.len() == 48 && algorithm.function()
            == HashAlgorithm::Sha384,
        algorithm is Sha512 ==> algorithm.len() == 64 && algorithm.function()
            == HashAlgorithm::Sha512,
{
}

/// A packet number is written as its lowest bytes, of which the first counts most.
pub proof fn law_number_bytes(packet_number: u64, n: nat)
    requires
        n <= 4,
    ensures
        codec::be_bytes(packet_number as nat, n).len() == n,
        codec::be_value(codec::be_bytes(packet_number as nat, n)) == packet_number as nat
            % codec::pow256(n),
{
    codec::lemma_pow256();
    codec::lemma_be_bytes_len(packet_number as nat, n);
    packet::lemma_low_bytes(packet_number as nat, n);
    codec::lemma_be_roundtrip(packet_number as nat % codec::pow256(n), n);
}

/// A packet number is read as the expected one with its lowest bytes replaced, moved by
/// one step of what these bytes can count if it is then nearer: up where it lies half a
/// step or more below the expected one, and down where it lies more than half a step
/// above. It is not moved beyond the largest or the smallest number.
pub proof fn law_number_moved(expected: u64, truncated: u64, packet_number_len: usize, step: u64)
    requires
        packet_number_len <= 7,
        step == codec::pow256(packet_number_len as nat),
    ensures
        ({
            let n = packet::full_packet_number(expected, truncated, packet_number_len);
            let replaced = (expected & !((step - 1) as u64)) | truncated;
            &&& expected - replaced >= step / 2 ==> n == if replaced + step <= u64::MAX {
                replaced + step
            } else {
                replaced as int
            }
            &&& replaced - expected > step / 2 ==> n == if replaced >= step {
                replaced - step
            } else {
                replaced as int
            }
            &&& expected - replaced < step / 2 && replaced - expected <= step / 2 ==> n == replaced
        }),
{
    codec::lemma_pow256();
    assert(1u64 << 0u64 == 1 && 1u64 << 8u64 == 0x100 && 1u64 << 16u64 == 0x1_0000 && 1u64 << 24u64
        == 0x100_0000 && 1u64 << 32u64 == 0x1_0000_0000 && 1u64 << 40u64 == 0x100_0000_0000 && 1u64
        << 48u64 == 0x1_0000_0000_0000 && 1u64 << 56u64 == 0x100_0000_0000_0000) by (bit_vector);
    assert(packet::window(packet_number_len) == step);
}

/// A header begins with one byte that says how long the packet number is and which
/// key phase it has. The channel ID follows, and the lowest four bytes of the packet
/// number, the one that counts most first.
pub proof fn law_header_bytes(channel_id: Seq<u8>, packet_number: u64, key_phase: bool, j: int)
    ensures
        ({
            let header = packet::plain_header(channel_id, packet_number, key_phase);
            let at = 1 + channel_id.len() as int;
            &&& header.len() == at + 4
            &&& header[0] == 0x40 + 3 + if key_phase {
                4int
            } else {
                0int
            }
            &&& 0 <= j < channel_id.len() ==> header[1 + j] == channel_id[j]
            &&& packet_number as nat % 0x1_0000_0000 == 0x100_0000 * header[at] + 0x1_0000
                * header[at + 1] + 0x100 * header[at + 2] + header[at + 3]
        }),
{
    codec::lemma_be_bytes_len(packet_number as nat, 4);
    codec::lemma_pow256();
    packet::lemma_low_bytes(packet_number as nat, 4);
    codec_laws::law_u32_bytes(packet_number as nat % 0x1_0000_0000);
    assert(codec::be_bytes(packet_number as nat, 4) == codec::be_bytes(
        packet_number as nat % 0x1_0000_0000,
        4,
    ));
}

/// A packet is one of the channel if it holds the header, a packet number of four
/// bytes and a sample of sixteen, begins with the bits 01, and goes on with the
/// channel ID.
pub proof fn law_packets_of_channel(channel_id: Seq<u8>, packet: Seq<u8>)
    ensures
        packet::for_channel(channel_id, packet) <==> {
            &&& packet.len() >= 1 + channel_id.len() + 4 + 16
            &&& 0x40 <= packet[0] < 0x80
            &&& forall|j: int| 0 <= j < channel_id.len() ==> packet[1 + j] == #[trigger] channel_id[j]
        },
{
    lemma_short_header(packet[0]);
    if packet.len() >= 1 + channel_id.len() {
        let id = packet.subrange(1, 1 + channel_id.len() as int);
        if forall|j: int| 0 <= j < channel_id.len() ==> packet[1 + j] == #[trigger] channel_id[j] {
            assert(id =~= channel_id);
        }
        if id == channel_id {
            assert forall|j: int| 0 <= j < channel_id.len() implies packet[1 + j]
                == #[trigger] channel_id[j] by {
                assert(id[j] == packet[1 + j]);
            }
        }
    }
}

proof fn lemma_short_header(first: u8)
    ensures
        packet::short_header(first) <==> 0x40 <= first < 0x80,
        packet::number_len(first) == first % 4 + 1,
        (first & 0x04 != 0) <==> first / 4 % 2 == 1,
{
    assert((first & 0x80 == 0 && first & 0x40 != 0) <==> 0x40 <= first && first < 0x80)
        by (bit_vector);
    assert(first & 0x03 == first % 4) by (bit_vector);
    assert((first & 0x04 != 0) <==> first / 4 % 2 == 1) by (bit_vector);
}

/// A mask covers the lower five bits of the first byte, and, with one byte of the
/// mask each, the bytes of the packet number. No other byte changes.
pub proof fn law_masked_bytes(channel_id: Seq<u8>, packet: Seq<u8>, mask: Seq<u8>, n: int, i: int)
    requires
        0 <= i < packet.len(),
    ensures
        ({
            let at = 1 + channel_id.len();
            let covered = packet::masked(channel_id, packet, mask, n);
            &&& covered.len() == packet.len()
            &&& i == 0 ==> covered[i] == packet[i] ^ (mask[0] & 0x1f)
            &&& at <= i < at + n ==> covered[i] == packet[i] ^ mask[1 + (i - at)]
            &&& 1 <= i < at || at + n <= i && i > 0 ==> covered[i] == packet[i]
        }),
{
}

/// A mask is asked for with the header protection cipher and secret of the channel.
pub proof fn law_mask_asked_for(announce: AnnounceView, sample: Seq<u8>)
    ensures
        match algorithms::cipher_of(announce.header_protection_algorithm) {
            Err(e) => packet::mask_request(announce, sample) == Err::<CryptoRequestView, Error>(e),
            Ok(cipher) => {
                &&& packet::mask_request(announce, sample) matches Ok(
                    CryptoRequestView::HeaderMask { cipher: asked_of, secret, sample: given },
                )
                &&& asked_of == cipher
                &&& secret == announce.header_secret
                &&& given == sample
            },
        },
{
}

/// The mask of a packet that arrived is asked for with the header protection cipher
/// and secret of the channel, and with the sixteen bytes that begin four bytes behind
/// the channel ID.
pub proof fn law_opening_mask_asked_for(announce: AnnounceView, packet: Seq<u8>)
    ensures
        ({
            let asked = packet::opening_mask_request(announce, packet);
            let len = announce.channel_id.len() as int;
            let id_valid = 1 <= len <= 20;
            let right = packet::for_channel(announce.channel_id, packet);
            let cipher = algorithms::cipher_of(announce.header_protection_algorithm);
            &&& !id_valid ==> asked == Err::<CryptoRequestView, Error>(Error::FrameEncoding)
            &&& id_valid && !right ==> asked == Err::<CryptoRequestView, Error>(
                Error::InvalidPacket,
            )
            &&& id_valid && right && cipher is Err ==> asked == Err::<CryptoRequestView, Error>(
                Error::NotAvailable,
            )
            &&& id_valid && right && cipher is Ok ==> {
                &&& asked matches Ok(CryptoRequestView::HeaderMask { cipher: asked_of, secret, sample })
                &&& asked_of == cipher->Ok_0
                &&& secret == announce.header_secret
                &&& sample == packet.subrange(5 + len, 21 + len)
            }
        }),
{
}

/// The mask of a packet that is sent is asked for in the same way. A packet that is
/// too short for a sample has none.
pub proof fn law_sealing_mask_asked_for(announce: AnnounceView, packet: Seq<u8>)
    ensures
        ({
            let asked = packet::sealing_mask_request(announce, packet);
            let len = announce.channel_id.len() as int;
            let id_valid = 1 <= len <= 20;
            let cipher = algorithms::cipher_of(announce.header_protection_algorithm);
            &&& !id_valid ==> asked == Err::<CryptoRequestView, Error>(Error::FrameEncoding)
            &&& id_valid && packet.len() < 21 + len ==> asked == Err::<CryptoRequestView, Error>(
                Error::NoMoreData,
            )
            &&& id_valid && packet.len() >= 21 + len && cipher is Err ==> asked == Err::<
                CryptoRequestView,
                Error,
            >(Error::NotAvailable)
            &&& id_valid && packet.len() >= 21 + len && cipher is Ok ==> {
                &&& asked matches Ok(CryptoRequestView::HeaderMask { cipher: asked_of, secret, sample })
                &&& asked_of == cipher->Ok_0
                &&& secret == announce.header_secret
                &&& sample == packet.subrange(5 + len, 21 + len)
            }
        }),
{
}

/// A header is protected with the first five bytes of the mask, of which four cover
/// the packet number.
pub proof fn law_protected_bytes(announce: AnnounceView, packet: Seq<u8>, mask: Seq<u8>, i: int)
    ensures
        ({
            let covered = packet::protect_header(announce, packet, mask);
            let len = announce.channel_id.len() as int;
            let id_valid = 1 <= len <= 20;
            &&& !id_valid ==> covered == Err::<Seq<u8>, Error>(Error::FrameEncoding)
            &&& id_valid && packet.len() < 21 + len ==> covered == Err::<Seq<u8>, Error>(
                Error::NoMoreData,
            )
            &&& id_valid && packet.len() >= 21 + len && mask.len() < 5 ==> covered == Err::<
                Seq<u8>,
                Error,
            >(Error::Internal)
            &&& id_valid && packet.len() >= 21 + len && mask.len() >= 5 ==> {
                &&& covered matches Ok(bytes)
                &&& bytes.len() == packet.len()
                &&& bytes[0] == packet[0] ^ (mask[0] & 0x1f)
                &&& 1 <= i <= len ==> bytes[i] == packet[i]
                &&& len < i <= len + 4 ==> bytes[i] == packet[i] ^ mask[i - len]
                &&& len + 4 < i < packet.len() ==> bytes[i] == packet[i]
            }
        }),
{
}

/// What is read of a header once the mask is removed: the lowest two bits of the
/// first byte tell how long the packet number is, and the third one is the key phase.
/// The packet number is read from its bytes, near the largest one that was seen.
pub proof fn law_header_opened(
    announce: AnnounceView,
    packet: Seq<u8>,
    mask: Seq<u8>,
    largest: u64,
    i: int,
)
    ensures
        ({
            let read = packet::open_header(announce, packet, mask, largest);
            let len = announce.channel_id.len() as int;
            let id_valid = 1 <= len <= 20;
            let right = packet::for_channel(announce.channel_id, packet);
            let first = packet[0] ^ (mask[0] & 0x1f);
            let n = first % 4 + 1;
            &&& !id_valid ==> read == Err::<(DecryptedChannelHeader, Seq<u8>), Error>(
                Error::FrameEncoding,
            )
            &&& id_valid && !right ==> read == Err::<(DecryptedChannelHeader, Seq<u8>), Error>(
                Error::InvalidPacket,
            )
            &&& id_valid && right && mask.len() < 5 ==> read == Err::<
                (DecryptedChannelHeader, Seq<u8>),
                Error,
            >(Error::Internal)
            &&& id_valid && right && mask.len() >= 5 ==> {
                &&& read matches Ok((header, plain))
                &&& header.header_end == 1 + len + n
                &&& header.key_phase <==> first / 4 % 2 == 1
                &&& header.packet_number == packet::full_packet_number(
                    largest,
                    codec::be_value(plain.subrange(1 + len, 1 + len + n)) as u64,
                    n as usize,
                )
                &&& plain.len() == packet.len()
                &&& plain[0] == first
                &&& 1 <= i <= len ==> plain[i] == packet[i]
                &&& len < i <= len + n ==> plain[i] == packet[i] ^ mask[i - len]
                &&& len + n < i < packet.len() ==> plain[i] == packet[i]
            }
        }),
{
    let first = packet[0] ^ (mask[0] & 0x1f);
    lemma_short_header(first);
    let (p, m) = (packet[0], mask[0]);
    lemma_short_header(p);
    assert(0x40 <= p && p < 0x80 ==> 0x40 <= p ^ (m & 0x1f) && p ^ (m & 0x1f) < 0x80) by (bit_vector);
}

/// What is known of a packet before its payload is opened is what its header says.
pub proof fn law_packet_metadata(
    announce: AnnounceView,
    packet: Seq<u8>,
    mask: Seq<u8>,
    largest: u64,
)
    ensures
        match packet::open_header(announce, packet, mask, largest) {
            Err(e) => packet::metadata(announce, packet, mask, largest) == Err::<
                ParsedChannelPacket,
                Error,
            >(e),
            Ok((header, _)) => {
                &&& packet::metadata(announce, packet, mask, largest) matches Ok(parsed)
                &&& parsed.packet_number == header.packet_number
                &&& parsed.key_phase == header.key_phase
            },
        },
{
}

/// A payload is opened with the AEAD cipher of the channel and the secret of the key,
/// for the packet number that was expected, and with the header as it was before it
/// was protected. Header and ciphertext are the packet.
pub proof fn law_opening_asked_for(
    announce: AnnounceView,
    key: KeyView,
    packet_number: u64,
    packet: Seq<u8>,
    mask: Seq<u8>,
    largest: u64,
)
    ensures
        ({
            let asked = packet::open_request(announce, key, packet_number, packet, mask, largest);
            let own = key.channel_id == announce.channel_id;
            let cipher = algorithms::cipher_of(announce.aead_algorithm);
            &&& !own ==> asked == Err::<(bool, CryptoRequestView), Error>(Error::FrameEncoding)
            &&& own ==> match packet::open_header(announce, packet, mask, largest) {
                Err(e) => asked == Err::<(bool, CryptoRequestView), Error>(e),
                Ok((read, plain)) => {
                    &&& read.packet_number != packet_number ==> asked == Err::<
                        (bool, CryptoRequestView),
                        Error,
                    >(Error::InvalidPacket)
                    &&& read.packet_number == packet_number && cipher is Err ==> asked == Err::<
                        (bool, CryptoRequestView),
                        Error,
                    >(Error::NotAvailable)
                    &&& read.packet_number == packet_number && cipher is Ok ==> {
                        &&& asked matches Ok((phase, request))
                        &&& phase == read.key_phase
                        &&& request matches CryptoRequestView::Open {
                            cipher: asked_of,
                            secret,
                            min_packet_number,
                            packet_number: number,
                            header,
                            ciphertext,
                        }
                        &&& asked_of == cipher->Ok_0
                        &&& secret == key.secret
                        &&& min_packet_number == key.from_packet_number
                        &&& number == packet_number
                        &&& header.len() == read.header_end
                        &&& header + ciphertext == plain
                    }
                },
            }
        }),
{
    if let Ok((read, plain)) = packet::open_header(announce, packet, mask, largest) {
        law_header_opened(announce, packet, mask, largest, 0);
        law_packets_of_channel(announce.channel_id, packet);
        let end = read.header_end as int;
        assert(plain.take(end) + plain.skip(end) =~= plain);
    }
}

/// What a packet holds once its payload is opened: the frames that the payload is
/// read as, under the packet's number, the key's and the key phase.
pub proof fn law_packet_opened(
    announce: AnnounceView,
    key: KeyView,
    packet_number: u64,
    key_phase: bool,
    plaintext: Seq<u8>,
)
    ensures
        ({
            let packet = packet::opened(announce, key, packet_number, key_phase, plaintext);
            let frames = channel_frame::parse_channel_frames(announce.channel_id, plaintext);
            &&& key.channel_id != announce.channel_id ==> packet == Err::<ChannelPacketView, Error>(
                Error::FrameEncoding,
            )
            &&& key.channel_id == announce.channel_id ==> match frames {
                Err(e) => packet == Err::<ChannelPacketView, Error>(e),
                Ok(frames) => {
                    &&& packet matches Ok(packet)
                    &&& packet.channel_id == announce.channel_id
                    &&& packet.packet_number == packet_number
                    &&& packet.key_sequence == key.key_sequence
                    &&& packet.key_phase == key_phase
                    &&& packet.frames == frames
                },
            }
        }),
{
}

/// A packet is built of its header and of its frames one behind the other.
pub proof fn law_packet_built(
    announce: AnnounceView,
    packet_number: u64,
    key_phase: bool,
    frames: Seq<ChannelFrameView>,
)
    ensures
        ({
            let built = packet::unsealed(announce, packet_number, key_phase, frames);
            let id_valid = 1 <= announce.channel_id.len() <= 20;
            &&& !id_valid ==> built == Err::<(Seq<u8>, Seq<u8>), Error>(Error::FrameEncoding)
            &&& id_valid ==> match channel_frame::frames_encoded(frames) {
                Err(e) => built == Err::<(Seq<u8>, Seq<u8>), Error>(e),
                Ok(()) => {
                    &&& built matches Ok((header, payload))
                    &&& header == packet::plain_header(
                        announce.channel_id,
                        packet_number,
                        key_phase,
                    )
                    &&& payload == channel_frame::frames_written(frames)
                },
            }
        }),
{
}

/// A payload is sealed with the AEAD cipher of the channel and the secret of the key,
/// under the packet's number.
pub proof fn law_sealing_asked_for(
    announce: AnnounceView,
    key: KeyView,
    packet_number: u64,
    header: Seq<u8>,
    payload: Seq<u8>,
)
    ensures
        match algorithms::cipher_of(announce.aead_algorithm) {
            Err(e) => packet::seal_request(announce, key, packet_number, header, payload) == Err::<
                CryptoRequestView,
                Error,
            >(e),
            Ok(cipher) => {
                &&& packet::seal_request(announce, key, packet_number, header, payload) matches Ok(
                    CryptoRequestView::Seal {
                        cipher: asked_of,
                        secret,
                        min_packet_number,
                        packet_number: number,
                        header: sent,
                        plaintext,
                    },
                )
                &&& asked_of == cipher
                &&& secret == key.secret
                &&& min_packet_number == packet_number
                &&& number == packet_number
                &&& sent == header
                &&& plaintext == payload
            },
        },
{
}

} // verus!
