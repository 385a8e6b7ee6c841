//! Multicast channel packets: short headers, packet numbers, header protection,
//! and what is asked of a cryptographic library to protect and open them.

use vstd::prelude::*;
use crate::algorithms;
use crate::algorithms::{cipher_from_id, Cipher, HashAlgorithm};
use crate::channel_frame;
use crate::channel_frame::{decode_channel_frames, encode_channel_frames, ChannelFrame, ChannelFrameView};
use crate::codec;
use crate::codec::Encoder;
use crate::error::{Error, Res};
use crate::frame;
use crate::frame::validate_channel_id;
use crate::types::{copy_bytes, Announce, AnnounceView, Key, KeyView};

verus! {

/// The bit that every short header has.
pub const SHORT_HEADER_FIXED_BIT: u8 = 0x40;

/// The bit that no short header has.
pub const SHORT_HEADER_FORM_BIT: u8 = 0x80;

/// The bit that tells two keys in a row apart.
pub const SHORT_HEADER_KEY_PHASE_BIT: u8 = 0x04;

/// The bits of the first byte that header protection covers.
pub const SHORT_HEADER_HP_MASK: u8 = 0x1f;

/// The length of a packet number that is written.
pub const PACKET_NUMBER_LEN: usize = 4;

/// The length of the sample that a mask is made from.
pub const HP_SAMPLE_SIZE: usize = 16;

/// Where the sample starts, behind the start of the packet number.
pub const HP_SAMPLE_OFFSET: usize = 4;

/// How many bytes of a mask are used.
pub const HP_MASK_LEN: usize = 5;

/// What a channel asks of a cryptographic library. The answer is a byte string,
/// or the error of the library.
#[derive(Debug, PartialEq, Eq)]
pub enum CryptoRequest {
    /// The header protection mask for a sample, at least five bytes long.
    HeaderMask {
        /// The cipher suite.
        cipher: Cipher,
        /// The header protection secret.
        secret: Vec<u8>,
        /// The sample of the ciphertext.
        sample: Vec<u8>,
    },
    /// The output of a hash function.
    Hash {
        /// The hash function.
        algorithm: HashAlgorithm,
        /// The bytes to hash.
        data: Vec<u8>,
    },
    /// The ciphertext of a payload, with its authentication tag.
    Seal {
        /// The cipher suite.
        cipher: Cipher,
        /// The packet protection secret.
        secret: Vec<u8>,
        /// The smallest packet number that the secret may be used for.
        min_packet_number: u64,
        /// The packet number, which the nonce is made from.
        packet_number: u64,
        /// The header, which is authenticated too.
        header: Vec<u8>,
        /// The payload.
        plaintext: Vec<u8>,
    },
    /// The payload of a ciphertext.
    Open {
        /// The cipher suite.
        cipher: Cipher,
        /// The packet protection secret.
        secret: Vec<u8>,
        /// The smallest packet number that the secret may be used for.
        min_packet_number: u64,
        /// The packet number, which the nonce is made from.
        packet_number: u64,
        /// The header, which is authenticated too.
        header: Vec<u8>,
        /// The ciphertext, with its authentication tag.
        ciphertext: Vec<u8>,
    },
}

/// What a [`CryptoRequest`] holds.
pub enum CryptoRequestView {
    HeaderMask { cipher: Cipher, secret: Seq<u8>, sample: Seq<u8> },
    Hash { algorithm: HashAlgorithm, data: Seq<u8> },
    Seal {
        cipher: Cipher,
        secret: Seq<u8>,
        min_packet_number: u64,
        packet_number: u64,
        header: Seq<u8>,
        plaintext: Seq<u8>,
    },
    Open {
        cipher: Cipher,
        secret: Seq<u8>,
        min_packet_number: u64,
        packet_number: u64,
        header: Seq<u8>,
        ciphertext: Seq<u8>,
    },
}

impl View for CryptoRequest {
    type V = CryptoRequestView;

    open spec fn view(&self) -> CryptoRequestView {
        match self {
            CryptoRequest::HeaderMask { cipher, secret, sample } => CryptoRequestView::HeaderMask {
                cipher: *cipher,
                secret: secret@,
                sample: sample@,
            },
            CryptoRequest::Hash { algorithm, data } => CryptoRequestView::Hash {
                algorithm: *algorithm,
                data: data@,
            },
            CryptoRequest::Seal {
                cipher,
                secret,
                min_packet_number,
                packet_number,
                header,
                plaintext,
            } => CryptoRequestView::Seal {
                cipher: *cipher,
                secret: secret@,
                min_packet_number: *min_packet_number,
                packet_number: *packet_number,
                header: header@,
                plaintext: plaintext@,
            },
            CryptoRequest::Open {
                cipher,
                secret,
                min_packet_number,
                packet_number,
                header,
                ciphertext,
            } => CryptoRequestView::Open {
                cipher: *cipher,
                secret: secret@,
                min_packet_number: *min_packet_number,
                packet_number: *packet_number,
                header: header@,
                ciphertext: ciphertext@,
            },
        }
    }
}

/// A decoded multicast 1-RTT packet.
#[derive(Debug, PartialEq, Eq)]
pub struct ChannelPacket {
    /// Channel ID from the packet DCID field.
    pub channel_id: Vec<u8>,
    /// Decoded channel packet number.
    pub packet_number: u64,
    /// Key sequence used to decrypt the payload.
    pub key_sequence: u64,
    /// Short-header key phase bit.
    pub key_phase: bool,
    /// Decoded and validated channel frames.
    pub frames: Vec<ChannelFrame>,
}

/// What a [`ChannelPacket`] holds.
pub struct ChannelPacketView {
    pub channel_id: Seq<u8>,
    pub packet_number: u64,
    pub key_sequence: u64,
    pub key_phase: bool,
    pub frames: Seq<ChannelFrameView>,
}

impl View for ChannelPacket {
    type V = ChannelPacketView;

    open spec fn view(&self) -> ChannelPacketView {
        ChannelPacketView {
            channel_id: self.channel_id@,
            packet_number: self.packet_number,
            key_sequence: self.key_sequence,
            key_phase: self.key_phase,
            frames: channel_frame::frame_views(self.frames@),
        }
    }
}

impl Clone for ChannelPacket {
    fn clone(&self) -> (copy: Self)
        ensures
            copy@ == self@,
    {
        let mut frames: Vec<ChannelFrame> = Vec::new();
        let mut i: usize = 0;
        while i < self.frames.len()
            invariant
                i <= self.frames@.len(),
                frames@.len() == i,
                forall|j: int| 0 <= j < i ==> (#[trigger] frames@[j])@ == self.frames@[j]@,
            decreases self.frames@.len() - i,
        {
            frames.push(self.frames[i].clone());
            i = i + 1;
        }
        assert(channel_frame::frame_views(frames@) =~= channel_frame::frame_views(self.frames@));
        ChannelPacket {
            channel_id: copy_bytes(&self.channel_id),
            packet_number: self.packet_number,
            key_sequence: self.key_sequence,
            key_phase: self.key_phase,
            frames,
        }
    }
}

/// What the header of a packet says, once its protection is removed.
#[derive(Clone, Copy, Debug, PartialEq, Eq, Structural)]
pub struct DecryptedChannelHeader {
    /// The packet number.
    pub packet_number: u64,
    /// The key phase bit.
    pub key_phase: bool,
    /// The length of the header.
    pub header_end: usize,
}

/// What is known of a packet before its payload is opened.
#[derive(Clone, Copy, Debug, PartialEq, Eq, Structural)]
pub struct ParsedChannelPacket {
    /// The packet number.
    pub packet_number: u64,
    /// The key phase bit.
    pub key_phase: bool,
}

/// A packet before its payload is encrypted.
#[derive(Debug, PartialEq, Eq)]
pub struct UnsealedPacket {
    /// The header, without protection.
    pub header: Vec<u8>,
    /// The payload.
    pub payload: Vec<u8>,
}

// ---------------------------------------------------------------------------
// Packet numbers
// ---------------------------------------------------------------------------

/// The number of values that `packet_number_len` bytes can take.
pub open spec fn window(packet_number_len: usize) -> u64 {
    1u64 << ((packet_number_len * 8) as u64)
}

/// `expected`, with its low bytes replaced.
pub open spec fn candidate(expected: u64, truncated: u64, packet_number_len: usize) -> u64 {
    (expected & !((window(packet_number_len) - 1) as u64)) | truncated
}

/// The packet number whose low bytes are `truncated`, taken to be near
/// `expected`. The number beyond the largest or below the smallest one is not
/// taken.
pub open spec fn full_packet_number(expected: u64, truncated: u64, packet_number_len: usize) -> u64 {
    let w = window(packet_number_len);
    let c = candidate(expected, truncated, packet_number_len);
    if c + w / 2 <= expected {
        if c + w <= u64::MAX {
            (c + w) as u64
        } else {
            c
        }
    } else if c > expected + w / 2 {
        if c >= w {
            (c - w) as u64
        } else {
            c
        }
    } else {
        c
    }
}

/// Writes the low bytes of a packet number.
pub fn encode_packet_number(packet_number: u64, packet_number_len: usize, out: &mut Vec<u8>) -> (result: Res<()>)
    ensures
        packet_number_len <= PACKET_NUMBER_LEN ==> result == Ok::<(), Error>(()) && final(out)@
            == old(out)@ + codec::be_bytes(packet_number as nat, packet_number_len as nat),
        packet_number_len > PACKET_NUMBER_LEN ==> result == Err::<(), Error>(Error::FrameEncoding)
            && final(out)@ == old(out)@,
{
    if packet_number_len > PACKET_NUMBER_LEN {
        return Err(Error::FrameEncoding);
    }
    let mut enc = Encoder::default();
    if packet_number_len > 0 {
        enc.encode_uint(packet_number_len, packet_number);
    }
    out.extend_from_slice(enc.as_slice());
    assert(out@ =~= old(out)@ + codec::be_bytes(packet_number as nat, packet_number_len as nat));
    Ok(())
}

/// The packet number whose low bytes are `truncated`, taken to be near
/// `expected`.
pub fn decode_packet_number(expected: u64, truncated: u64, packet_number_len: usize) -> (packet_number: u64)
    requires
        packet_number_len <= 7,
    ensures
        packet_number == full_packet_number(expected, truncated, packet_number_len),
{
    let shift: u64 = packet_number_len as u64 * 8;
    assert(1u64 << shift >= 1) by (bit_vector)
        requires
            shift <= 56,
    ;
    let window: u64 = 1u64 << shift;
    let candidate: u64 = (expected & !(window - 1)) | truncated;
    let half: u64 = window / 2;
    if candidate <= expected && half <= expected - candidate {
        match candidate.checked_add(window) {
            Some(next) => next,
            None => candidate,
        }
    } else if candidate > expected && candidate - expected > half {
        match candidate.checked_sub(window) {
            Some(previous) => previous,
            None => candidate,
        }
    } else {
        candidate
    }
}

proof fn lemma_candidate(expected: u64, truncated: u64, packet_number_len: usize)
    requires
        1 <= packet_number_len <= 7,
        truncated < codec::pow256(packet_number_len as nat),
    ensures
        window(packet_number_len) == codec::pow256(packet_number_len as nat),
        candidate(expected, truncated, packet_number_len) == expected - expected % window(
            packet_number_len,
        ) + truncated,
{
    codec::lemma_pow256();
    assert(1u64 << 8u64 == 0x100 && 1u64 << 16u64 == 0x1_0000 && 1u64 << 24u64 == 0x100_0000
        && 1u64 << 32u64 == 0x1_0000_0000 && 1u64 << 40u64 == 0x100_0000_0000 && 1u64 << 48u64
        == 0x1_0000_0000_0000 && 1u64 << 56u64 == 0x100_0000_0000_0000) by (bit_vector);
    if packet_number_len == 1 {
        assert(window(1) == 0x100);
        assert((expected & !0xffu64) | truncated == expected - expected % 0x100 + truncated)
            by (bit_vector)
            requires
                truncated < 0x100,
        ;
    } else if packet_number_len == 2 {
        assert(window(2) == 0x1_0000);
        assert((expected & !0xffffu64) | truncated == expected - expected % 0x1_0000 + truncated)
            by (bit_vector)
            requires
                truncated < 0x1_0000,
        ;
    } else if packet_number_len == 3 {
        assert(window(3) == 0x100_0000);
        assert((expected & !0xff_ffffu64) | truncated == expected - expected % 0x100_0000
            + truncated) by (bit_vector)
            requires
                truncated < 0x100_0000,
        ;
    } else if packet_number_len == 4 {
        assert(window(4) == 0x1_0000_0000);
        assert((expected & !0xffff_ffffu64) | truncated == expected - expected % 0x1_0000_0000
            + truncated) by (bit_vector)
            requires
                truncated < 0x1_0000_0000,
        ;
    } else if packet_number_len == 5 {
        assert(window(5) == 0x100_0000_0000);
        assert((expected & !0xff_ffff_ffffu64) | truncated == expected - expected % 0x100_0000_0000
            + truncated) by (bit_vector)
            requires
                truncated < 0x100_0000_0000,
        ;
    } else if packet_number_len == 6 {
        assert(window(6) == 0x1_0000_0000_0000);
        assert((expected & !0xffff_ffff_ffffu64) | truncated == expected - expected
            % 0x1_0000_0000_0000 + truncated) by (bit_vector)
            requires
                truncated < 0x1_0000_0000_0000,
        ;
    } else {
        assert(window(7) == 0x100_0000_0000_0000);
        assert((expected & !0xff_ffff_ffff_ffffu64) | truncated == expected - expected
            % 0x100_0000_0000_0000 + truncated) by (bit_vector)
            requires
                truncated < 0x100_0000_0000_0000,
        ;
    }
}

/// How far `n` is from `expected`.
pub open spec fn distance(n: u64, expected: u64) -> int {
    if n < expected {
        expected - n
    } else {
        n - expected
    }
}

/// Whether no number with the same low `packet_number_len` bytes is nearer to
/// `expected` than `n`, nor as near and larger.
pub open spec fn near(n: u64, expected: u64, packet_number_len: usize) -> bool {
    let w = codec::pow256(packet_number_len as nat);
    &&& expected - n < w / 2 || n + w > u64::MAX
    &&& n - expected <= w / 2 || n < w
}

/// Of all the numbers whose low bytes are `truncated`, the packet number that is
/// decoded is the nearest to `expected`, and of two that are as near the larger.
pub proof fn law_nearest_packet_number(expected: u64, truncated: u64, packet_number_len: usize)
    requires
        1 <= packet_number_len <= 7,
        truncated < codec::pow256(packet_number_len as nat),
    ensures
        ({
            let w = codec::pow256(packet_number_len as nat);
            let n = full_packet_number(expected, truncated, packet_number_len);
            &&& n as nat % w == truncated
            &&& forall|other: u64|
                other != n && #[trigger] (other as nat % w) == truncated ==> distance(n, expected)
                    < distance(other, expected) || (distance(n, expected) == distance(
                    other,
                    expected,
                ) && other < n)
        }),
{
    let w = codec::pow256(packet_number_len as nat);
    let n = full_packet_number(expected, truncated, packet_number_len);
    let c = candidate(expected, truncated, packet_number_len);
    codec::lemma_pow256();
    lemma_candidate(expected, truncated, packet_number_len);
    lemma_low_part(expected as int, truncated as int, c as int, n as int, w as int);
    assert forall|other: u64|
        other != n && #[trigger] (other as nat % w) == truncated implies distance(n, expected)
        < distance(other, expected) || (distance(n, expected) == distance(other, expected) && other
        < n) by {
        lemma_apart(other as int, expected as int, c as int, w as int);
    }
}

/// A packet number is decoded to itself from its low bytes where it is the nearest
/// to the one that the receiver expects, and nowhere else.
pub proof fn law_packet_number_roundtrip(packet_number: u64, expected: u64, packet_number_len: usize)
    requires
        1 <= packet_number_len <= PACKET_NUMBER_LEN,
    ensures
        full_packet_number(
            expected,
            codec::be_value(
                codec::be_bytes(packet_number as nat, packet_number_len as nat),
            ) as u64,
            packet_number_len,
        ) == packet_number <==> near(packet_number, expected, packet_number_len),
{
    let w = codec::pow256(packet_number_len as nat);
    codec::lemma_pow256();
    let truncated = (packet_number as nat % w) as u64;
    lemma_low_bytes(packet_number as nat, packet_number_len as nat);
    codec::lemma_be_roundtrip(truncated as nat, packet_number_len as nat);
    lemma_decoded_if_near(packet_number, expected, packet_number_len);
}

/// A packet number that was decoded is decoded from the same bytes again when
/// another one is expected, where it is the nearest to that one too, and nowhere
/// else. It is the nearest to the one that was expected first, and to itself.
pub proof fn law_packet_number_decoded_again(
    expected: u64,
    truncated: u64,
    packet_number_len: usize,
    later: u64,
)
    requires
        1 <= packet_number_len <= PACKET_NUMBER_LEN,
        truncated < codec::pow256(packet_number_len as nat),
    ensures
        ({
            let n = full_packet_number(expected, truncated, packet_number_len);
            &&& full_packet_number(later, truncated, packet_number_len) == n <==> near(
                n,
                later,
                packet_number_len,
            )
            &&& near(n, expected, packet_number_len)
            &&& near(n, n, packet_number_len)
        }),
{
    let n = full_packet_number(expected, truncated, packet_number_len);
    codec::lemma_pow256();
    law_nearest_packet_number(expected, truncated, packet_number_len);
    lemma_decoded_if_near(n, later, packet_number_len);
    lemma_decoded_if_near(n, expected, packet_number_len);
}

proof fn lemma_decoded_if_near(n: u64, expected: u64, packet_number_len: usize)
    requires
        1 <= packet_number_len <= PACKET_NUMBER_LEN,
    ensures
        full_packet_number(
            expected,
            (n as nat % codec::pow256(packet_number_len as nat)) as u64,
            packet_number_len,
        ) == n <==> near(n, expected, packet_number_len),
{
    let w = codec::pow256(packet_number_len as nat);
    codec::lemma_pow256();
    let truncated = (n as nat % w) as u64;
    assert(n as nat % w < w);
    lemma_candidate(expected, truncated, packet_number_len);
    let c = candidate(expected, truncated, packet_number_len);
    lemma_apart(n as int, expected as int, c as int, w as int);
}

/// A number with the low part of `c` is `c`, its neighbour, or further away.
proof fn lemma_apart(n: int, expected: int, c: int, w: int)
    requires
        w > 0,
        c == expected - expected % w + n % w,
    ensures
        n == c || n == c + w || n == c - w || n >= c + 2 * w || n <= c - 2 * w,
        expected - w < c < expected + w,
{
    let d = n / w - expected / w;
    vstd::arithmetic::div_mod::lemma_fundamental_div_mod(n, w);
    vstd::arithmetic::div_mod::lemma_fundamental_div_mod(expected, w);
    assert(w * (n / w) - w * (expected / w) == w * d) by (nonlinear_arith)
        requires
            d == n / w - expected / w,
    ;
    assert(n - c == w * d);
    assert(0 <= n % w < w && 0 <= expected % w < w);
    if d >= 2 {
        assert(w * d >= 2 * w) by (nonlinear_arith)
            requires
                d >= 2,
                w > 0,
        ;
    } else if d <= -2 {
        assert(w * d <= -2 * w) by (nonlinear_arith)
            requires
                d <= -2,
                w > 0,
        ;
    } else {
        assert(w * d == -w || w * d == 0 || w * d == w) by (nonlinear_arith)
            requires
                -1 <= d <= 1,
        ;
    }
}

/// The number with the low part `t` in the block of `expected`, and its neighbours,
/// have the low part `t`.
proof fn lemma_low_part(expected: int, t: int, c: int, n: int, w: int)
    requires
        w > 0,
        0 <= t < w,
        c == expected - expected % w + t,
        n == c || n == c + w || n == c - w,
    ensures
        n % w == t,
{
    let k = expected / w;
    vstd::arithmetic::div_mod::lemma_fundamental_div_mod(expected, w);
    let q = if n == c {
        k
    } else if n == c + w {
        k + 1
    } else {
        k - 1
    };
    assert(w * (k + 1) == w * k + w && w * (k - 1) == w * k - w) by (nonlinear_arith);
    assert(n == q * w + t) by {
        vstd::arithmetic::mul::lemma_mul_is_commutative(q, w);
    }
    vstd::arithmetic::div_mod::lemma_fundamental_div_mod_converse(n, w, q, t);
}

proof fn lemma_drop_byte(v: nat, n: nat)
    requires
        1 <= n <= 4,
    ensures
        (v % codec::pow256(n)) / 256 == (v / 256) % codec::pow256((n - 1) as nat),
        (v % codec::pow256(n)) % 256 == v % 256,
{
    codec::lemma_pow256();
    if n == 1 {
        assert((v % 0x100) / 256 == (v / 256) % 1);
        assert((v % 0x100) % 256 == v % 256);
    } else if n == 2 {
        assert((v % 0x1_0000) / 256 == (v / 256) % 0x100);
        assert((v % 0x1_0000) % 256 == v % 256);
    } else if n == 3 {
        assert((v % 0x100_0000) / 256 == (v / 256) % 0x1_0000);
        assert((v % 0x100_0000) % 256 == v % 256);
    } else {
        assert((v % 0x1_0000_0000) / 256 == (v / 256) % 0x100_0000);
        assert((v % 0x1_0000_0000) % 256 == v % 256);
    }
}

/// The low bytes of a number are those of its remainder.
pub proof fn lemma_low_bytes(v: nat, n: nat)
    requires
        n <= 4,
    ensures
        codec::be_bytes(v, n) == codec::be_bytes(v % codec::pow256(n), n),
    decreases n,
{
    if n > 0 {
        let m = (n - 1) as nat;
        let r = v % codec::pow256(n);
        codec::lemma_pow256();
        lemma_drop_byte(v, n);
        lemma_low_bytes(v / 256, m);
        assert(codec::be_bytes(v, n) == codec::be_bytes(v / 256, m).push((v % 256) as u8));
        assert(codec::be_bytes(r, n) == codec::be_bytes(r / 256, m).push((r % 256) as u8));
    }
}

// ---------------------------------------------------------------------------
// Headers
// ---------------------------------------------------------------------------

/// Where the packet number starts, behind the channel ID.
pub open spec fn number_offset(channel_id: Seq<u8>) -> int {
    1 + channel_id.len() as int
}

/// Where the sample ends that a mask is made from.
pub open spec fn sample_end(channel_id: Seq<u8>) -> int {
    number_offset(channel_id) + HP_SAMPLE_OFFSET + HP_SAMPLE_SIZE
}

/// The sample that a mask is made from.
pub open spec fn sample_of(channel_id: Seq<u8>, packet: Seq<u8>) -> Seq<u8> {
    packet.subrange(number_offset(channel_id) + HP_SAMPLE_OFFSET, sample_end(channel_id))
}

/// Whether a byte can be the first one of a short header.
pub open spec fn short_header(first: u8) -> bool {
    first & SHORT_HEADER_FORM_BIT == 0 && first & SHORT_HEADER_FIXED_BIT != 0
}

/// Whether `packet` is long enough, and starts as a packet of the channel
/// `channel_id`.
pub open spec fn for_channel(channel_id: Seq<u8>, packet: Seq<u8>) -> bool {
    &&& packet.len() >= sample_end(channel_id)
    &&& short_header(packet[0])
    &&& packet.subrange(1, number_offset(channel_id)) == channel_id
}

/// A packet with the mask applied to its first byte and to `n` bytes of its
/// packet number.
pub open spec fn masked(channel_id: Seq<u8>, packet: Seq<u8>, mask: Seq<u8>, n: int) -> Seq<u8> {
    Seq::new(
        packet.len(),
        |i: int|
            if i == 0 {
                packet[0] ^ (mask[0] & SHORT_HEADER_HP_MASK)
            } else if number_offset(channel_id) <= i < number_offset(channel_id) + n {
                packet[i] ^ mask[1 + i - number_offset(channel_id)]
            } else {
                packet[i]
            },
    )
}

/// The request for the mask for `sample`.
pub open spec fn mask_request(announce: AnnounceView, sample: Seq<u8>) -> Result<
    CryptoRequestView,
    Error,
> {
    match algorithms::cipher_of(announce.header_protection_algorithm) {
        Err(e) => Err(e),
        Ok(cipher) => Ok(
            CryptoRequestView::HeaderMask { cipher, secret: announce.header_secret, sample },
        ),
    }
}

/// The request for the mask that removes the header protection of `packet`.
pub open spec fn opening_mask_request(announce: AnnounceView, packet: Seq<u8>) -> Result<
    CryptoRequestView,
    Error,
> {
    if !frame::channel_id_valid(announce.channel_id) {
        Err(Error::FrameEncoding)
    } else if !for_channel(announce.channel_id, packet) {
        Err(Error::InvalidPacket)
    } else {
        mask_request(announce, sample_of(announce.channel_id, packet))
    }
}

/// The request for the mask that protects the header of `packet`.
pub open spec fn sealing_mask_request(announce: AnnounceView, packet: Seq<u8>) -> Result<
    CryptoRequestView,
    Error,
> {
    if !frame::channel_id_valid(announce.channel_id) {
        Err(Error::FrameEncoding)
    } else if packet.len() < sample_end(announce.channel_id) {
        Err(Error::NoMoreData)
    } else {
        mask_request(announce, sample_of(announce.channel_id, packet))
    }
}

/// The length of the packet number that a first byte announces.
pub open spec fn number_len(first: u8) -> int {
    (first & 0x03) + 1
}

/// What the header of `packet` says once its protection is removed, and the
/// packet then.
pub open spec fn open_header(
    announce: AnnounceView,
    packet: Seq<u8>,
    mask: Seq<u8>,
    largest: u64,
) -> Result<(DecryptedChannelHeader, Seq<u8>), Error> {
    let channel_id = announce.channel_id;
    let first = packet[0] ^ (mask[0] & SHORT_HEADER_HP_MASK);
    let n = number_len(first);
    let start = number_offset(channel_id);
    let plain = masked(channel_id, packet, mask, n);
    if !frame::channel_id_valid(channel_id) {
        Err(Error::FrameEncoding)
    } else if !for_channel(channel_id, packet) {
        Err(Error::InvalidPacket)
    } else if mask.len() < HP_MASK_LEN {
        Err(Error::Internal)
    } else if !short_header(first) {
        Err(Error::InvalidPacket)
    } else {
        Ok(
            (
                DecryptedChannelHeader {
                    packet_number: full_packet_number(
                        largest,
                        codec::be_value(plain.subrange(start, start + n)) as u64,
                        n as usize,
                    ),
                    key_phase: first & SHORT_HEADER_KEY_PHASE_BIT != 0,
                    header_end: (start + n) as usize,
                },
                plain,
            ),
        )
    }
}

/// The packet with its header protected, given the mask.
pub open spec fn protect_header(announce: AnnounceView, packet: Seq<u8>, mask: Seq<u8>) -> Result<
    Seq<u8>,
    Error,
> {
    if !frame::channel_id_valid(announce.channel_id) {
        Err(Error::FrameEncoding)
    } else if packet.len() < sample_end(announce.channel_id) {
        Err(Error::NoMoreData)
    } else if mask.len() < HP_MASK_LEN {
        Err(Error::Internal)
    } else {
        Ok(masked(announce.channel_id, packet, mask, PACKET_NUMBER_LEN as int))
    }
}

/// The result of a function that asks for something, by what it holds.
pub open spec fn request_result(r: Res<CryptoRequest>) -> Result<CryptoRequestView, Error> {
    match r {
        Ok(request) => Ok(request@),
        Err(e) => Err(e),
    }
}

/// Asks for the mask for `sample`.
pub fn header_crypto_state(announce: &Announce, sample: &[u8]) -> (out: Res<CryptoRequest>)
    ensures
        request_result(out) == mask_request(announce@, sample@),
{
    let cipher = cipher_from_id(announce.header_protection_algorithm)?;
    Ok(
        CryptoRequest::HeaderMask {
            cipher,
            secret: copy_bytes(&announce.header_secret),
            sample: vstd::slice::slice_to_vec(sample),
        },
    )
}

/// Whether `packet` is long enough, and starts as a packet of the channel
/// `channel_id`.
fn is_for_channel(channel_id: &Vec<u8>, packet: &[u8]) -> (out: bool)
    requires
        frame::channel_id_valid(channel_id@),
    ensures
        out == for_channel(channel_id@, packet@),
{
    let packet_number_offset: usize = 1 + channel_id.len();
    if packet.len() < packet_number_offset + HP_SAMPLE_OFFSET + HP_SAMPLE_SIZE {
        return false;
    }
    let first = packet[0];
    if first & SHORT_HEADER_FORM_BIT != 0 || first & SHORT_HEADER_FIXED_BIT == 0 {
        return false;
    }
    let id = vstd::slice::slice_subrange(packet, 1, packet_number_offset);
    codec::bytes_equal(id, channel_id.as_slice())
}

/// Asks for the mask that removes the header protection of `packet`, if it is a
/// packet of the announced channel.
pub fn opening_mask(announce: &Announce, packet: &[u8]) -> (out: Res<CryptoRequest>)
    ensures
        request_result(out) == opening_mask_request(announce@, packet@),
{
    validate_channel_id(announce.channel_id.as_slice())?;
    if !is_for_channel(&announce.channel_id, packet) {
        return Err(Error::InvalidPacket);
    }
    let sample_offset: usize = 1 + announce.channel_id.len() + HP_SAMPLE_OFFSET;
    let sample = vstd::slice::slice_subrange(packet, sample_offset, sample_offset + HP_SAMPLE_SIZE);
    header_crypto_state(announce, sample)
}

/// Asks for the mask that protects the header of `packet`, if it is long enough.
pub fn sealing_mask(announce: &Announce, packet: &[u8]) -> (out: Res<CryptoRequest>)
    ensures
        request_result(out) == sealing_mask_request(announce@, packet@),
{
    validate_channel_id(announce.channel_id.as_slice())?;
    let sample_offset: usize = 1 + announce.channel_id.len() + HP_SAMPLE_OFFSET;
    if packet.len() < sample_offset + HP_SAMPLE_SIZE {
        return Err(Error::NoMoreData);
    }
    let sample = vstd::slice::slice_subrange(packet, sample_offset, sample_offset + HP_SAMPLE_SIZE);
    header_crypto_state(announce, sample)
}

/// Applies a mask to the first byte of a packet, and to `n` bytes of its packet
/// number.
fn apply_mask(packet: &mut Vec<u8>, packet_number_offset: usize, mask: &[u8], n: usize, Ghost(
    channel_id,
): Ghost<Seq<u8>>)
    requires
        packet_number_offset == number_offset(channel_id),
        packet_number_offset + n <= old(packet)@.len(),
        1 + n <= mask@.len(),
    ensures
        final(packet)@ == masked(channel_id, old(packet)@, mask@, n as int),
{
    let first = packet[0] ^ (mask[0] & SHORT_HEADER_HP_MASK);
    packet.set(0, first);
    let mut i: usize = 0;
    assert(packet@ =~= masked(channel_id, old(packet)@, mask@, 0));
    assert(packet_number_offset + n <= packet.len());
    while i < n
        invariant
            i <= n,
            packet_number_offset + n <= usize::MAX,
            packet_number_offset == number_offset(channel_id),
            packet_number_offset + n <= old(packet)@.len(),
            1 + n <= mask@.len(),
            packet@ == masked(channel_id, old(packet)@, mask@, i as int),
        decreases n - i,
    {
        let at = packet_number_offset + i;
        let byte = packet[at] ^ mask[1 + i];
        packet.set(at, byte);
        assert(packet@ =~= masked(channel_id, old(packet)@, mask@, i + 1));
        i = i + 1;
    }
}

/// Removes the header protection of `packet`, given the mask.
pub fn decrypt_channel_header(
    announce: &Announce,
    packet: &mut Vec<u8>,
    mask: &[u8],
    largest_observed_packet_number: u64,
) -> (out: Res<DecryptedChannelHeader>)
    ensures
        match out {
            Ok(header) => open_header(
                announce@,
                old(packet)@,
                mask@,
                largest_observed_packet_number,
            ) == Ok::<(DecryptedChannelHeader, Seq<u8>), Error>((header, final(packet)@)),
            Err(e) => open_header(announce@, old(packet)@, mask@, largest_observed_packet_number)
                == Err::<(DecryptedChannelHeader, Seq<u8>), Error>(e) && final(packet)@ == old(
                packet,
            )@,
        },
        out matches Ok(header) ==> header.header_end <= final(packet)@.len(),
{
    validate_channel_id(announce.channel_id.as_slice())?;
    if !is_for_channel(&announce.channel_id, packet.as_slice()) {
        return Err(Error::InvalidPacket);
    }
    if mask.len() < HP_MASK_LEN {
        return Err(Error::Internal);
    }
    let packet_number_offset: usize = 1 + announce.channel_id.len();
    let first = packet[0] ^ (mask[0] & SHORT_HEADER_HP_MASK);
    if first & SHORT_HEADER_FORM_BIT != 0 || first & SHORT_HEADER_FIXED_BIT == 0 {
        return Err(Error::InvalidPacket);
    }
    assert(first & 0x03 <= 3) by (bit_vector);
    let packet_number_len: usize = (first & 0x03) as usize + 1;
    let header_end: usize = packet_number_offset + packet_number_len;
    apply_mask(packet, packet_number_offset, mask, packet_number_len, Ghost(announce@.channel_id));
    let number = vstd::slice::slice_subrange(packet.as_slice(), packet_number_offset, header_end);
    let truncated_packet_number = codec::big_endian(number);
    Ok(
        DecryptedChannelHeader {
            packet_number: decode_packet_number(
                largest_observed_packet_number,
                truncated_packet_number,
                packet_number_len,
            ),
            key_phase: first & SHORT_HEADER_KEY_PHASE_BIT != 0,
            header_end,
        },
    )
}

/// Protects the header of `packet`, given the mask.
pub fn apply_header_protection(announce: &Announce, packet: &mut Vec<u8>, mask: &[u8]) -> (result:
    Res<()>)
    ensures
        match result {
            Ok(()) => protect_header(announce@, old(packet)@, mask@) == Ok::<Seq<u8>, Error>(
                final(packet)@,
            ),
            Err(e) => protect_header(announce@, old(packet)@, mask@) == Err::<Seq<u8>, Error>(e)
                && final(packet)@ == old(packet)@,
        },
{
    validate_channel_id(announce.channel_id.as_slice())?;
    let packet_number_offset: usize = 1 + announce.channel_id.len();
    if packet.len() < packet_number_offset + HP_SAMPLE_OFFSET + HP_SAMPLE_SIZE {
        return Err(Error::NoMoreData);
    }
    if mask.len() < HP_MASK_LEN {
        return Err(Error::Internal);
    }
    apply_mask(packet, packet_number_offset, mask, PACKET_NUMBER_LEN, Ghost(announce@.channel_id));
    Ok(())
}

// ---------------------------------------------------------------------------
// Packets
// ---------------------------------------------------------------------------

/// The header of a packet, without protection. Its first byte has the fixed bit, the
/// key phase bit, and the length of the packet number less one.
pub open spec fn plain_header(channel_id: Seq<u8>, packet_number: u64, key_phase: bool) -> Seq<u8> {
    seq![
        if key_phase {
            0x47u8
        } else {
            0x43u8
        },
    ] + channel_id + codec::be_bytes(packet_number as nat, 4)
}

/// The header and the payload of a packet with the frames `frames`.
pub open spec fn unsealed(
    announce: AnnounceView,
    packet_number: u64,
    key_phase: bool,
    frames: Seq<ChannelFrameView>,
) -> Result<(Seq<u8>, Seq<u8>), Error> {
    if !frame::channel_id_valid(announce.channel_id) {
        Err(Error::FrameEncoding)
    } else {
        match channel_frame::frames_encoded(frames) {
            Err(e) => Err(e),
            Ok(()) => Ok(
                (
                    plain_header(announce.channel_id, packet_number, key_phase),
                    channel_frame::frames_written(frames),
                ),
            ),
        }
    }
}

/// The request that encrypts the payload of a packet.
pub open spec fn seal_request(
    announce: AnnounceView,
    key: KeyView,
    packet_number: u64,
    header: Seq<u8>,
    payload: Seq<u8>,
) -> Result<CryptoRequestView, Error> {
    match algorithms::cipher_of(announce.aead_algorithm) {
        Err(e) => Err(e),
        Ok(cipher) => Ok(
            CryptoRequestView::Seal {
                cipher,
                secret: key.secret,
                min_packet_number: packet_number,
                packet_number,
                header,
                plaintext: payload,
            },
        ),
    }
}

/// The packet number and the key phase of `packet`.
pub open spec fn metadata(
    announce: AnnounceView,
    packet: Seq<u8>,
    mask: Seq<u8>,
    largest: u64,
) -> Result<ParsedChannelPacket, Error> {
    match open_header(announce, packet, mask, largest) {
        Err(e) => Err(e),
        Ok((header, _)) => Ok(
            ParsedChannelPacket {
                packet_number: header.packet_number,
                key_phase: header.key_phase,
            },
        ),
    }
}

/// The key phase of `packet`, and the request that opens its payload, given the
/// mask. The key has to be for the channel, and the packet has to have the number
/// `packet_number`.
pub open spec fn open_request(
    announce: AnnounceView,
    key: KeyView,
    packet_number: u64,
    packet: Seq<u8>,
    mask: Seq<u8>,
    largest: u64,
) -> Result<(bool, CryptoRequestView), Error> {
    if key.channel_id != announce.channel_id {
        Err(Error::FrameEncoding)
    } else {
        match open_header(announce, packet, mask, largest) {
            Err(e) => Err(e),
            Ok((header, plain)) => if header.packet_number != packet_number {
                Err(Error::InvalidPacket)
            } else {
                match algorithms::cipher_of(announce.aead_algorithm) {
                    Err(e) => Err(e),
                    Ok(cipher) => Ok(
                        (
                            header.key_phase,
                            CryptoRequestView::Open {
                                cipher,
                                secret: key.secret,
                                min_packet_number: key.from_packet_number,
                                packet_number,
                                header: plain.take(header.header_end as int),
                                ciphertext: plain.skip(header.header_end as int),
                            },
                        ),
                    ),
                }
            },
        }
    }
}

/// The packet whose payload was opened with `key`, which has to be for the channel.
pub open spec fn opened(
    announce: AnnounceView,
    key: KeyView,
    packet_number: u64,
    key_phase: bool,
    plaintext: Seq<u8>,
) -> Result<ChannelPacketView, Error> {
    if key.channel_id != announce.channel_id {
        Err(Error::FrameEncoding)
    } else {
        match channel_frame::parse_channel_frames(announce.channel_id, plaintext) {
            Err(e) => Err(e),
            Ok(frames) => Ok(
                ChannelPacketView {
                    channel_id: announce.channel_id,
                    packet_number,
                    key_sequence: key.key_sequence,
                    key_phase,
                    frames,
                },
            ),
        }
    }
}

/// The header and the payload of a packet with the frames `frames`.
pub fn encode_protected_channel_packet(
    announce: &Announce,
    packet_number: u64,
    key_phase: bool,
    frames: &[ChannelFrame],
) -> (out: Res<UnsealedPacket>)
    requires
        channel_frame::frames_fit(channel_frame::frame_views(frames@)),
    ensures
        match out {
            Ok(packet) => unsealed(
                announce@,
                packet_number,
                key_phase,
                channel_frame::frame_views(frames@),
            ) == Ok::<(Seq<u8>, Seq<u8>), Error>((packet.header@, packet.payload@)),
            Err(e) => unsealed(
                announce@,
                packet_number,
                key_phase,
                channel_frame::frame_views(frames@),
            ) == Err::<(Seq<u8>, Seq<u8>), Error>(e),
        },
{
    validate_channel_id(announce.channel_id.as_slice())?;
    let mut payload = Encoder::default();
    encode_channel_frames(&mut payload, frames)?;
    let first: u8 = if key_phase {
        0x47
    } else {
        0x43
    };
    let mut header: Vec<u8> = Vec::new();
    header.push(first);
    header.extend_from_slice(announce.channel_id.as_slice());
    encode_packet_number(packet_number, PACKET_NUMBER_LEN, &mut header)?;
    assert(header@ =~= plain_header(announce@.channel_id, packet_number, key_phase));
    let payload = payload.into_vec();
    assert(payload@ =~= channel_frame::frames_written(channel_frame::frame_views(frames@)));
    Ok(UnsealedPacket { header, payload })
}

/// Asks for the payload of a packet to be encrypted.
pub fn seal_payload(
    announce: &Announce,
    key: &Key,
    packet_number: u64,
    packet: UnsealedPacket,
) -> (out: Res<CryptoRequest>)
    ensures
        request_result(out) == seal_request(
            announce@,
            key@,
            packet_number,
            packet.header@,
            packet.payload@,
        ),
{
    let cipher = cipher_from_id(announce.aead_algorithm)?;
    Ok(
        CryptoRequest::Seal {
            cipher,
            secret: copy_bytes(&key.secret),
            min_packet_number: packet_number,
            packet_number,
            header: packet.header,
            plaintext: packet.payload,
        },
    )
}

/// The packet number and the key phase of a packet, given the mask.
pub fn parse_channel_packet_metadata(
    announce: &Announce,
    protected_packet: &[u8],
    mask: &[u8],
    largest_observed_packet_number: u64,
) -> (out: Res<ParsedChannelPacket>)
    ensures
        out == metadata(announce@, protected_packet@, mask@, largest_observed_packet_number),
{
    let mut packet = vstd::slice::slice_to_vec(protected_packet);
    let header = decrypt_channel_header(
        announce,
        &mut packet,
        mask,
        largest_observed_packet_number,
    )?;
    Ok(ParsedChannelPacket { packet_number: header.packet_number, key_phase: header.key_phase })
}

/// Asks for the payload of a packet to be opened, given the mask. The first part
/// of the result is the key phase. A key of another channel is refused.
pub fn open_payload(
    announce: &Announce,
    key: &Key,
    packet_number: u64,
    protected_packet: &[u8],
    mask: &[u8],
    largest_observed_packet_number: u64,
) -> (out: Res<(bool, CryptoRequest)>)
    ensures
        match out {
            Ok((key_phase, request)) => open_request(
                announce@,
                key@,
                packet_number,
                protected_packet@,
                mask@,
                largest_observed_packet_number,
            ) == Ok::<(bool, CryptoRequestView), Error>((key_phase, request@)),
            Err(e) => open_request(
                announce@,
                key@,
                packet_number,
                protected_packet@,
                mask@,
                largest_observed_packet_number,
            ) == Err::<(bool, CryptoRequestView), Error>(e),
        },
{
    if !codec::bytes_equal(key.channel_id.as_slice(), announce.channel_id.as_slice()) {
        return Err(Error::FrameEncoding);
    }
    let mut packet = vstd::slice::slice_to_vec(protected_packet);
    let header = decrypt_channel_header(
        announce,
        &mut packet,
        mask,
        largest_observed_packet_number,
    )?;
    if header.packet_number != packet_number {
        return Err(Error::InvalidPacket);
    }
    let cipher = cipher_from_id(announce.aead_algorithm)?;
    let (head, tail) = packet.as_slice().split_at(header.header_end);
    assert(head@ =~= packet@.take(header.header_end as int));
    assert(tail@ =~= packet@.skip(header.header_end as int));
    Ok(
        (
            header.key_phase,
            CryptoRequest::Open {
                cipher,
                secret: copy_bytes(&key.secret),
                min_packet_number: key.from_packet_number,
                packet_number,
                header: vstd::slice::slice_to_vec(head),
                ciphertext: vstd::slice::slice_to_vec(tail),
            },
        ),
    )
}

/// The packet whose payload was opened to `plaintext`. A key of another channel is
/// refused.
pub fn decrypt_channel_packet(
    announce: &Announce,
    key: &Key,
    packet_number: u64,
    key_phase: bool,
    plaintext: &[u8],
) -> (out: Res<ChannelPacket>)
    ensures
        packet_result(out) == opened(announce@, key@, packet_number, key_phase, plaintext@),
{
    if !codec::bytes_equal(key.channel_id.as_slice(), announce.channel_id.as_slice()) {
        return Err(Error::FrameEncoding);
    }
    let frames = decode_channel_frames(announce, plaintext)?;
    Ok(
        ChannelPacket {
            channel_id: copy_bytes(&announce.channel_id),
            packet_number,
            key_sequence: key.key_sequence,
            key_phase,
            frames,
        },
    )
}

/// The result of a reader of packets, by what it holds.
pub open spec fn packet_result(r: Res<ChannelPacket>) -> Result<ChannelPacketView, Error> {
    match r {
        Ok(packet) => Ok(packet@),
        Err(e) => Err(e),
    }
}

} // verus!
