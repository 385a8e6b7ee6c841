//! Laws of each step that the sending end of a multicast channel takes.

use vstd::prelude::*;
use crate::algorithms;
use crate::algorithms::IntegrityHashAlgorithm;
use crate::channel_frame;
use crate::channel_frame::ChannelFrameView;
use crate::error::Error;
use crate::packet;
use crate::packet::CryptoRequestView;
use crate::send;
use crate::send::{SendStageView, SendStepView, SendView};
use crate::types::{AnnounceView, KeyView};

verus! {

/// A sender can be had for a channel ID of 1 to 20 bytes, one cipher suite for both
/// header and payload, a hash that there is, and a key of the channel. It begins at
/// the packet number that the key does.
pub proof fn law_new_sender(announce: AnnounceView, key: KeyView)
    ensures
        ({
            let made = send::new_sender(announce, key);
            let id_valid = 1 <= announce.channel_id.len() <= 20;
            let suite = 0x1301 <= announce.aead_algorithm <= 0x1303
                && announce.header_protection_algorithm == announce.aead_algorithm;
            let own = key.channel_id == announce.channel_id;
            let hash = 1 <= announce.integrity_hash_algorithm <= 8;
            &&& !id_valid ==> made == Err::<SendView, Error>(Error::FrameEncoding)
            &&& id_valid && !suite ==> made == Err::<SendView, Error>(Error::NotAvailable)
            &&& id_valid && suite && !own ==> made == Err::<SendView, Error>(Error::FrameEncoding)
            &&& id_valid && suite && own && !hash ==> made == Err::<SendView, Error>(
                Error::NotAvailable,
            )
            &&& id_valid && suite && own && hash ==> {
                &&& made matches Ok(state)
                &&& state.announce == announce
                &&& state.key == key
                &&& algorithms::integrity_hash_of(announce.integrity_hash_algorithm) == Ok::<
                    IntegrityHashAlgorithm,
                    Error,
                >(state.integrity_hash)
                &&& state.next_packet_number == key.from_packet_number
                &&& state.stage is None
            }
        }),
{
}

/// A key is taken unless it is of another channel, or its number or the packet that
/// it begins at lies before that of the key in use. The next packet is then the first
/// that the key is for, where that lies ahead. Nothing else changes, but that work
/// under way is given up.
pub proof fn law_key_updated(state: SendView, key: KeyView)
    ensures
        ({
            let refused = key.channel_id != state.announce.channel_id || key.key_sequence
                < state.key.key_sequence || key.from_packet_number < state.key.from_packet_number;
            &&& refused ==> state.with_key(key) == Err::<SendView, Error>(Error::FrameEncoding)
            &&& !refused ==> {
                &&& state.with_key(key) matches Ok(next)
                &&& next.key == key
                &&& next.next_packet_number >= key.from_packet_number
                &&& next.next_packet_number >= state.next_packet_number
                &&& next.next_packet_number == key.from_packet_number || next.next_packet_number
                    == state.next_packet_number
                &&& next.announce == state.announce
                &&& next.integrity_hash == state.integrity_hash
                &&& next.stage is None
            }
        }),
{
}

/// To send frames, the payload they make is to be sealed: with the AEAD cipher of the
/// channel and the secret of the key, under the next packet number, with a header that
/// has the key phase of the key, which is set for keys with an odd number. No packet
/// number is used up yet.
pub proof fn law_sending_begins(state: SendView, frames: Seq<ChannelFrameView>)
    requires
        state.valid(),
    ensures
        ({
            let (next, step) = state.start(frames);
            match channel_frame::frames_encoded(frames) {
                Err(e) => next == (SendView { stage: None, ..state }) && step == SendStepView::Done(
                    Err(e),
                ),
                Ok(()) => {
                    let header = packet::plain_header(
                        state.announce.channel_id,
                        state.next_packet_number,
                        state.key.key_sequence % 2 == 1,
                    );
                    &&& next == (SendView { stage: Some(SendStageView::Seal { header }), ..state })
                    &&& step matches SendStepView::Await(
                        CryptoRequestView::Seal {
                            cipher,
                            secret,
                            min_packet_number,
                            packet_number,
                            header: sent,
                            plaintext,
                        },
                    )
                    &&& Ok::<algorithms::Cipher, Error>(cipher) == algorithms::cipher_of(
                        state.announce.aead_algorithm,
                    )
                    &&& secret == state.key.secret
                    &&& min_packet_number == state.next_packet_number
                    &&& packet_number == state.next_packet_number
                    &&& sent == header
                    &&& plaintext == channel_frame::frames_written(frames)
                },
            }
        }),
{
}

/// Behind the header stands the ciphertext; the mask for the two is asked for.
/// Nothing is written yet.
pub proof fn law_sealed_packet(
    state: SendView,
    header: Seq<u8>,
    ciphertext: Seq<u8>,
    out: Seq<u8>,
)
    requires
        state.stage == Some(SendStageView::Seal { header }),
    ensures
        match packet::sealing_mask_request(state.announce, header + ciphertext) {
            Err(e) => state.answered(Ok(ciphertext), out) == (
                SendView { stage: None, ..state },
                out,
                SendStepView::Done(Err(e)),
            ),
            Ok(request) => state.answered(Ok(ciphertext), out) == (
                SendView {
                    stage: Some(SendStageView::Mask { packet: header + ciphertext }),
                    ..state
                },
                out,
                SendStepView::Await(request),
            ),
        },
{
}

/// The packet with a protected header is written to the front of the output, whose
/// other bytes stay, if there is room. Its number is used up, and its hash is asked
/// for with the hash function of the channel, over all of it.
pub proof fn law_packet_written(
    state: SendView,
    plain: Seq<u8>,
    mask: Seq<u8>,
    out: Seq<u8>,
    i: int,
)
    requires
        state.stage == Some(SendStageView::Mask { packet: plain }),
        out.len() <= usize::MAX,
    ensures
        ({
            let (next, written, step) = state.answered(Ok(mask), out);
            match packet::protect_header(state.announce, plain, mask) {
                Err(e) => next == (SendView { stage: None, ..state }) && written == out && step
                    == SendStepView::Done(Err(e)),
                Ok(packet) => {
                    let room = packet.len() <= out.len();
                    let last = state.next_packet_number == u64::MAX;
                    &&& !room ==> next == (SendView { stage: None, ..state }) && written == out
                        && step == SendStepView::Done(Err(Error::NoMoreData))
                    &&& room ==> {
                        &&& written.len() == out.len()
                        &&& 0 <= i < packet.len() ==> written[i] == packet[i]
                        &&& packet.len() <= i < out.len() ==> written[i] == out[i]
                    }
                    &&& room && last ==> next == (SendView { stage: None, ..state }) && step
                        == SendStepView::Done(Err(Error::IntegerOverflow))
                    &&& room && !last ==> {
                        &&& next.next_packet_number == state.next_packet_number + 1
                        &&& next.stage matches Some(
                            SendStageView::Hash { packet_number, packet_len },
                        ) && packet_number == state.next_packet_number && packet_len
                            == packet.len()
                        &&& next.announce == state.announce
                        &&& next.key == state.key
                        &&& next.integrity_hash == state.integrity_hash
                        &&& step == SendStepView::Await(
                            CryptoRequestView::Hash {
                                algorithm: state.integrity_hash.function(),
                                data: packet,
                            },
                        )
                    }
                },
            }
        }),
{
}

/// A packet that was sent is reported by its number, its length and its key, and with
/// the frame that vouches for it: one hash, for the packet's number, which is how the
/// digest begins.
pub proof fn law_packet_reported(
    state: SendView,
    packet_number: u64,
    packet_len: usize,
    digest: Seq<u8>,
    out: Seq<u8>,
)
    requires
        state.stage == Some(SendStageView::Hash { packet_number, packet_len }),
    ensures
        ({
            let (next, written, step) = state.answered(Ok(digest), out);
            let len = state.integrity_hash.len() as int;
            &&& next == (SendView { stage: None, ..state })
            &&& written == out
            &&& step matches SendStepView::Done(Ok(sent))
            &&& sent.packet_number == packet_number
            &&& sent.packet_len == packet_len
            &&& sent.key_sequence == state.key.key_sequence
            &&& sent.key_phase <==> state.key.key_sequence % 2 == 1
            &&& sent.integrity.channel_id == state.announce.channel_id
            &&& sent.integrity.packet_number_start == packet_number
            &&& sent.integrity.packet_hash_count == Some(1u64)
            &&& digest.len() <= len ==> sent.integrity.packet_hashes == digest
            &&& digest.len() > len ==> sent.integrity.packet_hashes == digest.subrange(0, len)
        }),
{
    let len = state.integrity_hash.len() as int;
    if digest.len() > len {
        assert(digest.take(len) =~= digest.subrange(0, len));
    }
}

/// An error of the cryptographic library ends the work with that error: no packet
/// number is used up by it, and nothing is written. An answer that nothing was asked
/// for is refused.
pub proof fn law_no_answer(state: SendView, reply: Result<Seq<u8>, Error>, out: Seq<u8>)
    ensures
        state.stage is None ==> state.answered(reply, out) == (
            state,
            out,
            SendStepView::Done(Err(Error::Internal)),
        ),
        state.stage is Some ==> (reply matches Err(e) ==> state.answered(reply, out) == (
            SendView { stage: None, ..state },
            out,
            SendStepView::Done(Err(e)),
        )),
{
}

} // verus!
