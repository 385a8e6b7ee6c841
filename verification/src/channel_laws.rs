//! Laws of a multicast channel: what its two ends do over whole operations.

use vstd::prelude::*;
use crate::algorithms;
use crate::algorithms::HashAlgorithm;
use crate::channel_frame;
use crate::channel_frame::{ChannelDatagramView, ChannelFrameView};
use crate::channel_frame_laws;
use crate::codec;
use crate::error::Error;
use crate::ordered;
use crate::packet;
use crate::packet::{CryptoRequestView, DecryptedChannelHeader, ParsedChannelPacket, HP_MASK_LEN, HP_SAMPLE_SIZE, PACKET_NUMBER_LEN};
use crate::packet_laws;
use crate::receive;
use crate::receive::{PendingView, ReceiveStageView, ReceiveStepView, ReceiveView, ReleaseQueueView};
use crate::send;
use crate::send::{ChannelSendOutputView, SendStageView, SendStepView, SendView};
use crate::types::{AnnounceView, IntegrityView, KeyView};

verus! {

/// What a cryptographic library answers.
pub type Answers = spec_fn(CryptoRequestView) -> Result<Seq<u8>, Error>;

// ---------------------------------------------------------------------------
// Operations run to their end
// ---------------------------------------------------------------------------

/// How many answers the writing of a packet can still need.
pub open spec fn send_steps_left(state: SendView) -> nat {
    match state.stage {
        None => 0,
        Some(SendStageView::Seal { header: _ }) => 3,
        Some(SendStageView::Mask { packet: _ }) => 2,
        Some(SendStageView::Hash { packet_number: _, packet_len: _ }) => 1,
    }
}

/// The sender, the buffer and the result once all requests are answered.
pub open spec fn run_send(state: SendView, step: SendStepView, out: Seq<u8>, answers: Answers) -> (
    SendView,
    Seq<u8>,
    Result<ChannelSendOutputView, Error>,
)
    decreases send_steps_left(state),
{
    match step {
        SendStepView::Done(result) => (state, out, result),
        SendStepView::Await(request) => {
            let (next, next_out, next_step) = state.answered(answers(request), out);
            if send_steps_left(next) < send_steps_left(state) {
                run_send(next, next_step, next_out, answers)
            } else {
                (next, next_out, Err(Error::Internal))
            }
        },
    }
}

/// What the writing of a packet comes to.
pub open spec fn write(
    state: SendView,
    frames: Seq<ChannelFrameView>,
    out: Seq<u8>,
    answers: Answers,
) -> (SendView, Seq<u8>, Result<ChannelSendOutputView, Error>) {
    let (next, step) = state.start(frames);
    run_send(next, step, out, answers)
}

/// How many answers the work on packets can still need.
pub open spec fn receive_steps_left(state: ReceiveView) -> nat {
    match state.stage {
        None => 0,
        Some(ReceiveStageView::Metadata { packet: _ }) => 4,
        Some(ReceiveStageView::Digest { packet_number: _, key: _, queue }) => 3 * queue.rest.len()
            + 3,
        Some(ReceiveStageView::Header { packet_number: _, key: _, packet: _, queue }) => 3
            * queue.rest.len() + 2,
        Some(ReceiveStageView::Payload { packet_number: _, key: _, key_phase: _, queue }) => 3
            * queue.rest.len() + 1,
        Some(ReceiveStageView::Authenticated { opened: _ }) => 1,
    }
}

/// The receiver and the result once all requests are answered.
pub open spec fn run_receive(state: ReceiveView, step: ReceiveStepView, answers: Answers) -> (
    ReceiveView,
    Result<Seq<ChannelDatagramView>, Error>,
)
    decreases receive_steps_left(state),
{
    match step {
        ReceiveStepView::Done(result) => (state, result),
        ReceiveStepView::Await(request) => {
            let (next, next_step) = state.answered(answers(request));
            if receive_steps_left(next) < receive_steps_left(state) {
                run_receive(next, next_step, answers)
            } else {
                (next, Err(Error::Internal))
            }
        },
    }
}

/// What the first step of an operation comes to.
pub open spec fn finish(first: (ReceiveView, ReceiveStepView), answers: Answers) -> (
    ReceiveView,
    Result<Seq<ChannelDatagramView>, Error>,
) {
    run_receive(first.0, first.1, answers)
}

/// The writing of a packet ends: each answer brings it nearer to its end.
pub proof fn law_send_ends(state: SendView, reply: Result<Seq<u8>, Error>, out: Seq<u8>)
    ensures
        state.answered(reply, out).2 is Await ==> send_steps_left(state.answered(reply, out).0)
            < send_steps_left(state),
        state.answered(reply, out).2 is Done ==> state.answered(reply, out).0.stage is None,
{
}

proof fn lemma_advance_steps(state: ReceiveView, queue: ReleaseQueueView)
    ensures
        state.advance(queue).1 is Await ==> receive_steps_left(state.advance(queue).0) <= 3
            * queue.rest.len(),
        state.advance(queue).1 is Done ==> state.advance(queue).0.stage is None,
    decreases queue.rest.len(),
{
    if queue.rest.len() > 0 {
        let next = ReleaseQueueView { rest: queue.rest.skip(1), ..queue };
        lemma_advance_steps(state, next);
    }
}

/// The work on packets ends: each answer brings it nearer to its end.
pub proof fn law_receive_ends(state: ReceiveView, reply: Result<Seq<u8>, Error>)
    ensures
        state.answered(reply).1 is Await ==> receive_steps_left(state.answered(reply).0)
            < receive_steps_left(state),
        state.answered(reply).1 is Done ==> state.answered(reply).0.stage is None,
{
    match (state.stage, reply) {
        (Some(ReceiveStageView::Metadata { packet }), Ok(mask)) => {
            if let Ok(parsed) = packet::metadata(state.announce, packet, mask, state.largest) {
                let n = parsed.packet_number;
                let state = ReceiveView {
                    largest: if state.largest < n {
                        n
                    } else {
                        state.largest
                    },
                    ..state.idle()
                };
                let state = ReceiveView {
                    pending: state.pending.insert(
                        n,
                        PendingView { packet, key_phase: parsed.key_phase },
                    ),
                    ..state
                };
                lemma_advance_steps(
                    state,
                    ReleaseQueueView { rest: seq![n], released: Seq::empty() },
                );
            }
        },
        (
            Some(ReceiveStageView::Payload { packet_number, key, key_phase, queue }),
            Ok(plaintext),
        ) => {
            if let Ok(packet) = packet::opened(
                state.announce,
                key,
                packet_number,
                key_phase,
                plaintext,
            ) {
                let next = ReceiveView {
                    accepted: state.accepted.insert(packet_number),
                    ..state.idle()
                }.delivered(packet_number, packet.frames);
                lemma_advance_steps(
                    next,
                    ReleaseQueueView {
                        released: queue.released + receive::datagrams_of(
                            state.announce.channel_id,
                            packet_number,
                            packet.frames,
                        ),
                        ..queue
                    },
                );
            }
        },
        _ => {},
    }
}

// ---------------------------------------------------------------------------
// Sender
// ---------------------------------------------------------------------------

/// A key that is taken does not rewind the packet numbers: the next packet keeps
/// its number, or gets a larger one, and the key may be used for it.
pub proof fn law_update_key_never_rewinds(state: SendView, key: KeyView)
    ensures
        state.with_key(key) matches Ok(next) ==> {
            &&& state.next_packet_number <= next.next_packet_number
            &&& key.from_packet_number <= next.next_packet_number
            &&& state.key.key_sequence <= next.key.key_sequence
            &&& state.valid() ==> next.valid()
        },
{
}

/// A packet that was written has the number that was next, and no later packet
/// has it.
pub proof fn law_packet_numbers_increase(
    state: SendView,
    frames: Seq<ChannelFrameView>,
    out: Seq<u8>,
    answers: Answers,
)
    ensures
        state.next_packet_number <= write(state, frames, out, answers).0.next_packet_number,
        write(state, frames, out, answers).2 matches Ok(output) ==> {
            &&& output.packet_number == state.next_packet_number
            &&& output.packet_number < write(state, frames, out, answers).0.next_packet_number
            &&& output.key_sequence == state.key.key_sequence
            &&& output.key_phase == (state.key.key_sequence % 2 == 1)
        },
{
    reveal_with_fuel(run_send, 5);
}

/// The hash that the sender tells is that of the packet in the buffer, and what
/// lies behind the packet is kept.
pub proof fn law_output_vouches_for_packet(
    state: SendView,
    frames: Seq<ChannelFrameView>,
    out: Seq<u8>,
    answers: Answers,
)
    requires
        out.len() <= usize::MAX,
    ensures
        write(state, frames, out, answers).2 matches Ok(output) ==> {
            let buffer = write(state, frames, out, answers).1;
            let packet = buffer.take(output.packet_len as int);
            &&& output.packet_len <= out.len() == buffer.len()
            &&& buffer.skip(output.packet_len as int) == out.skip(output.packet_len as int)
            &&& answers(
                CryptoRequestView::Hash {
                    algorithm: state.integrity_hash.function(),
                    data: packet,
                },
            ) matches Ok(digest) && output.integrity == IntegrityView {
                channel_id: state.announce.channel_id,
                packet_number_start: output.packet_number,
                packet_hash_count: Some(1u64),
                packet_hashes: algorithms::truncated(digest, state.integrity_hash.len() as nat),
            }
        },
{
    reveal_with_fuel(run_send, 5);
    let (buffer, result) = (
        write(state, frames, out, answers).1,
        write(state, frames, out, answers).2,
    );
    if let Ok(output) = result {
        let (sealing, step) = state.start(frames);
        let header = sealing.stage->Some_0->Seal_header;
        let ciphertext = answers(step->Await_0)->Ok_0;
        let plain = header + ciphertext;
        let (masking, step) = sealing.sealed(header, ciphertext);
        let mask = answers(step->Await_0)->Ok_0;
        let packet = packet::protect_header(state.announce, plain, mask)->Ok_0;
        assert(buffer == send::overwritten(out, packet));
        assert(output.packet_len == packet.len());
        assert(buffer.take(output.packet_len as int) =~= packet);
        assert(buffer.skip(output.packet_len as int) =~= out.skip(output.packet_len as int));
    }
}

// ---------------------------------------------------------------------------
// Both ends
// ---------------------------------------------------------------------------

/// How many bytes a hash function puts out.
pub open spec fn digest_len(algorithm: HashAlgorithm) -> nat {
    match algorithm {
        HashAlgorithm::Sha256 => 32,
        HashAlgorithm::Sha384 => 48,
        HashAlgorithm::Sha512 => 64,
    }
}

/// Whether a mask is made for `sample`.
pub open spec fn masks(
    answers: Answers,
    cipher: algorithms::Cipher,
    secret: Seq<u8>,
    sample: Seq<u8>,
) -> bool {
    answers(CryptoRequestView::HeaderMask { cipher, secret, sample }) matches Ok(mask)
        && mask.len() >= HP_MASK_LEN
}

/// Whether `data` is hashed.
pub open spec fn hashes(answers: Answers, algorithm: HashAlgorithm, data: Seq<u8>) -> bool {
    answers(CryptoRequestView::Hash { algorithm, data }) matches Ok(digest) && digest.len()
        == digest_len(algorithm)
}

/// Whether a payload is encrypted, with room for a sample, and the ciphertext can
/// be opened again.
pub open spec fn seals(
    answers: Answers,
    cipher: algorithms::Cipher,
    secret: Seq<u8>,
    packet_number: u64,
    header: Seq<u8>,
    plaintext: Seq<u8>,
) -> bool {
    answers(
        CryptoRequestView::Seal {
            cipher,
            secret,
            min_packet_number: packet_number,
            packet_number,
            header,
            plaintext,
        },
    ) matches Ok(ciphertext) && ciphertext.len() >= HP_SAMPLE_SIZE && forall|
        min_packet_number: u64,
    |
        min_packet_number <= packet_number ==> answers(
            #[trigger] open_of(
                cipher,
                secret,
                min_packet_number,
                packet_number,
                header,
                ciphertext,
            ),
        ) == Ok::<Seq<u8>, Error>(plaintext)
}

/// The request that opens a ciphertext.
pub open spec fn open_of(
    cipher: algorithms::Cipher,
    secret: Seq<u8>,
    min_packet_number: u64,
    packet_number: u64,
    header: Seq<u8>,
    ciphertext: Seq<u8>,
) -> CryptoRequestView {
    CryptoRequestView::Open {
        cipher,
        secret,
        min_packet_number,
        packet_number,
        header,
        ciphertext,
    }
}

/// What a cryptographic library that works answers.
pub open spec fn works(answers: Answers) -> bool {
    &&& forall|cipher: algorithms::Cipher, secret: Seq<u8>, sample: Seq<u8>| #[trigger]
        masks(answers, cipher, secret, sample)
    &&& forall|algorithm: HashAlgorithm, data: Seq<u8>| #[trigger] hashes(answers, algorithm, data)
    &&& forall|
        cipher: algorithms::Cipher,
        secret: Seq<u8>,
        packet_number: u64,
        header: Seq<u8>,
        plaintext: Seq<u8>,
    | #[trigger] seals(answers, cipher, secret, packet_number, header, plaintext)
}

/// There is a cryptographic library that works: one that encrypts nothing.
pub proof fn law_some_library_works() -> (answers: Answers)
    ensures
        works(answers),
{
    let zeros = |n: nat| Seq::new(n, |i: int| 0u8);
    let answers: Answers = |request: CryptoRequestView|
        match request {
            CryptoRequestView::HeaderMask { cipher: _, secret: _, sample: _ } => Ok(zeros(5)),
            CryptoRequestView::Hash { algorithm, data: _ } => Ok(zeros(digest_len(algorithm))),
            CryptoRequestView::Seal {
                cipher: _,
                secret: _,
                min_packet_number: _,
                packet_number: _,
                header: _,
                plaintext,
            } => Ok(plaintext + zeros(16)),
            CryptoRequestView::Open {
                cipher: _,
                secret: _,
                min_packet_number: _,
                packet_number: _,
                header: _,
                ciphertext,
            } => Ok(ciphertext.take(ciphertext.len() - 16)),
        };
    assert forall|
        cipher: algorithms::Cipher,
        secret: Seq<u8>,
        packet_number: u64,
        header: Seq<u8>,
        plaintext: Seq<u8>,
    | #[trigger] seals(answers, cipher, secret, packet_number, header, plaintext) by {
        let ciphertext = plaintext + zeros(16);
        assert(ciphertext.take(ciphertext.len() - 16) =~= plaintext);
    }
    answers
}

/// The header of the next packet, without protection.
pub open spec fn header_of(state: SendView) -> Seq<u8> {
    packet::plain_header(state.announce.channel_id, state.next_packet_number, state.key_phase())
}

/// The encrypted payload of the next packet.
pub open spec fn ciphertext_of(
    state: SendView,
    frames: Seq<ChannelFrameView>,
    answers: Answers,
) -> Seq<u8> {
    answers(
        CryptoRequestView::Seal {
            cipher: algorithms::cipher_of(state.announce.aead_algorithm)->Ok_0,
            secret: state.key.secret,
            min_packet_number: state.next_packet_number,
            packet_number: state.next_packet_number,
            header: header_of(state),
            plaintext: channel_frame::frames_written(frames),
        },
    )->Ok_0
}

/// The mask of the next packet.
pub open spec fn mask_of(
    state: SendView,
    frames: Seq<ChannelFrameView>,
    answers: Answers,
) -> Seq<u8> {
    answers(
        packet::mask_request(
            state.announce,
            packet::sample_of(
                state.announce.channel_id,
                header_of(state) + ciphertext_of(state, frames, answers),
            ),
        )->Ok_0,
    )->Ok_0
}

/// The next packet, as it is sent.
pub open spec fn packet_of(
    state: SendView,
    frames: Seq<ChannelFrameView>,
    answers: Answers,
) -> Seq<u8> {
    packet::masked(
        state.announce.channel_id,
        header_of(state) + ciphertext_of(state, frames, answers),
        mask_of(state, frames, answers),
        4,
    )
}

/// The hash of a packet.
pub open spec fn hash_of(state: SendView, packet: Seq<u8>, answers: Answers) -> Seq<u8> {
    algorithms::truncated(
        answers(
            CryptoRequestView::Hash { algorithm: state.integrity_hash.function(), data: packet },
        )->Ok_0,
        state.integrity_hash.len() as nat,
    )
}

/// What the sender tells of the next packet.
pub open spec fn output_of(
    state: SendView,
    frames: Seq<ChannelFrameView>,
    answers: Answers,
) -> ChannelSendOutputView {
    let packet = packet_of(state, frames, answers);
    ChannelSendOutputView {
        packet_number: state.next_packet_number,
        key_sequence: state.key.key_sequence,
        key_phase: state.key_phase(),
        packet_len: packet.len() as usize,
        integrity: IntegrityView {
            channel_id: state.announce.channel_id,
            packet_number_start: state.next_packet_number,
            packet_hash_count: Some(1),
            packet_hashes: hash_of(state, packet, answers),
        },
    }
}

proof fn lemma_packet_parts(state: SendView, frames: Seq<ChannelFrameView>, answers: Answers)
    requires
        state.valid(),
        works(answers),
    ensures
        ciphertext_of(state, frames, answers).len() >= HP_SAMPLE_SIZE,
        mask_of(state, frames, answers).len() >= HP_MASK_LEN,
        header_of(state).len() == packet::number_offset(state.announce.channel_id) + 4,
        packet_of(state, frames, answers).len() == header_of(state).len() + ciphertext_of(
            state,
            frames,
            answers,
        ).len(),
        packet::sealing_mask_request(
            state.announce,
            header_of(state) + ciphertext_of(state, frames, answers),
        ) is Ok,
        answers(
            packet::sealing_mask_request(
                state.announce,
                header_of(state) + ciphertext_of(state, frames, answers),
            )->Ok_0,
        ) == Ok::<Seq<u8>, Error>(mask_of(state, frames, answers)),
        packet::protect_header(
            state.announce,
            header_of(state) + ciphertext_of(state, frames, answers),
            mask_of(state, frames, answers),
        ) == Ok::<Seq<u8>, Error>(packet_of(state, frames, answers)),
{
    let cipher = algorithms::cipher_of(state.announce.aead_algorithm)->Ok_0;
    assert(seals(
        answers,
        cipher,
        state.key.secret,
        state.next_packet_number,
        header_of(state),
        channel_frame::frames_written(frames),
    ));
    let plain = header_of(state) + ciphertext_of(state, frames, answers);
    let sample = packet::sample_of(state.announce.channel_id, plain);
    assert(masks(answers, cipher, state.announce.header_secret, sample));
    packet_laws::lemma_plain_header(
        state.announce.channel_id,
        state.next_packet_number,
        state.key_phase(),
    );
}

/// With a cryptographic library that works, frames that a packet can carry are
/// written, if the buffer has room for them.
pub proof fn law_write_succeeds(
    state: SendView,
    frames: Seq<ChannelFrameView>,
    out: Seq<u8>,
    answers: Answers,
)
    requires
        state.valid(),
        works(answers),
        frames.len() > 0,
        channel_frame::frames_valid(frames),
        state.next_packet_number < u64::MAX,
        packet_of(state, frames, answers).len() <= out.len(),
    ensures
        write(state, frames, out, answers) == (
            (SendView {
                next_packet_number: (state.next_packet_number + 1) as u64,
                ..state.idle()
            }),
            send::overwritten(out, packet_of(state, frames, answers)),
            Ok::<ChannelSendOutputView, Error>(output_of(state, frames, answers)),
        ),
{
    reveal_with_fuel(run_send, 5);
    lemma_packet_parts(state, frames, answers);
    let cipher = algorithms::cipher_of(state.announce.aead_algorithm)->Ok_0;
    let header = header_of(state);
    let ciphertext = ciphertext_of(state, frames, answers);
    assert(seals(
        answers,
        cipher,
        state.key.secret,
        state.next_packet_number,
        header,
        channel_frame::frames_written(frames),
    ));
    let packet = packet_of(state, frames, answers);
    assert(hashes(answers, state.integrity_hash.function(), packet));
    let (sealing, step) = state.start(frames);
    assert(sealing == state.at(SendStageView::Seal { header }));
    assert(answers(step->Await_0) == Ok::<Seq<u8>, Error>(ciphertext));
    let (masking, step) = sealing.sealed(header, ciphertext);
    assert(masking == state.at(SendStageView::Mask { packet: header + ciphertext }));
    let (hashing, buffer, step) = masking.masked(
        header + ciphertext,
        mask_of(state, frames, answers),
        out,
    );
    assert(buffer == send::overwritten(out, packet));
}

// ---------------------------------------------------------------------------
// Receiver
// ---------------------------------------------------------------------------

proof fn lemma_near_max(packet_number: u64, largest: u64)
    requires
        packet::near(packet_number, largest, PACKET_NUMBER_LEN),
    ensures
        packet::near(
            packet_number,
            if largest < packet_number {
                packet_number
            } else {
                largest
            },
            PACKET_NUMBER_LEN,
        ),
{
    codec::lemma_pow256();
}

/// The header of the packet that a sender sent is read as it was written.
proof fn lemma_sent_header(
    sender: SendView,
    frames: Seq<ChannelFrameView>,
    answers: Answers,
    largest: u64,
)
    requires
        sender.valid(),
        works(answers),
        packet::near(sender.next_packet_number, largest, PACKET_NUMBER_LEN),
    ensures
        packet::opening_mask_request(sender.announce, packet_of(sender, frames, answers)) is Ok,
        answers(
            packet::opening_mask_request(
                sender.announce,
                packet_of(sender, frames, answers),
            )->Ok_0,
        ) == Ok::<Seq<u8>, Error>(mask_of(sender, frames, answers)),
        packet::open_header(
            sender.announce,
            packet_of(sender, frames, answers),
            mask_of(sender, frames, answers),
            largest,
        ) == Ok::<(DecryptedChannelHeader, Seq<u8>), Error>(
            (
                DecryptedChannelHeader {
                    packet_number: sender.next_packet_number,
                    key_phase: sender.key_phase(),
                    header_end: header_of(sender).len() as usize,
                },
                header_of(sender) + ciphertext_of(sender, frames, answers),
            ),
        ),
        header_of(sender).len() <= usize::MAX,
{
    lemma_packet_parts(sender, frames, answers);
    packet_laws::law_header_roundtrip(
        sender.announce,
        sender.next_packet_number,
        sender.key_phase(),
        ciphertext_of(sender, frames, answers),
        mask_of(sender, frames, answers),
        largest,
    );
}

/// What a receiver makes of the header of a packet, when `largest` is the largest
/// packet number that it has seen.
pub open spec fn read_as(
    announce: AnnounceView,
    packet: Seq<u8>,
    largest: u64,
    answers: Answers,
) -> Result<ParsedChannelPacket, Error> {
    match packet::opening_mask_request(announce, packet) {
        Err(e) => Err(e),
        Ok(request) => match answers(request) {
            Err(e) => Err(e),
            Ok(mask) => packet::metadata(announce, packet, mask, largest),
        },
    }
}

/// A packet whose header cannot be read is refused, and one whose header can be read
/// goes on with what the header says.
pub proof fn law_arrival_reads_header(state: ReceiveView, packet: Seq<u8>, answers: Answers)
    ensures
        finish(state.packet_arrived(packet), answers) == match read_as(
            state.announce,
            packet,
            state.largest,
            answers,
        ) {
            Err(e) => (state.idle(), Err::<Seq<ChannelDatagramView>, Error>(e)),
            Ok(parsed) => finish(state.parsed(packet, parsed), answers),
        },
{
    let (first, step) = state.packet_arrived(packet);
    if let ReceiveStepView::Await(request) = step {
        let reply = answers(request);
        let next = first.answered(reply);
        assert(first.idle() == state.idle());
        law_receive_ends(first, reply);
        if let Ok(parsed) = read_as(state.announce, packet, state.largest, answers) {
            assert(next == first.parsed(packet, parsed));
            assert(first.parsed(packet, parsed) == state.parsed(packet, parsed));
        } else {
            reveal_with_fuel(run_receive, 2);
        }
    }
}

/// The first answer for a packet that a sender sent gives its number and its key
/// phase.
proof fn lemma_sent_arrives(
    state: ReceiveView,
    sender: SendView,
    frames: Seq<ChannelFrameView>,
    answers: Answers,
)
    requires
        sender.valid(),
        works(answers),
        state.announce == sender.announce,
        packet::near(sender.next_packet_number, state.largest, PACKET_NUMBER_LEN),
    ensures
        finish(state.packet_arrived(packet_of(sender, frames, answers)), answers) == finish(
            state.parsed(
                packet_of(sender, frames, answers),
                ParsedChannelPacket {
                    packet_number: sender.next_packet_number,
                    key_phase: sender.key_phase(),
                },
            ),
            answers,
        ),
{
    lemma_sent_header(sender, frames, answers, state.largest);
    law_arrival_reads_header(state, packet_of(sender, frames, answers), answers);
}

/// A packet that a sender sent, and whose hash is known, is opened once its hash
/// is looked at.
#[verifier::rlimit(30)]
proof fn lemma_sent_opens(
    state: ReceiveView,
    queue: ReleaseQueueView,
    sender: SendView,
    frames: Seq<ChannelFrameView>,
    answers: Answers,
)
    requires
        sender.valid(),
        works(answers),
        frames.len() > 0,
        channel_frame_laws::readable_frames(sender.announce.channel_id, frames),
        state.integrity_hash == sender.integrity_hash,
        state.announce == sender.announce,
        packet::near(sender.next_packet_number, state.largest, PACKET_NUMBER_LEN),
        state.pending.contains_key(sender.next_packet_number),
        state.pending[sender.next_packet_number].packet == packet_of(sender, frames, answers),
        state.integrity_hashes.contains_key(sender.next_packet_number),
        state.integrity_hashes[sender.next_packet_number] == hash_of(
            sender,
            packet_of(sender, frames, answers),
            answers,
        ),
        state.stage == Some(
            ReceiveStageView::Digest {
                packet_number: sender.next_packet_number,
                key: sender.key,
                queue,
            },
        ),
    ensures
        run_receive(
            state,
            ReceiveStepView::Await(state.hash_request(packet_of(sender, frames, answers))),
            answers,
        ) == finish(
            (ReceiveView {
                pending: state.pending.remove(sender.next_packet_number),
                accepted: state.accepted.insert(sender.next_packet_number),
                ..state.idle()
            }).delivered(sender.next_packet_number, frames).advance(
                (ReleaseQueueView {
                    released: queue.released + receive::datagrams_of(
                        sender.announce.channel_id,
                        sender.next_packet_number,
                        frames,
                    ),
                    ..queue
                }),
            ),
            answers,
        ),
{
    let n = sender.next_packet_number;
    let key = sender.key;
    let packet = packet_of(sender, frames, answers);
    let header = header_of(sender);
    let ciphertext = ciphertext_of(sender, frames, answers);
    let payload = channel_frame::frames_written(frames);
    let mask = mask_of(sender, frames, answers);
    let cipher = algorithms::cipher_of(sender.announce.aead_algorithm)->Ok_0;
    lemma_packet_parts(sender, frames, answers);
    lemma_sent_header(sender, frames, answers, state.largest);
    assert(hashes(answers, sender.integrity_hash.function(), packet));
    let digest = answers(state.hash_request(packet))->Ok_0;
    // The hash is right.
    let opened_header = ReceiveView { pending: state.pending.remove(n), ..state.idle() }.at(
        ReceiveStageView::Header { packet_number: n, key, packet, queue },
    );
    let mask_step = ReceiveStepView::Await(
        packet::opening_mask_request(state.announce, packet)->Ok_0,
    );
    assert(state.answered(Ok(digest)) == (opened_header, mask_step));
    // The header is read.
    let opening = opened_header.at(
        ReceiveStageView::Payload { packet_number: n, key, key_phase: sender.key_phase(), queue },
    );
    let request = open_of(cipher, key.secret, key.from_packet_number, n, header, ciphertext);
    let plain = header + ciphertext;
    assert(plain.take(header.len() as int) =~= header);
    assert(plain.skip(header.len() as int) =~= ciphertext);
    assert(opened_header.answered(Ok(mask)) == (opening, ReceiveStepView::Await(request)));
    // The payload is opened.
    assert(seals(answers, cipher, key.secret, n, header, payload));
    assert(answers(request) == Ok::<Seq<u8>, Error>(payload));
    channel_frame_laws::law_channel_frames_roundtrip(sender.announce.channel_id, frames);
    let last = opening.answered(Ok(payload));
    assert(opening.idle() == (ReceiveView { pending: state.pending.remove(n), ..state.idle() }));
    law_receive_ends(opening, Ok(payload));
    assert(run_receive(opening, ReceiveStepView::Await(request), answers) == finish(last, answers));
    assert(run_receive(opened_header, mask_step, answers) == run_receive(
        opening,
        ReceiveStepView::Await(request),
        answers,
    ));
}

/// The receiver after it opened a packet.
pub open spec fn received(
    state: ReceiveView,
    packet_number: u64,
    frames: Seq<ChannelFrameView>,
) -> ReceiveView {
    (ReceiveView {
        accepted: state.accepted.insert(packet_number),
        largest: if state.largest < packet_number {
            packet_number
        } else {
            state.largest
        },
        ..state.idle()
    }).delivered(packet_number, frames)
}

/// A packet that a sender sent is released as soon as it arrives, if the receiver
/// has the sender's key and the hash that the sender told. Its datagrams come out
/// as they went in, and it will be acknowledged.
pub proof fn law_sent_packet_released(
    state: ReceiveView,
    sender: SendView,
    frames: Seq<ChannelFrameView>,
    answers: Answers,
)
    requires
        sender.valid(),
        works(answers),
        frames.len() > 0,
        channel_frame_laws::readable_frames(sender.announce.channel_id, frames),
        state.valid(),
        state.announce == sender.announce,
        packet::near(sender.next_packet_number, state.largest, PACKET_NUMBER_LEN),
        !state.accepted.contains(sender.next_packet_number),
        !state.pending.contains_key(sender.next_packet_number),
        receive::newest_key(state.keys, sender.next_packet_number, sender.key_phase()) == Some(
            sender.key,
        ),
        state.integrity_hashes.contains_key(sender.next_packet_number),
        state.integrity_hashes[sender.next_packet_number] == output_of(
            sender,
            frames,
            answers,
        ).integrity.packet_hashes,
    ensures
        finish(state.packet_arrived(packet_of(sender, frames, answers)), answers) == (
            received(state, sender.next_packet_number, frames),
            Ok::<Seq<ChannelDatagramView>, Error>(
                receive::datagrams_of(
                    sender.announce.channel_id,
                    sender.next_packet_number,
                    frames,
                ),
            ),
        ),
{
    let n = sender.next_packet_number;
    let packet = packet_of(sender, frames, answers);
    lemma_sent_arrives(state, sender, frames, answers);
    lemma_near_max(n, state.largest);
    let seen = ReceiveView {
        largest: if state.largest < n {
            n
        } else {
            state.largest
        },
        ..state.idle()
    };
    let waiting = ReceiveView {
        pending: seen.pending.insert(n, PendingView { packet, key_phase: sender.key_phase() }),
        ..seen
    };
    let queue = ReleaseQueueView { rest: seq![n].skip(1), released: Seq::empty() };
    assert(seq![n].skip(1) =~= Seq::empty());
    let digesting = waiting.at(
        ReceiveStageView::Digest { packet_number: n, key: sender.key, queue },
    );
    assert(waiting.advance(ReleaseQueueView { rest: seq![n], released: Seq::empty() }) == (
        digesting,
        ReceiveStepView::Await(waiting.hash_request(packet)),
    ));
    lemma_sent_opens(digesting, queue, sender, frames, answers);
    assert(waiting.pending.remove(n) =~= state.pending);
    let dgs = receive::datagrams_of(sender.announce.channel_id, n, frames);
    assert(queue.released + dgs =~= dgs);
}

/// A packet waits, and nothing is released or acknowledged, as long as its hash or
/// its key is missing.
pub proof fn law_packet_waits(
    state: ReceiveView,
    packet: Seq<u8>,
    parsed: ParsedChannelPacket,
    answers: Answers,
)
    requires
        !state.accepted.contains(parsed.packet_number),
        !state.pending.contains_key(parsed.packet_number),
        !state.integrity_hashes.contains_key(parsed.packet_number) || receive::newest_key(
            state.keys,
            parsed.packet_number,
            parsed.key_phase,
        ) is None,
    ensures
        finish(state.parsed(packet, parsed), answers) == (
            with_waiting(state, packet, parsed),
            Ok::<Seq<ChannelDatagramView>, Error>(Seq::empty()),
        ),
{
    let n = parsed.packet_number;
    assert(seq![n].skip(1) =~= Seq::empty());
    let next = with_waiting(state, packet, parsed);
    assert(next.ready(n) is None);
    reveal_with_fuel(ReceiveView::advance, 2);
    assert(next.advance(ReleaseQueueView { rest: seq![n], released: Seq::empty() }) == (
        next,
        ReceiveStepView::Done(Ok(Seq::<ChannelDatagramView>::empty())),
    ));
}

/// A packet whose number was seen before is dropped: nothing is released, and
/// nothing but the largest number that was seen can change.
pub proof fn law_duplicate_dropped(
    state: ReceiveView,
    packet: Seq<u8>,
    parsed: ParsedChannelPacket,
    answers: Answers,
)
    requires
        state.accepted.contains(parsed.packet_number) || state.pending.contains_key(
            parsed.packet_number,
        ),
    ensures
        finish(state.parsed(packet, parsed), answers) == (
            (ReceiveView {
                largest: if state.largest < parsed.packet_number {
                    parsed.packet_number
                } else {
                    state.largest
                },
                ..state.idle()
            }),
            Ok::<Seq<ChannelDatagramView>, Error>(Seq::empty()),
        ),
{
}

/// A packet that was released is not released again when it comes once more.
pub proof fn law_released_once(
    state: ReceiveView,
    sender: SendView,
    frames: Seq<ChannelFrameView>,
    answers: Answers,
)
    requires
        sender.valid(),
        works(answers),
        state.announce == sender.announce,
        packet::near(sender.next_packet_number, state.largest, PACKET_NUMBER_LEN),
    ensures
        finish(
            received(state, sender.next_packet_number, frames).packet_arrived(
                packet_of(sender, frames, answers),
            ),
            answers,
        ) == (
            received(state, sender.next_packet_number, frames),
            Ok::<Seq<ChannelDatagramView>, Error>(Seq::empty()),
        ),
{
    let n = sender.next_packet_number;
    let next = received(state, n, frames);
    lemma_near_max(n, state.largest);
    lemma_sent_arrives(next, sender, frames, answers);
    law_duplicate_dropped(
        next,
        packet_of(sender, frames, answers),
        ParsedChannelPacket { packet_number: n, key_phase: sender.key_phase() },
        answers,
    );
}

/// The receiver with a packet more that waits.
pub open spec fn with_waiting(
    state: ReceiveView,
    packet: Seq<u8>,
    parsed: ParsedChannelPacket,
) -> ReceiveView {
    ReceiveView {
        pending: state.pending.insert(
            parsed.packet_number,
            PendingView { packet, key_phase: parsed.key_phase },
        ),
        largest: if state.largest < parsed.packet_number {
            parsed.packet_number
        } else {
            state.largest
        },
        ..state.idle()
    }
}

/// A packet whose hash is not the one that it has to have is refused. Nothing is
/// released, and the packet stays where it is.
pub proof fn law_hash_mismatch_refused(
    state: ReceiveView,
    packet: Seq<u8>,
    parsed: ParsedChannelPacket,
    answers: Answers,
)
    requires
        !state.accepted.contains(parsed.packet_number),
        !state.pending.contains_key(parsed.packet_number),
        state.integrity_hashes.contains_key(parsed.packet_number),
        receive::newest_key(state.keys, parsed.packet_number, parsed.key_phase) is Some,
        answers(state.hash_request(packet)) matches Ok(digest) && !state.hash_right(
            parsed.packet_number,
            digest,
        ),
    ensures
        finish(state.parsed(packet, parsed), answers) == (
            with_waiting(state, packet, parsed),
            Err::<Seq<ChannelDatagramView>, Error>(Error::Decrypt),
        ),
{
    let n = parsed.packet_number;
    let waiting = with_waiting(state, packet, parsed);
    let queue = ReleaseQueueView { rest: seq![n].skip(1), released: Seq::empty() };
    let key = receive::newest_key(state.keys, n, parsed.key_phase)->Some_0;
    let digesting = waiting.at(ReceiveStageView::Digest { packet_number: n, key, queue });
    let step = ReceiveStepView::Await(waiting.hash_request(packet));
    assert(waiting.advance(ReleaseQueueView { rest: seq![n], released: Seq::empty() }) == (
        digesting,
        step,
    ));
    let digest = answers(state.hash_request(packet))->Ok_0;
    assert(digesting.answered(Ok(digest)) == waiting.failed(Error::Decrypt));
    reveal_with_fuel(run_receive, 2);
}

proof fn lemma_one_waits(n: u64, packet: PendingView)
    ensures
        ordered::ascending(Map::<u64, PendingView>::empty().insert(n, packet).dom()) == seq![n],
{
    let s = seq![n];
    assert(s.to_set() =~= Map::<u64, PendingView>::empty().insert(n, packet).dom()) by {
        assert(s[0] == n);
        assert(s.contains(n));
    }
    ordered::lemma_ascending(s);
}

proof fn lemma_only_key(key: KeyView, packet_number: u64, key_phase: bool)
    requires
        key.from_packet_number <= packet_number,
        (key.key_sequence % 2 == 1) == key_phase,
    ensures
        receive::newest_key(
            Map::<u64, KeyView>::empty().insert(key.key_sequence, key),
            packet_number,
            key_phase,
        ) == Some(key),
{
    let keys = Map::<u64, KeyView>::empty().insert(key.key_sequence, key);
    let s = key.key_sequence;
    assert(receive::key_matches(keys, packet_number, key_phase, s));
    assert forall|other: u64| receive::key_matches(keys, packet_number, key_phase, other) implies
        other <= s by {}
    let chosen = choose|sequence: u64| #[trigger]
        receive::key_matches(keys, packet_number, key_phase, sequence) && forall|other: u64|
            receive::key_matches(keys, packet_number, key_phase, other) ==> other <= sequence;
    assert(receive::key_matches(keys, packet_number, key_phase, chosen));
}

proof fn lemma_none_ready(state: ReceiveView, n: u64)
    requires
        state.stage is None,
        state.ready(n) is None,
    ensures
        state.advance(ReleaseQueueView { rest: seq![n], released: Seq::empty() }) == (
            state,
            ReceiveStepView::Done(Ok(Seq::<ChannelDatagramView>::empty())),
        ),
{
    reveal_with_fuel(ReceiveView::advance, 2);
    assert(seq![n].skip(1) =~= Seq::empty());
}

/// The hash that a sender tells is taken by a receiver.
proof fn lemma_integrity_taken(
    state: ReceiveView,
    sender: SendView,
    frames: Seq<ChannelFrameView>,
    answers: Answers,
)
    requires
        sender.valid(),
        works(answers),
        state.announce == sender.announce,
        state.integrity_hash == sender.integrity_hash,
    ensures
        state.integrity_inserted(output_of(sender, frames, answers).integrity) == (ReceiveView {
            integrity_hashes: state.integrity_hashes.insert(
                sender.next_packet_number,
                hash_of(sender, packet_of(sender, frames, answers), answers),
            ),
            ..state.idle()
        }).release_ready(),
{
    let packet = packet_of(sender, frames, answers);
    let n = sender.next_packet_number;
    let hash = hash_of(sender, packet, answers);
    let len = sender.integrity_hash.len();
    assert(hashes(answers, sender.integrity_hash.function(), packet));
    algorithms::law_hash_len(sender.announce.integrity_hash_algorithm);
    assert(hash.len() == len);
    assert(receive::hash_count(output_of(sender, frames, answers).integrity, len) == Ok::<
        u64,
        Error,
    >(1)) by {
        assert(1 * len == hash.len());
    }
    assert(receive::nth_hash(hash, len, 0) =~= hash);
    assert(receive::with_hashes(state.integrity_hashes, n, hash, len, 1)
        =~= state.integrity_hashes.insert(n, hash));
}

/// A packet that a sender sent waits in a receiver that knows neither the key nor
/// the hash. It still waits when the key comes, and is released when the hash
/// comes.
pub proof fn law_released_after_key_and_hash(
    state: ReceiveView,
    sender: SendView,
    frames: Seq<ChannelFrameView>,
    answers: Answers,
)
    requires
        sender.valid(),
        works(answers),
        frames.len() > 0,
        channel_frame_laws::readable_frames(sender.announce.channel_id, frames),
        state.valid(),
        state.stage is None,
        state.announce == sender.announce,
        packet::near(sender.next_packet_number, state.largest, PACKET_NUMBER_LEN),
        state.pending == Map::<u64, PendingView>::empty(),
        state.keys == Map::<u64, KeyView>::empty(),
        !state.accepted.contains(sender.next_packet_number),
        !state.integrity_hashes.contains_key(sender.next_packet_number),
    ensures
        ({
            let (first, result) = finish(
                state.packet_arrived(packet_of(sender, frames, answers)),
                answers,
            );
            &&& result == Ok::<Seq<ChannelDatagramView>, Error>(Seq::empty())
            &&& first.datagrams == state.datagrams && first.acks == state.acks
            &&& ({
                let (second, result) = finish(first.key_inserted(sender.key), answers);
                &&& result == Ok::<Seq<ChannelDatagramView>, Error>(Seq::empty())
                &&& second.datagrams == state.datagrams && second.acks == state.acks
                &&& ({
                    let datagrams = receive::datagrams_of(
                        sender.announce.channel_id,
                        sender.next_packet_number,
                        frames,
                    );
                    let (third, result) = finish(
                        second.integrity_inserted(output_of(sender, frames, answers).integrity),
                        answers,
                    );
                    &&& result == Ok::<Seq<ChannelDatagramView>, Error>(datagrams)
                    &&& third.datagrams == state.datagrams + datagrams
                    &&& third.acks == state.acks.record(sender.next_packet_number)
                    &&& third.accepted == state.accepted.insert(sender.next_packet_number)
                    &&& third.pending == Map::<u64, PendingView>::empty()
                })
            })
        }),
{
    let n = sender.next_packet_number;
    let phase = sender.key_phase();
    let packet = packet_of(sender, frames, answers);
    let parsed = ParsedChannelPacket { packet_number: n, key_phase: phase };
    let pending = PendingView { packet, key_phase: phase };
    lemma_sent_arrives(state, sender, frames, answers);
    law_packet_waits(state, packet, parsed, answers);
    lemma_near_max(n, state.largest);
    let first = finish(state.packet_arrived(packet), answers).0;
    assert(first.pending == Map::<u64, PendingView>::empty().insert(n, pending));
    lemma_one_waits(n, pending);
    let second = ReceiveView {
        keys: first.keys.insert(sender.key.key_sequence, sender.key),
        ..first
    };
    assert(second.ready(n) is None);
    lemma_none_ready(second, n);
    assert(first.key_inserted(sender.key) == second.release_ready());
    assert(finish(first.key_inserted(sender.key), answers).0 == second);
    let hash = hash_of(sender, packet, answers);
    lemma_integrity_taken(second, sender, frames, answers);
    let third = ReceiveView {
        integrity_hashes: second.integrity_hashes.insert(n, hash),
        ..second
    };
    lemma_only_key(sender.key, n, phase);
    assert(third.ready(n) == Some(sender.key));
    let queue = ReleaseQueueView { rest: seq![n].skip(1), released: Seq::empty() };
    assert(seq![n].skip(1) =~= Seq::empty());
    let digesting = third.at(
        ReceiveStageView::Digest { packet_number: n, key: sender.key, queue },
    );
    assert(third.advance(ReleaseQueueView { rest: seq![n], released: Seq::empty() }) == (
        digesting,
        ReceiveStepView::Await(third.hash_request(packet)),
    ));
    algorithms::law_hash_len(sender.announce.integrity_hash_algorithm);
    assert(hashes(answers, sender.integrity_hash.function(), packet));
    lemma_sent_opens(digesting, queue, sender, frames, answers);
    assert(third.pending.remove(n) =~= Map::<u64, PendingView>::empty());
    let dgs = receive::datagrams_of(sender.announce.channel_id, n, frames);
    assert(queue.released + dgs =~= dgs);
}

// ---------------------------------------------------------------------------
// What is released
// ---------------------------------------------------------------------------

/// Whether the packet `n` waits in `base`, its key is known, and its hash is the
/// one that it has to have.
pub open spec fn vouched_for(base: ReceiveView, answers: Answers, n: u64) -> bool {
    &&& base.ready(n) is Some
    &&& answers(base.hash_request(base.pending[n].packet)) matches Ok(digest) && base.hash_right(
        n,
        digest,
    )
}

/// The datagrams that were released since `base`.
pub open spec fn newly_released(base: ReceiveView, state: ReceiveView) -> Seq<ChannelDatagramView> {
    state.datagrams.skip(base.datagrams.len() as int)
}

/// What holds of the receiver while it goes through the packets that wait in
/// `base`: what was released is behind what was there, in order, and comes from
/// packets that are vouched for, and only such packets were recorded to be
/// acknowledged.
pub open spec fn releasing(base: ReceiveView, state: ReceiveView, answers: Answers) -> bool {
    &&& state.announce == base.announce
    &&& state.keys == base.keys
    &&& state.integrity_hash == base.integrity_hash
    &&& state.integrity_hashes == base.integrity_hashes
    &&& forall|n: u64| #[trigger]
        state.pending.contains_key(n) ==> base.pending.contains_key(n) && state.pending[n]
            == base.pending[n]
    &&& base.datagrams.len() <= state.datagrams.len()
    &&& state.datagrams.take(base.datagrams.len() as int) == base.datagrams
    &&& forall|i: int|
        0 <= i < newly_released(base, state).len() ==> vouched_for(
            base,
            answers,
            (#[trigger] newly_released(base, state)[i]).packet_number,
        )
    &&& forall|n: u64| #[trigger]
        state.acks.recorded.contains(n) ==> base.acks.recorded.contains(n) || vouched_for(
            base,
            answers,
            n,
        )
}

/// What holds of the packet that is being worked on, and of the next step.
pub open spec fn releasing_step(
    base: ReceiveView,
    state: ReceiveView,
    step: ReceiveStepView,
    answers: Answers,
) -> bool {
    match state.stage {
        None => step matches ReceiveStepView::Done(result) && (result matches Ok(released)
            ==> released == newly_released(base, state)),
        Some(ReceiveStageView::Digest { packet_number, key: _, queue }) => {
            &&& queue.released == newly_released(base, state)
            &&& state.ready(packet_number) is Some
            &&& step == ReceiveStepView::Await(
                state.hash_request(state.pending[packet_number].packet),
            )
        },
        Some(ReceiveStageView::Header { packet_number, key: _, packet: _, queue }) => {
            &&& queue.released == newly_released(base, state)
            &&& vouched_for(base, answers, packet_number)
            &&& step is Await
        },
        Some(ReceiveStageView::Payload { packet_number, key: _, key_phase: _, queue }) => {
            &&& queue.released == newly_released(base, state)
            &&& vouched_for(base, answers, packet_number)
            &&& step is Await
        },
        _ => false,
    }
}

proof fn lemma_datagrams_of(channel_id: Seq<u8>, n: u64, frames: Seq<ChannelFrameView>)
    ensures
        forall|i: int|
            0 <= i < receive::datagrams_of(channel_id, n, frames).len() ==> (
            #[trigger] receive::datagrams_of(channel_id, n, frames)[i]).packet_number == n,
    decreases frames.len(),
{
    if frames.len() > 0 {
        let all = receive::datagrams_of(channel_id, n, frames);
        let init = receive::datagrams_of(channel_id, n, frames.drop_last());
        lemma_datagrams_of(channel_id, n, frames.drop_last());
        assert forall|i: int| 0 <= i < all.len() implies (#[trigger] all[i]).packet_number == n by {
            if i < init.len() {
                assert(all[i] == init[i]);
            }
        }
    }
}

proof fn lemma_advance_releasing(
    base: ReceiveView,
    state: ReceiveView,
    queue: ReleaseQueueView,
    answers: Answers,
)
    requires
        releasing(base, state, answers),
        queue.released == newly_released(base, state),
    ensures
        releasing(base, state.advance(queue).0, answers),
        releasing_step(base, state.advance(queue).0, state.advance(queue).1, answers),
    decreases queue.rest.len(),
{
    if queue.rest.len() > 0 {
        let next = ReleaseQueueView { rest: queue.rest.skip(1), ..queue };
        if state.ready(queue.rest[0]) is None {
            lemma_advance_releasing(base, state, next, answers);
        }
    }
}

proof fn lemma_answer_releasing(
    base: ReceiveView,
    state: ReceiveView,
    step: ReceiveStepView,
    answers: Answers,
)
    requires
        releasing(base, state, answers),
        releasing_step(base, state, step, answers),
        step is Await,
    ensures
        releasing(base, state.answered(answers(step->Await_0)).0, answers),
        releasing_step(
            base,
            state.answered(answers(step->Await_0)).0,
            state.answered(answers(step->Await_0)).1,
            answers,
        ),
{
    let reply = answers(step->Await_0);
    let (next, next_step) = state.answered(reply);
    if let Ok(bytes) = reply {
        match state.stage {
            Some(ReceiveStageView::Digest { packet_number, key, queue }) => {
                assert(state.pending.contains_key(packet_number));
                if state.hash_right(packet_number, bytes) {
                    assert(base.ready(packet_number) is Some);
                    assert(vouched_for(base, answers, packet_number));
                }
            },
            Some(ReceiveStageView::Payload { packet_number, key, key_phase, queue }) => {
                if let Ok(packet) = packet::opened(
                    state.announce,
                    key,
                    packet_number,
                    key_phase,
                    bytes,
                ) {
                    let dgs = receive::datagrams_of(
                        state.announce.channel_id,
                        packet_number,
                        packet.frames,
                    );
                    lemma_datagrams_of(state.announce.channel_id, packet_number, packet.frames);
                    let delivered = ReceiveView {
                        accepted: state.accepted.insert(packet_number),
                        ..state.idle()
                    }.delivered(packet_number, packet.frames);
                    let was = newly_released(base, state);
                    assert(newly_released(base, delivered) =~= was + dgs);
                    assert(delivered.datagrams.take(base.datagrams.len() as int)
                        =~= state.datagrams.take(base.datagrams.len() as int));
                    assert forall|i: int| 0 <= i < newly_released(base, delivered).len() implies
                        vouched_for(
                        base,
                        answers,
                        (#[trigger] newly_released(base, delivered)[i]).packet_number,
                    ) by {
                        if i < was.len() {
                            assert(newly_released(base, delivered)[i] == was[i]);
                        } else {
                            assert(newly_released(base, delivered)[i] == dgs[i - was.len()]);
                        }
                    }
                    lemma_advance_releasing(
                        base,
                        delivered,
                        ReleaseQueueView { released: queue.released + dgs, ..queue },
                        answers,
                    );
                }
            },
            _ => {},
        }
    }
}

proof fn lemma_run_releasing(
    base: ReceiveView,
    state: ReceiveView,
    step: ReceiveStepView,
    answers: Answers,
)
    requires
        releasing(base, state, answers),
        releasing_step(base, state, step, answers),
    ensures
        releasing(base, run_receive(state, step, answers).0, answers),
        run_receive(state, step, answers).1 matches Ok(released) ==> released == newly_released(
            base,
            run_receive(state, step, answers).0,
        ),
    decreases receive_steps_left(state),
{
    if let ReceiveStepView::Await(request) = step {
        let reply = answers(request);
        let (next, next_step) = state.answered(reply);
        lemma_answer_releasing(base, state, step, answers);
        law_receive_ends(state, reply);
        if receive_steps_left(next) < receive_steps_left(state) {
            lemma_run_releasing(base, next, next_step, answers);
        }
    }
}

proof fn lemma_base_releasing(base: ReceiveView, answers: Answers)
    ensures
        releasing(base, base, answers),
        newly_released(base, base) == Seq::<ChannelDatagramView>::empty(),
{
    assert(base.datagrams.take(base.datagrams.len() as int) =~= base.datagrams);
    assert(newly_released(base, base) =~= Seq::<ChannelDatagramView>::empty());
}

/// Going through the packets that wait releases datagrams only of packets whose
/// key is known and whose hash is right, behind the datagrams that were released
/// before. Where it succeeds, the result is what was released.
pub proof fn law_only_vouched_for_released(state: ReceiveView, answers: Answers)
    ensures
        ({
            let (last, result) = finish(state.release_ready(), answers);
            &&& releasing(state, last, answers)
            &&& result matches Ok(released) ==> last.datagrams == state.datagrams + released
        }),
{
    let queue = ReleaseQueueView {
        rest: ordered::ascending(state.pending.dom()),
        released: Seq::empty(),
    };
    lemma_queue_released(state, queue, answers);
}

/// A packet that arrives is released only if its key is known and its hash is
/// right, and then behind the datagrams that were released before.
pub proof fn law_arrival_vouched_for(
    state: ReceiveView,
    packet: Seq<u8>,
    parsed: ParsedChannelPacket,
    answers: Answers,
)
    ensures
        ({
            let waiting = with_waiting(state, packet, parsed);
            let (last, result) = finish(state.parsed(packet, parsed), answers);
            &&& last.datagrams != state.datagrams ==> vouched_for(
                waiting,
                answers,
                parsed.packet_number,
            )
            &&& result matches Ok(released) ==> last.datagrams == state.datagrams + released
        }),
{
    let n = parsed.packet_number;
    let waiting = with_waiting(state, packet, parsed);
    if state.accepted.contains(n) || state.pending.contains_key(n) {
        law_duplicate_dropped(state, packet, parsed, answers);
        assert(state.datagrams + Seq::<ChannelDatagramView>::empty() =~= state.datagrams);
    } else {
        let queue = ReleaseQueueView { rest: seq![n], released: Seq::empty() };
        assert(state.parsed(packet, parsed) == waiting.advance(queue));
        lemma_queue_released(waiting, queue, answers);
        lemma_single_queue(waiting, n, answers);
    }
}

/// What comes out of a queue is behind what was released before.
proof fn lemma_queue_released(state: ReceiveView, queue: ReleaseQueueView, answers: Answers)
    requires
        queue.released == Seq::<ChannelDatagramView>::empty(),
    ensures
        ({
            let (last, result) = finish(state.advance(queue), answers);
            &&& releasing(state, last, answers)
            &&& result matches Ok(released) ==> last.datagrams == state.datagrams + released
        }),
{
    lemma_base_releasing(state, answers);
    lemma_advance_releasing(state, state, queue, answers);
    let (first, step) = state.advance(queue);
    lemma_run_releasing(state, first, step, answers);
    let (last, result) = finish(state.advance(queue), answers);
    assert(last.datagrams =~= last.datagrams.take(state.datagrams.len() as int) + newly_released(
        state,
        last,
    ));
}

/// A queue of one packet ends without a release, unless the packet is vouched for.
proof fn lemma_single_queue(state: ReceiveView, n: u64, answers: Answers)
    requires
        state.stage is None,
    ensures
        !vouched_for(state, answers, n) ==> finish(
            state.advance(ReleaseQueueView { rest: seq![n], released: Seq::empty() }),
            answers,
        ).0.datagrams == state.datagrams,
{
    let queue = ReleaseQueueView { rest: seq![n], released: Seq::empty() };
    if !vouched_for(state, answers, n) {
        if state.ready(n) is None {
            lemma_none_ready(state, n);
        } else {
            let (first, step) = state.advance(queue);
            let reply = answers(step->Await_0);
            let (next, next_step) = first.answered(reply);
            assert(next_step is Done);
            reveal_with_fuel(run_receive, 2);
        }
    }
}

/// A packet that was opened elsewhere is released only if its key is known and its
/// hash is right.
pub proof fn law_opened_elsewhere_vouched_for(
    state: ReceiveView,
    opened: packet::ChannelPacketView,
    protected_packet: Seq<u8>,
    answers: Answers,
)
    ensures
        finish(state.opened_packet_arrived(opened, protected_packet), answers).1 matches Ok(
            released,
        ) ==> {
            &&& opened.channel_id == state.announce.channel_id
            &&& state.keys.contains_key(opened.key_sequence)
            &&& state.integrity_hashes.contains_key(opened.packet_number)
            &&& answers(state.hash_request(protected_packet)) matches Ok(digest)
                && state.hash_right(opened.packet_number, digest)
            &&& released == receive::datagrams_of(
                state.announce.channel_id,
                opened.packet_number,
                opened.frames,
            )
        },
        finish(state.opened_packet_arrived(opened, protected_packet), answers).1 is Err
            ==> finish(
            state.opened_packet_arrived(opened, protected_packet),
            answers,
        ).0 == state.idle(),
{
    reveal_with_fuel(run_receive, 3);
}

// ---------------------------------------------------------------------------
// Packets that wait among others
// ---------------------------------------------------------------------------

/// Whether the packet that `sender` sent waits in `state`, and its key and its hash
/// are known.
pub open spec fn sent_ready(
    state: ReceiveView,
    sender: SendView,
    frames: Seq<ChannelFrameView>,
    answers: Answers,
) -> bool {
    let n = sender.next_packet_number;
    let packet = packet_of(sender, frames, answers);
    &&& state.announce == sender.announce
    &&& state.integrity_hash == sender.integrity_hash
    &&& packet::near(n, state.largest, PACKET_NUMBER_LEN)
    &&& state.pending.contains_key(n)
    &&& state.pending[n] == PendingView { packet, key_phase: sender.key_phase() }
    &&& receive::newest_key(state.keys, n, sender.key_phase()) == Some(sender.key)
    &&& state.integrity_hashes.contains_key(n)
    &&& state.integrity_hashes[n] == hash_of(sender, packet, answers)
}

/// Whether the packet `n`, which `sender` sent, is being opened or comes later in
/// the queue.
pub open spec fn coming(
    state: ReceiveView,
    step: ReceiveStepView,
    sender: SendView,
    n: u64,
) -> bool {
    match state.stage {
        None => step matches ReceiveStepView::Done(result) && result is Err,
        Some(ReceiveStageView::Digest { packet_number, key, queue }) => {
            &&& step == ReceiveStepView::Await(
                state.hash_request(state.pending[packet_number].packet),
            )
            &&& (packet_number == n && key == sender.key) || (packet_number != n
                && queue.rest.contains(n))
        },
        Some(ReceiveStageView::Header { packet_number, key: _, packet: _, queue }) => {
            step is Await && packet_number != n && queue.rest.contains(n)
        },
        Some(ReceiveStageView::Payload { packet_number, key: _, key_phase: _, queue }) => {
            step is Await && packet_number != n && queue.rest.contains(n)
        },
        _ => false,
    }
}

/// Whether the packet `n` was opened, will be acknowledged, waits no more, and
/// `datagrams` were released for it behind the first `before` ones.
pub open spec fn handed_over(
    state: ReceiveView,
    n: u64,
    datagrams: Seq<ChannelDatagramView>,
    before: nat,
) -> bool {
    &&& state.accepted.contains(n)
    &&& state.acks.recorded.contains(n)
    &&& !state.pending.contains_key(n)
    &&& exists|i: int|
        before <= i && i + datagrams.len() <= state.datagrams.len()
            && #[trigger] state.datagrams.subrange(i, i + datagrams.len()) == datagrams
}

/// Whether `next` goes on from `state`: nothing that was released or opened is taken
/// back, and no packet more waits.
pub open spec fn goes_on(state: ReceiveView, next: ReceiveView) -> bool {
    &&& next.announce == state.announce
    &&& next.largest == state.largest
    &&& state.datagrams.len() <= next.datagrams.len()
    &&& next.datagrams.take(state.datagrams.len() as int) == state.datagrams
    &&& state.accepted.subset_of(next.accepted)
    &&& state.acks.recorded.subset_of(next.acks.recorded)
    &&& next.pending.dom().subset_of(state.pending.dom())
}

/// Whether the receiver goes through a queue, or has come to its end.
pub open spec fn in_queue(state: ReceiveView) -> bool {
    !(state.stage matches Some(ReceiveStageView::Metadata { packet: _ })) && !(
    state.stage matches Some(ReceiveStageView::Authenticated { opened: _ }))
}

proof fn lemma_advance_idle(state: ReceiveView, queue: ReleaseQueueView)
    ensures
        state.advance(queue).0.idle() == state.idle(),
        in_queue(state.advance(queue).0),
    decreases queue.rest.len(),
{
    if queue.rest.len() > 0 {
        lemma_advance_idle(state, ReleaseQueueView { rest: queue.rest.skip(1), ..queue });
    }
}

proof fn lemma_answer_goes_on(state: ReceiveView, reply: Result<Seq<u8>, Error>)
    requires
        in_queue(state),
    ensures
        goes_on(state, state.answered(reply).0),
        in_queue(state.answered(reply).0),
{
    assert(state.datagrams.take(state.datagrams.len() as int) =~= state.datagrams);
    if let (
        Some(ReceiveStageView::Payload { packet_number, key, key_phase, queue }),
        Ok(plaintext),
    ) = (state.stage, reply) {
        if let Ok(packet) = packet::opened(state.announce, key, packet_number, key_phase, plaintext) {
            let dgs = receive::datagrams_of(
                state.announce.channel_id,
                packet_number,
                packet.frames,
            );
            let delivered = ReceiveView {
                accepted: state.accepted.insert(packet_number),
                ..state.idle()
            }.delivered(packet_number, packet.frames);
            lemma_advance_idle(
                delivered,
                ReleaseQueueView { released: queue.released + dgs, ..queue },
            );
            assert(delivered.datagrams.take(state.datagrams.len() as int) =~= state.datagrams);
        }
    }
}

proof fn lemma_run_goes_on(state: ReceiveView, step: ReceiveStepView, answers: Answers)
    requires
        in_queue(state),
    ensures
        goes_on(state, run_receive(state, step, answers).0),
    decreases receive_steps_left(state),
{
    assert(state.datagrams.take(state.datagrams.len() as int) =~= state.datagrams);
    if let ReceiveStepView::Await(request) = step {
        let reply = answers(request);
        let (next, next_step) = state.answered(reply);
        lemma_answer_goes_on(state, reply);
        if receive_steps_left(next) < receive_steps_left(state) {
            lemma_run_goes_on(next, next_step, answers);
            let last = run_receive(next, next_step, answers).0;
            assert(last.datagrams.take(state.datagrams.len() as int) =~= last.datagrams.take(
                next.datagrams.len() as int,
            ).take(state.datagrams.len() as int));
        }
    }
}

proof fn lemma_advance_coming(
    state: ReceiveView,
    queue: ReleaseQueueView,
    sender: SendView,
    frames: Seq<ChannelFrameView>,
    answers: Answers,
)
    requires
        sent_ready(state, sender, frames, answers),
        queue.rest.contains(sender.next_packet_number),
    ensures
        sent_ready(state.advance(queue).0, sender, frames, answers),
        state.advance(queue).1 is Await,
        coming(state.advance(queue).0, state.advance(queue).1, sender, sender.next_packet_number),
        state.advance(queue).0.datagrams == state.datagrams,
    decreases queue.rest.len(),
{
    let n = sender.next_packet_number;
    let next = ReleaseQueueView { rest: queue.rest.skip(1), ..queue };
    if queue.rest[0] != n {
        let i = choose|i: int| 0 <= i < queue.rest.len() && queue.rest[i] == n;
        assert(next.rest[i - 1] == n);
        if state.ready(queue.rest[0]) is None {
            lemma_advance_coming(state, next, sender, frames, answers);
        }
    }
}

proof fn lemma_coming_released(
    state: ReceiveView,
    step: ReceiveStepView,
    sender: SendView,
    frames: Seq<ChannelFrameView>,
    answers: Answers,
    before: nat,
)
    requires
        sender.valid(),
        works(answers),
        frames.len() > 0,
        channel_frame_laws::readable_frames(sender.announce.channel_id, frames),
        sent_ready(state, sender, frames, answers),
        coming(state, step, sender, sender.next_packet_number),
        before <= state.datagrams.len(),
    ensures
        run_receive(state, step, answers).1 is Ok ==> handed_over(
            run_receive(state, step, answers).0,
            sender.next_packet_number,
            receive::datagrams_of(sender.announce.channel_id, sender.next_packet_number, frames),
            before,
        ),
    decreases receive_steps_left(state),
{
    let n = sender.next_packet_number;
    match state.stage {
        Some(ReceiveStageView::Digest { packet_number, key, queue }) if packet_number == n => {
            lemma_opened_released(state, queue, sender, frames, answers, before);
        },
        Some(_) => {
            let reply = answers(step->Await_0);
            let (next, next_step) = state.answered(reply);
            lemma_answer_coming(state, step, reply, sender, frames, answers);
            law_receive_ends(state, reply);
            if next_step is Await {
                lemma_coming_released(next, next_step, sender, frames, answers, before);
            }
        },
        None => {},
    }
}

/// The answer for another packet brings the packet nearer, or ends with an error.
proof fn lemma_answer_coming(
    state: ReceiveView,
    step: ReceiveStepView,
    reply: Result<Seq<u8>, Error>,
    sender: SendView,
    frames: Seq<ChannelFrameView>,
    answers: Answers,
)
    requires
        sent_ready(state, sender, frames, answers),
        coming(state, step, sender, sender.next_packet_number),
        !(state.stage is None),
        !(state.stage matches Some(
            ReceiveStageView::Digest { packet_number, key: _, queue: _ },
        ) && packet_number == sender.next_packet_number),
    ensures
        sent_ready(state.answered(reply).0, sender, frames, answers),
        coming(
            state.answered(reply).0,
            state.answered(reply).1,
            sender,
            sender.next_packet_number,
        ),
        state.datagrams.len() <= state.answered(reply).0.datagrams.len(),
{
    if let (
        Some(ReceiveStageView::Payload { packet_number, key, key_phase, queue }),
        Ok(plaintext),
    ) = (state.stage, reply) {
        if let Ok(packet) = packet::opened(state.announce, key, packet_number, key_phase, plaintext) {
            let dgs = receive::datagrams_of(
                state.announce.channel_id,
                packet_number,
                packet.frames,
            );
            let delivered = ReceiveView {
                accepted: state.accepted.insert(packet_number),
                ..state.idle()
            }.delivered(packet_number, packet.frames);
            lemma_advance_coming(
                delivered,
                ReleaseQueueView { released: queue.released + dgs, ..queue },
                sender,
                frames,
                answers,
            );
        }
    }
}

/// A packet that is looked at is handed over.
proof fn lemma_opened_released(
    state: ReceiveView,
    queue: ReleaseQueueView,
    sender: SendView,
    frames: Seq<ChannelFrameView>,
    answers: Answers,
    before: nat,
)
    requires
        sender.valid(),
        works(answers),
        frames.len() > 0,
        channel_frame_laws::readable_frames(sender.announce.channel_id, frames),
        sent_ready(state, sender, frames, answers),
        state.stage == Some(
            ReceiveStageView::Digest {
                packet_number: sender.next_packet_number,
                key: sender.key,
                queue,
            },
        ),
        before <= state.datagrams.len(),
    ensures
        handed_over(
            run_receive(
                state,
                ReceiveStepView::Await(state.hash_request(packet_of(sender, frames, answers))),
                answers,
            ).0,
            sender.next_packet_number,
            receive::datagrams_of(sender.announce.channel_id, sender.next_packet_number, frames),
            before,
        ),
{
    let n = sender.next_packet_number;
    let dgs = receive::datagrams_of(sender.announce.channel_id, n, frames);
    lemma_sent_opens(state, queue, sender, frames, answers);
    let opened = ReceiveView {
        pending: state.pending.remove(n),
        accepted: state.accepted.insert(n),
        ..state.idle()
    }.delivered(n, frames);
    let rest = ReleaseQueueView { released: queue.released + dgs, ..queue };
    lemma_advance_idle(opened, rest);
    let (first, step) = opened.advance(rest);
    lemma_run_goes_on(first, step, answers);
    let last = run_receive(first, step, answers).0;
    let i = state.datagrams.len() as int;
    assert(last.datagrams.take(opened.datagrams.len() as int) == opened.datagrams);
    assert(last.datagrams.subrange(i, i + dgs.len()) =~= dgs) by {
        assert forall|k: int| 0 <= k < dgs.len() implies last.datagrams[i + k] == dgs[k] by {
            assert(last.datagrams.take(opened.datagrams.len() as int)[i + k]
                == opened.datagrams[i + k]);
        }
    }
}

/// Going through the packets that wait hands over a packet that a sender sent, once
/// its key and its hash are known, whatever else waits, unless one of the other
/// packets is refused.
pub proof fn law_waiting_packet_released(
    state: ReceiveView,
    sender: SendView,
    frames: Seq<ChannelFrameView>,
    answers: Answers,
)
    requires
        sender.valid(),
        works(answers),
        frames.len() > 0,
        channel_frame_laws::readable_frames(sender.announce.channel_id, frames),
        state.pending.dom().finite(),
        sent_ready(state, sender, frames, answers),
    ensures
        finish(state.release_ready(), answers).1 is Ok ==> handed_over(
            finish(state.release_ready(), answers).0,
            sender.next_packet_number,
            receive::datagrams_of(sender.announce.channel_id, sender.next_packet_number, frames),
            state.datagrams.len(),
        ),
{
    let order = ordered::ascending(state.pending.dom());
    let queue = ReleaseQueueView { rest: order, released: Seq::empty() };
    ordered::lemma_ascending_exists(state.pending.dom());
    assert(order.to_set().contains(sender.next_packet_number));
    lemma_advance_coming(state, queue, sender, frames, answers);
    let (first, step) = state.advance(queue);
    lemma_coming_released(first, step, sender, frames, answers, state.datagrams.len());
}

/// The hash that a sender tells releases the packet that waited for it.
pub proof fn law_hash_releases_waiting_packet(
    state: ReceiveView,
    sender: SendView,
    frames: Seq<ChannelFrameView>,
    answers: Answers,
)
    requires
        sender.valid(),
        works(answers),
        frames.len() > 0,
        channel_frame_laws::readable_frames(sender.announce.channel_id, frames),
        state.valid(),
        state.announce == sender.announce,
        packet::near(sender.next_packet_number, state.largest, PACKET_NUMBER_LEN),
        state.pending.contains_key(sender.next_packet_number),
        state.pending[sender.next_packet_number] == (PendingView {
            packet: packet_of(sender, frames, answers),
            key_phase: sender.key_phase(),
        }),
        receive::newest_key(state.keys, sender.next_packet_number, sender.key_phase()) == Some(
            sender.key,
        ),
    ensures
        ({
            let (last, result) = finish(
                state.integrity_inserted(output_of(sender, frames, answers).integrity),
                answers,
            );
            result is Ok ==> handed_over(
                last,
                sender.next_packet_number,
                receive::datagrams_of(
                    sender.announce.channel_id,
                    sender.next_packet_number,
                    frames,
                ),
                state.datagrams.len(),
            )
        }),
{
    lemma_integrity_taken(state, sender, frames, answers);
    law_waiting_packet_released(
        ReceiveView {
            integrity_hashes: state.integrity_hashes.insert(
                sender.next_packet_number,
                hash_of(sender, packet_of(sender, frames, answers), answers),
            ),
            ..state.idle()
        },
        sender,
        frames,
        answers,
    );
}

/// The key of a sender releases the packet that waited for it, unless a newer key is
/// meant for the packet.
pub proof fn law_key_releases_waiting_packet(
    state: ReceiveView,
    sender: SendView,
    frames: Seq<ChannelFrameView>,
    answers: Answers,
)
    requires
        sender.valid(),
        works(answers),
        frames.len() > 0,
        channel_frame_laws::readable_frames(sender.announce.channel_id, frames),
        state.valid(),
        state.announce == sender.announce,
        packet::near(sender.next_packet_number, state.largest, PACKET_NUMBER_LEN),
        state.pending.contains_key(sender.next_packet_number),
        state.pending[sender.next_packet_number] == (PendingView {
            packet: packet_of(sender, frames, answers),
            key_phase: sender.key_phase(),
        }),
        state.integrity_hashes.contains_key(sender.next_packet_number),
        state.integrity_hashes[sender.next_packet_number] == output_of(
            sender,
            frames,
            answers,
        ).integrity.packet_hashes,
        receive::newest_key(
            state.keys.insert(sender.key.key_sequence, sender.key),
            sender.next_packet_number,
            sender.key_phase(),
        ) == Some(sender.key),
    ensures
        ({
            let (last, result) = finish(state.key_inserted(sender.key), answers);
            result is Ok ==> handed_over(
                last,
                sender.next_packet_number,
                receive::datagrams_of(
                    sender.announce.channel_id,
                    sender.next_packet_number,
                    frames,
                ),
                state.datagrams.len(),
            )
        }),
{
    law_waiting_packet_released(
        ReceiveView {
            keys: state.keys.insert(sender.key.key_sequence, sender.key),
            ..state.idle()
        },
        sender,
        frames,
        answers,
    );
}

// ---------------------------------------------------------------------------
// Packets that come again
// ---------------------------------------------------------------------------

proof fn lemma_run_idle(state: ReceiveView, step: ReceiveStepView, answers: Answers)
    requires
        step is Done ==> state.stage is None,
    ensures
        run_receive(state, step, answers).0.stage is None,
    decreases receive_steps_left(state),
{
    if let ReceiveStepView::Await(request) = step {
        let reply = answers(request);
        let (next, next_step) = state.answered(reply);
        law_receive_ends(state, reply);
        if receive_steps_left(next) < receive_steps_left(state) {
            lemma_run_idle(next, next_step, answers);
        }
    }
}

/// The receiver has no packet in work after a packet that arrived was dealt with, and
/// the number of the packet counts as seen.
proof fn lemma_arrival_over(
    state: ReceiveView,
    packet: Seq<u8>,
    parsed: ParsedChannelPacket,
    answers: Answers,
)
    ensures
        ({
            let last = finish(state.parsed(packet, parsed), answers).0;
            &&& last.stage is None
            &&& last.announce == state.announce
            &&& last.largest == if state.largest < parsed.packet_number {
                parsed.packet_number
            } else {
                state.largest
            }
        }),
{
    let n = parsed.packet_number;
    if !(state.accepted.contains(n) || state.pending.contains_key(n)) {
        let waiting = with_waiting(state, packet, parsed);
        let queue = ReleaseQueueView { rest: seq![n], released: Seq::empty() };
        assert(state.parsed(packet, parsed) == waiting.advance(queue));
        lemma_advance_idle(waiting, queue);
        lemma_advance_steps(waiting, queue);
        let (first, step) = waiting.advance(queue);
        lemma_run_goes_on(first, step, answers);
        lemma_run_idle(first, step, answers);
    }
}

/// A packet that was opened or waits is dropped when it comes again: nothing is
/// released, and the receiver stays as it is. `earlier` is the largest packet number
/// that had been seen when the packet came first. The number that it was read as then
/// has to be the nearest to the largest one that was seen by now.
pub proof fn law_repeated_packet_dropped(
    state: ReceiveView,
    packet: Seq<u8>,
    earlier: u64,
    answers: Answers,
)
    requires
        state.valid(),
        read_as(state.announce, packet, earlier, answers) matches Ok(parsed) && (
        state.accepted.contains(parsed.packet_number) || state.pending.contains_key(
            parsed.packet_number,
        )) && packet::near(
            parsed.packet_number,
            state.largest,
            packet_laws::number_len_of(
                packet,
                answers(packet::opening_mask_request(state.announce, packet)->Ok_0)->Ok_0,
            ),
        ),
    ensures
        finish(state.packet_arrived(packet), answers) == (
            state.idle(),
            Ok::<Seq<ChannelDatagramView>, Error>(Seq::empty()),
        ),
{
    let parsed = read_as(state.announce, packet, earlier, answers)->Ok_0;
    let mask = answers(packet::opening_mask_request(state.announce, packet)->Ok_0)->Ok_0;
    packet_laws::law_header_read_again(state.announce, packet, mask, earlier, state.largest);
    law_arrival_reads_header(state, packet, answers);
    law_duplicate_dropped(state, packet, parsed, answers);
}

/// A packet that comes twice in a row is dropped the second time, if it was released
/// or waits after the first time, whoever sent it and whatever the cryptographic
/// library answers.
pub proof fn law_packet_twice_dropped(state: ReceiveView, packet: Seq<u8>, answers: Answers)
    ensures
        ({
            let (last, _) = finish(state.packet_arrived(packet), answers);
            read_as(state.announce, packet, state.largest, answers) matches Ok(parsed) && (
            last.accepted.contains(parsed.packet_number) || last.pending.contains_key(
                parsed.packet_number,
            )) ==> finish(last.packet_arrived(packet), answers) == (
                last,
                Ok::<Seq<ChannelDatagramView>, Error>(Seq::empty()),
            )
        }),
{
    if let Ok(parsed) = read_as(state.announce, packet, state.largest, answers) {
        let (last, _) = finish(state.packet_arrived(packet), answers);
        let mask = answers(packet::opening_mask_request(state.announce, packet)->Ok_0)->Ok_0;
        law_arrival_reads_header(state, packet, answers);
        lemma_arrival_over(state, packet, parsed, answers);
        packet_laws::law_header_read_again(
            state.announce,
            packet,
            mask,
            state.largest,
            last.largest,
        );
        law_arrival_reads_header(last, packet, answers);
        if last.accepted.contains(parsed.packet_number) || last.pending.contains_key(
            parsed.packet_number,
        ) {
            law_duplicate_dropped(last, packet, parsed, answers);
        }
    }
}

} // verus!
