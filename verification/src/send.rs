//! The sending end of a multicast channel.
//!
//! A packet is written in steps. Each step that needs a cryptographic library
//! ends in a request; the answer starts the next one.

use vstd::prelude::*;
use crate::algorithms;
use crate::algorithms::{validate_encryption_algorithm, IntegrityHashAlgorithm};
use crate::channel_frame;
use crate::channel_frame::{ChannelFrame, ChannelFrameView};
use crate::codec;
use crate::error::{Error, Res};
use crate::frame;
use crate::frame::validate_channel_id;
use crate::packet;
use crate::packet::{apply_header_protection, encode_protected_channel_packet, seal_payload, sealing_mask, CryptoRequest, CryptoRequestView};
use crate::types::{copy_bytes, Announce, AnnounceView, Integrity, IntegrityView, Key, KeyView};

verus! {

/// The result of encoding one encrypted multicast channel packet.
#[derive(Debug, PartialEq, Eq)]
pub struct ChannelSendOutput {
    /// The packet number used in the encoded channel packet.
    pub packet_number: u64,
    /// The key sequence used to encrypt the packet.
    pub key_sequence: u64,
    /// The short-header key phase bit encoded into the packet.
    pub key_phase: bool,
    /// The number of bytes written into the caller's output buffer.
    pub packet_len: usize,
    /// The matching `MC_INTEGRITY` payload for the encoded packet.
    pub integrity: Integrity,
}

/// What a [`ChannelSendOutput`] holds.
pub struct ChannelSendOutputView {
    pub packet_number: u64,
    pub key_sequence: u64,
    pub key_phase: bool,
    pub packet_len: usize,
    pub integrity: IntegrityView,
}

impl View for ChannelSendOutput {
    type V = ChannelSendOutputView;

    open spec fn view(&self) -> ChannelSendOutputView {
        ChannelSendOutputView {
            packet_number: self.packet_number,
            key_sequence: self.key_sequence,
            key_phase: self.key_phase,
            packet_len: self.packet_len,
            integrity: self.integrity@,
        }
    }
}

impl Clone for ChannelSendOutput {
    fn clone(&self) -> (copy: Self)
        ensures
            copy@ == self@,
    {
        ChannelSendOutput {
            packet_number: self.packet_number,
            key_sequence: self.key_sequence,
            key_phase: self.key_phase,
            packet_len: self.packet_len,
            integrity: self.integrity.clone(),
        }
    }
}

/// Where the writing of a packet has come to.
#[derive(Debug)]
enum SendStage {
    /// The payload is being encrypted.
    Seal {
        /// The header, without protection.
        header: Vec<u8>,
    },
    /// The header protection mask is being made.
    Mask {
        /// The packet, without header protection.
        packet: Vec<u8>,
    },
    /// The packet was written, and is being hashed.
    Hash {
        /// The number of the packet.
        packet_number: u64,
        /// The length of the packet.
        packet_len: usize,
    },
}

/// Where the writing of a packet has come to, and what is kept for the next step.
pub enum SendStageView {
    Seal { header: Seq<u8> },
    Mask { packet: Seq<u8> },
    Hash { packet_number: u64, packet_len: usize },
}

impl View for SendStage {
    type V = SendStageView;

    closed spec fn view(&self) -> SendStageView {
        match self {
            SendStage::Seal { header } => SendStageView::Seal { header: header@ },
            SendStage::Mask { packet } => SendStageView::Mask { packet: packet@ },
            SendStage::Hash { packet_number, packet_len } => SendStageView::Hash {
                packet_number: *packet_number,
                packet_len: *packet_len,
            },
        }
    }
}

impl Clone for SendStage {
    fn clone(&self) -> (copy: Self)
        ensures
            copy@ == self@,
    {
        match self {
            SendStage::Seal { header } => SendStage::Seal { header: copy_bytes(header) },
            SendStage::Mask { packet } => SendStage::Mask { packet: copy_bytes(packet) },
            SendStage::Hash { packet_number, packet_len } => SendStage::Hash {
                packet_number: *packet_number,
                packet_len: *packet_len,
            },
        }
    }
}

/// What the next thing is in the writing of a packet.
#[derive(Debug, PartialEq, Eq)]
pub enum SendStep {
    /// The answer to a request is needed.
    Await(CryptoRequest),
    /// The writing has ended.
    Done(Res<ChannelSendOutput>),
}

/// What a [`SendStep`] holds.
pub enum SendStepView {
    Await(CryptoRequestView),
    Done(Result<ChannelSendOutputView, Error>),
}

impl View for SendStep {
    type V = SendStepView;

    open spec fn view(&self) -> SendStepView {
        match self {
            SendStep::Await(request) => SendStepView::Await(request@),
            SendStep::Done(Ok(output)) => SendStepView::Done(Ok(output@)),
            SendStep::Done(Err(e)) => SendStepView::Done(Err(*e)),
        }
    }
}

/// Send-side state for encrypted multicast channel packets.
#[derive(Debug)]
pub struct ChannelSendState {
    announce: Announce,
    key: Key,
    integrity_hash: IntegrityHashAlgorithm,
    next_packet_number: u64,
    stage: Option<SendStage>,
}

/// What a [`ChannelSendState`] holds.
pub struct SendView {
    /// The announced properties of the channel.
    pub announce: AnnounceView,
    /// The active key.
    pub key: KeyView,
    /// The packet hash.
    pub integrity_hash: IntegrityHashAlgorithm,
    /// The number of the next packet.
    pub next_packet_number: u64,
    /// The packet that is being written, if one is.
    pub stage: Option<SendStageView>,
}

impl View for ChannelSendState {
    type V = SendView;

    closed spec fn view(&self) -> SendView {
        SendView {
            announce: self.announce@,
            key: self.key@,
            integrity_hash: self.integrity_hash,
            next_packet_number: self.next_packet_number,
            stage: match self.stage {
                None => None,
                Some(stage) => Some(stage@),
            },
        }
    }
}

// ---------------------------------------------------------------------------
// Model
// ---------------------------------------------------------------------------

/// The state of a sender for an announced channel, if it can be had.
pub open spec fn new_sender(announce: AnnounceView, key: KeyView) -> Result<SendView, Error> {
    if !frame::channel_id_valid(announce.channel_id) {
        Err(Error::FrameEncoding)
    } else if !algorithms::encryption_supported(announce.header_protection_algorithm)
        || !algorithms::encryption_supported(announce.aead_algorithm)
        || announce.header_protection_algorithm != announce.aead_algorithm {
        Err(Error::NotAvailable)
    } else if key.channel_id != announce.channel_id {
        Err(Error::FrameEncoding)
    } else {
        match algorithms::integrity_hash_of(announce.integrity_hash_algorithm) {
            Err(e) => Err(e),
            Ok(integrity_hash) => Ok(
                SendView {
                    announce,
                    key,
                    integrity_hash,
                    next_packet_number: key.from_packet_number,
                    stage: None,
                },
            ),
        }
    }
}

/// The buffer after `packet` was written to its front.
pub open spec fn overwritten(out: Seq<u8>, packet: Seq<u8>) -> Seq<u8> {
    packet + out.skip(packet.len() as int)
}

impl SendView {
    /// What holds of every sender.
    pub open spec fn valid(self) -> bool {
        &&& frame::channel_id_valid(self.announce.channel_id)
        &&& algorithms::encryption_supported(self.announce.aead_algorithm)
        &&& self.announce.header_protection_algorithm == self.announce.aead_algorithm
        &&& algorithms::integrity_hash_of(self.announce.integrity_hash_algorithm) == Ok::<
            IntegrityHashAlgorithm,
            Error,
        >(self.integrity_hash)
        &&& self.key.channel_id == self.announce.channel_id
        &&& self.key.from_packet_number <= self.next_packet_number
    }

    /// The key phase bit of the active key.
    pub open spec fn key_phase(self) -> bool {
        self.key.key_sequence % 2 == 1
    }

    /// The sender with a packet in the stage `stage`.
    pub open spec fn at(self, stage: SendStageView) -> SendView {
        SendView { stage: Some(stage), ..self }
    }

    /// The sender with no packet being written.
    pub open spec fn idle(self) -> SendView {
        SendView { stage: None, ..self }
    }

    /// The sender after `key` was made the active key, if it may be.
    pub open spec fn with_key(self, key: KeyView) -> Result<SendView, Error> {
        if key.channel_id != self.announce.channel_id || key.key_sequence < self.key.key_sequence
            || key.from_packet_number < self.key.from_packet_number {
            Err(Error::FrameEncoding)
        } else {
            Ok(
                SendView {
                    key,
                    next_packet_number: if self.next_packet_number < key.from_packet_number {
                        key.from_packet_number
                    } else {
                        self.next_packet_number
                    },
                    stage: None,
                    ..self
                },
            )
        }
    }

    /// The sender after the writing of a packet was started, and the first step.
    pub open spec fn start(self, frames: Seq<ChannelFrameView>) -> (SendView, SendStepView) {
        match packet::unsealed(self.announce, self.next_packet_number, self.key_phase(), frames) {
            Err(e) => (self.idle(), SendStepView::Done(Err(e))),
            Ok((header, payload)) => match packet::seal_request(
                self.announce,
                self.key,
                self.next_packet_number,
                header,
                payload,
            ) {
                Err(e) => (self.idle(), SendStepView::Done(Err(e))),
                Ok(request) => (
                    self.at(SendStageView::Seal { header }),
                    SendStepView::Await(request),
                ),
            },
        }
    }

    /// What the sender tells of the packet that it wrote, given its hash.
    pub open spec fn output(self, packet_number: u64, packet_len: usize, digest: Seq<u8>) -> ChannelSendOutputView {
        ChannelSendOutputView {
            packet_number,
            key_sequence: self.key.key_sequence,
            key_phase: self.key_phase(),
            packet_len,
            integrity: IntegrityView {
                channel_id: self.announce.channel_id,
                packet_number_start: packet_number,
                packet_hash_count: Some(1),
                packet_hashes: algorithms::truncated(digest, self.integrity_hash.len() as nat),
            },
        }
    }

    /// The sender, the buffer and the next step after the payload was encrypted.
    pub open spec fn sealed(self, header: Seq<u8>, ciphertext: Seq<u8>) -> (SendView, SendStepView) {
        match packet::sealing_mask_request(self.announce, header + ciphertext) {
            Err(e) => (self.idle(), SendStepView::Done(Err(e))),
            Ok(request) => (
                self.at(SendStageView::Mask { packet: header + ciphertext }),
                SendStepView::Await(request),
            ),
        }
    }

    /// The sender, the buffer and the next step after the mask was made. The packet
    /// goes to the front of the buffer, and takes up its number.
    pub open spec fn masked(self, plain: Seq<u8>, mask: Seq<u8>, out: Seq<u8>) -> (
        SendView,
        Seq<u8>,
        SendStepView,
    ) {
        match packet::protect_header(self.announce, plain, mask) {
            Err(e) => (self.idle(), out, SendStepView::Done(Err(e))),
            Ok(packet) => if packet.len() > out.len() {
                (self.idle(), out, SendStepView::Done(Err(Error::NoMoreData)))
            } else if self.next_packet_number == u64::MAX {
                (
                    self.idle(),
                    overwritten(out, packet),
                    SendStepView::Done(Err(Error::IntegerOverflow)),
                )
            } else {
                (
                    SendView {
                        next_packet_number: (self.next_packet_number + 1) as u64,
                        ..self
                    }.at(
                        SendStageView::Hash {
                            packet_number: self.next_packet_number,
                            packet_len: packet.len() as usize,
                        },
                    ),
                    overwritten(out, packet),
                    SendStepView::Await(
                        CryptoRequestView::Hash {
                            algorithm: self.integrity_hash.function(),
                            data: packet,
                        },
                    ),
                )
            },
        }
    }

    /// The sender, the buffer and the next step after an answer came.
    pub open spec fn answered(self, reply: Result<Seq<u8>, Error>, out: Seq<u8>) -> (
        SendView,
        Seq<u8>,
        SendStepView,
    ) {
        match (self.stage, reply) {
            (None, _) => (self, out, SendStepView::Done(Err(Error::Internal))),
            (Some(_), Err(e)) => (self.idle(), out, SendStepView::Done(Err(e))),
            (Some(SendStageView::Seal { header }), Ok(ciphertext)) => {
                let (state, step) = self.sealed(header, ciphertext);
                (state, out, step)
            },
            (Some(SendStageView::Mask { packet }), Ok(mask)) => self.masked(packet, mask, out),
            (Some(SendStageView::Hash { packet_number, packet_len }), Ok(digest)) => (
                self.idle(),
                out,
                SendStepView::Done(Ok(self.output(packet_number, packet_len, digest))),
            ),
        }
    }
}

// ---------------------------------------------------------------------------
// Sender
// ---------------------------------------------------------------------------

impl Clone for ChannelSendState {
    fn clone(&self) -> (copy: Self)
        ensures
            copy@ == self@,
    {
        ChannelSendState {
            announce: self.announce.clone(),
            key: self.key.clone(),
            integrity_hash: self.integrity_hash,
            next_packet_number: self.next_packet_number,
            stage: match &self.stage {
                Some(stage) => Some(stage.clone()),
                None => None,
            },
        }
    }
}

impl ChannelSendState {
    /// What holds of every sender.
    pub open spec fn wf(&self) -> bool {
        self@.valid()
    }

    /// A sender for an announced channel, with its first key.
    pub fn new(announce: Announce, key: Key) -> (out: Res<Self>)
        ensures
            match out {
                Ok(state) => state.wf() && new_sender(announce@, key@) == Ok::<SendView, Error>(
                    state@,
                ),
                Err(e) => new_sender(announce@, key@) == Err::<SendView, Error>(e),
            },
    {
        validate_channel_id(announce.channel_id.as_slice())?;
        validate_encryption_algorithm(announce.header_protection_algorithm)?;
        validate_encryption_algorithm(announce.aead_algorithm)?;
        if announce.header_protection_algorithm != announce.aead_algorithm {
            return Err(Error::NotAvailable);
        }
        if !codec::bytes_equal(key.channel_id.as_slice(), announce.channel_id.as_slice()) {
            return Err(Error::FrameEncoding);
        }
        let integrity_hash = IntegrityHashAlgorithm::from_id(announce.integrity_hash_algorithm)?;
        let next_packet_number = key.from_packet_number;
        Ok(
            ChannelSendState { announce, key, integrity_hash, next_packet_number, stage: None },
        )
    }

    /// The announced channel properties used by this sender.
    pub fn announce(&self) -> (announce: &Announce)
        ensures
            announce@ == self@.announce,
    {
        &self.announce
    }

    /// The active payload-protection key.
    pub fn key(&self) -> (key: &Key)
        ensures
            key@ == self@.key,
    {
        &self.key
    }

    /// The next packet number that will be assigned.
    pub fn next_packet_number(&self) -> (packet_number: u64)
        ensures
            packet_number == self@.next_packet_number,
    {
        self.next_packet_number
    }

    /// Makes `key` the active payload-protection key, unless it is for another
    /// channel or rewinds the packet number space. The writing of a packet is
    /// given up.
    pub fn update_key(&mut self, key: Key) -> (result: Res<()>)
        requires
            old(self).wf(),
        ensures
            final(self).wf(),
            match result {
                Ok(()) => old(self)@.with_key(key@) == Ok::<SendView, Error>(final(self)@),
                Err(e) => old(self)@.with_key(key@) == Err::<SendView, Error>(e) && final(self)@
                    == old(self)@,
            },
    {
        if !codec::bytes_equal(key.channel_id.as_slice(), self.announce.channel_id.as_slice()) {
            return Err(Error::FrameEncoding);
        }
        if key.key_sequence < self.key.key_sequence || key.from_packet_number
            < self.key.from_packet_number {
            return Err(Error::FrameEncoding);
        }
        if self.next_packet_number < key.from_packet_number {
            self.next_packet_number = key.from_packet_number;
        }
        self.key = key;
        self.stage = None;
        Ok(())
    }

    /// Starts to write a packet with the frames `frames`. A packet that was being
    /// written is given up.
    pub fn write_packet(&mut self, frames: &[ChannelFrame]) -> (step: SendStep)
        requires
            old(self).wf(),
            channel_frame::frames_fit(channel_frame::frame_views(frames@)),
        ensures
            final(self).wf(),
            (final(self)@, step@) == old(self)@.start(channel_frame::frame_views(frames@)),
    {
        self.stage = None;
        let packet_number = self.next_packet_number;
        let key_phase = self.key.key_sequence % 2 == 1;
        let unsealed = match encode_protected_channel_packet(
            &self.announce,
            packet_number,
            key_phase,
            frames,
        ) {
            Ok(unsealed) => unsealed,
            Err(e) => {
                return SendStep::Done(Err(e));
            },
        };
        let header = copy_bytes(&unsealed.header);
        match seal_payload(&self.announce, &self.key, packet_number, unsealed) {
            Ok(request) => {
                self.stage = Some(SendStage::Seal { header });
                SendStep::Await(request)
            },
            Err(e) => SendStep::Done(Err(e)),
        }
    }

    /// Goes on to write a packet, given the answer to the request. The packet is
    /// written to the front of `out`.
    pub fn resume(&mut self, reply: Res<Vec<u8>>, out: &mut [u8]) -> (step: SendStep)
        requires
            old(self).wf(),
        ensures
            final(self).wf(),
            (final(self)@, final(out)@, step@) == old(self)@.answered(
                codec::bytes_result(reply),
                old(out)@,
            ),
    {
        let stage = match self.stage.take() {
            Some(stage) => stage,
            None => {
                return SendStep::Done(Err(Error::Internal));
            },
        };
        let bytes = match reply {
            Ok(bytes) => bytes,
            Err(e) => {
                return SendStep::Done(Err(e));
            },
        };
        match stage {
            SendStage::Seal { header } => {
                let mut packet = header;
                packet.extend_from_slice(bytes.as_slice());
                assert(packet@ =~= header@ + bytes@);
                match sealing_mask(&self.announce, packet.as_slice()) {
                    Ok(request) => {
                        self.stage = Some(SendStage::Mask { packet });
                        SendStep::Await(request)
                    },
                    Err(e) => SendStep::Done(Err(e)),
                }
            },
            SendStage::Mask { packet } => {
                let mut packet = packet;
                match apply_header_protection(&self.announce, &mut packet, bytes.as_slice()) {
                    Ok(()) => {},
                    Err(e) => {
                        return SendStep::Done(Err(e));
                    },
                }
                self.put_packet(packet, out)
            },
            SendStage::Hash { packet_number, packet_len } => {
                let packet_hashes = self.integrity_hash.hash(bytes);
                SendStep::Done(
                    Ok(
                        ChannelSendOutput {
                            packet_number,
                            key_sequence: self.key.key_sequence,
                            key_phase: self.key.key_sequence % 2 == 1,
                            packet_len,
                            integrity: Integrity {
                                channel_id: copy_bytes(&self.announce.channel_id),
                                packet_number_start: packet_number,
                                packet_hash_count: Some(1),
                                packet_hashes,
                            },
                        },
                    ),
                )
            },
        }
    }

    /// Puts a protected packet in the buffer, takes up its number, and asks for its
    /// hash.
    fn put_packet(&mut self, packet: Vec<u8>, out: &mut [u8]) -> (step: SendStep)
        requires
            old(self).wf(),
        ensures
            final(self).wf(),
            ({
                let state = old(self)@;
                let number = state.next_packet_number;
                if packet@.len() > old(out)@.len() {
                    (final(self)@, final(out)@, step@) == (
                        state,
                        old(out)@,
                        SendStepView::Done(Err(Error::NoMoreData)),
                    )
                } else if number == u64::MAX {
                    (final(self)@, final(out)@, step@) == (
                        state,
                        overwritten(old(out)@, packet@),
                        SendStepView::Done(Err(Error::IntegerOverflow)),
                    )
                } else {
                    (final(self)@, final(out)@, step@) == (
                        SendView { next_packet_number: (number + 1) as u64, ..state }.at(
                            SendStageView::Hash {
                                packet_number: number,
                                packet_len: packet@.len() as usize,
                            },
                        ),
                        overwritten(old(out)@, packet@),
                        SendStepView::Await(
                            CryptoRequestView::Hash {
                                algorithm: state.integrity_hash.function(),
                                data: packet@,
                            },
                        ),
                    )
                }
            }),
    {
        if packet.len() > out.len() {
            return SendStep::Done(Err(Error::NoMoreData));
        }
        let packet_len = packet.len();
        copy_to_front(packet.as_slice(), out);
        let packet_number = self.next_packet_number;
        match packet_number.checked_add(1) {
            Some(next) => {
                self.next_packet_number = next;
            },
            None => {
                return SendStep::Done(Err(Error::IntegerOverflow));
            },
        }
        self.stage = Some(SendStage::Hash { packet_number, packet_len });
        SendStep::Await(
            CryptoRequest::Hash { algorithm: self.integrity_hash.algorithm(), data: packet },
        )
    }
}

/// Copies `packet` to the front of `out`.
fn copy_to_front(packet: &[u8], out: &mut [u8])
    requires
        packet@.len() <= old(out)@.len(),
    ensures
        final(out)@ == overwritten(old(out)@, packet@),
{
    let mut i: usize = 0;
    assert(out@ =~= packet@.take(0) + out@.skip(0));
    while i < packet.len()
        invariant
            i <= packet@.len() <= old(out)@.len(),
            out@.len() == old(out)@.len(),
            out@ == packet@.take(i as int) + old(out)@.skip(i as int),
        decreases packet@.len() - i,
    {
        out[i] = packet[i];
        assert(out@ =~= packet@.take(i + 1) + old(out)@.skip(i + 1));
        i = i + 1;
    }
    assert(packet@.take(i as int) =~= packet@);
}

} // verus!
