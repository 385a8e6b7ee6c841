//! The receiving end of a multicast channel.
//!
//! A packet is released once its key and its hash are known. Like on the sending
//! end, each step that needs a cryptographic library ends in a request, and the
//! answer starts the next step. The caller owns the sockets, and hands over what
//! they received.

use std::collections::{BTreeMap, BTreeSet, VecDeque};
use vstd::prelude::*;
use crate::ack;
use crate::ack::{AckTracker, AckTrackerView};
use crate::algorithms;
use crate::algorithms::{validate_encryption_algorithm, IntegrityHashAlgorithm};
use crate::channel_frame::{ChannelDatagram, ChannelDatagramView, ChannelFrame, ChannelFrameView};
use crate::codec;
use crate::error::{Error, Res};
use crate::frame;
use crate::frame::validate_channel_id;
use crate::ordered;
use crate::ordered::ascending_keys;
use crate::packet;
use crate::packet::{decrypt_channel_packet, open_payload, opening_mask, parse_channel_packet_metadata, ChannelPacket, ChannelPacketView, CryptoRequest, CryptoRequestView, ParsedChannelPacket};
use crate::receive_laws;
use crate::types::{copy_bytes, Ack, Announce, AnnounceView, Integrity, IntegrityView, Key, KeyView};

verus! {

/// A packet that waits for its key or its hash.
#[derive(Debug)]
struct PendingChannelPacket {
    protected_packet: Vec<u8>,
    key_phase: bool,
}

/// What a packet holds that waits for its key or its hash.
pub struct PendingView {
    /// The packet, as it arrived.
    pub packet: Seq<u8>,
    /// Its key phase bit.
    pub key_phase: bool,
}

impl View for PendingChannelPacket {
    type V = PendingView;

    closed spec fn view(&self) -> PendingView {
        PendingView { packet: self.protected_packet@, key_phase: self.key_phase }
    }
}

impl Clone for PendingChannelPacket {
    fn clone(&self) -> (copy: Self)
        ensures
            copy@ == self@,
    {
        PendingChannelPacket {
            protected_packet: copy_bytes(&self.protected_packet),
            key_phase: self.key_phase,
        }
    }
}

/// The packets that are still to be looked at, and what was released before.
#[derive(Debug)]
struct ReleaseQueue {
    order: Vec<u64>,
    next: usize,
    released: Vec<ChannelDatagram>,
}

/// The packets that are still to be looked at, and what was released before.
pub struct ReleaseQueueView {
    /// The numbers of the packets.
    pub rest: Seq<u64>,
    /// The datagrams.
    pub released: Seq<ChannelDatagramView>,
}

/// What a list of datagrams holds.
pub open spec fn datagram_views(datagrams: Seq<ChannelDatagram>) -> Seq<ChannelDatagramView> {
    datagrams.map_values(|datagram: ChannelDatagram| datagram@)
}

impl ReleaseQueue {
    pub closed spec fn wf(&self) -> bool {
        self.next <= self.order@.len()
    }
}

impl View for ReleaseQueue {
    type V = ReleaseQueueView;

    closed spec fn view(&self) -> ReleaseQueueView {
        ReleaseQueueView {
            rest: self.order@.skip(self.next as int),
            released: datagram_views(self.released@),
        }
    }
}

impl Clone for ReleaseQueue {
    fn clone(&self) -> (copy: Self)
        ensures
            copy@ == self@,
            copy.wf() == self.wf(),
    {
        let mut released: Vec<ChannelDatagram> = Vec::new();
        let mut i: usize = 0;
        while i < self.released.len()
            invariant
                i <= self.released@.len(),
                released@.len() == i,
                forall|j: int| 0 <= j < i ==> (#[trigger] released@[j])@ == self.released@[j]@,
            decreases self.released@.len() - i,
        {
            released.push(self.released[i].clone());
            i = i + 1;
        }
        assert(datagram_views(released@) =~= datagram_views(self.released@));
        ReleaseQueue {
            order: vstd::slice::slice_to_vec(self.order.as_slice()),
            next: self.next,
            released,
        }
    }
}

/// Where the work on a packet has come to.
#[derive(Debug)]
enum ReceiveStage {
    /// The mask of a packet that arrived is being made.
    Metadata { packet: Vec<u8> },
    /// A packet that waits is being hashed.
    Digest { packet_number: u64, key: Key, queue: ReleaseQueue },
    /// The mask of a packet is being made whose hash is right.
    Header { packet_number: u64, key: Key, packet: Vec<u8>, queue: ReleaseQueue },
    /// The payload of a packet is being opened.
    Payload { packet_number: u64, key: Key, key_phase: bool, queue: ReleaseQueue },
    /// A packet is being hashed that was opened elsewhere.
    Authenticated { opened: ChannelPacket },
}

/// Where the work on a packet has come to, and what is kept for the next step.
pub enum ReceiveStageView {
    Metadata { packet: Seq<u8> },
    Digest { packet_number: u64, key: KeyView, queue: ReleaseQueueView },
    Header { packet_number: u64, key: KeyView, packet: Seq<u8>, queue: ReleaseQueueView },
    Payload { packet_number: u64, key: KeyView, key_phase: bool, queue: ReleaseQueueView },
    Authenticated { opened: ChannelPacketView },
}

impl ReceiveStage {
    pub closed spec fn wf(&self) -> bool {
        match self {
            ReceiveStage::Metadata { packet: _ } => true,
            ReceiveStage::Digest { packet_number: _, key: _, queue } => queue.wf(),
            ReceiveStage::Header { packet_number: _, key: _, packet: _, queue } => queue.wf(),
            ReceiveStage::Payload { packet_number: _, key: _, key_phase: _, queue } => queue.wf(),
            ReceiveStage::Authenticated { opened: _ } => true,
        }
    }
}

impl View for ReceiveStage {
    type V = ReceiveStageView;

    closed spec fn view(&self) -> ReceiveStageView {
        match self {
            ReceiveStage::Metadata { packet } => ReceiveStageView::Metadata { packet: packet@ },
            ReceiveStage::Digest { packet_number, key, queue } => ReceiveStageView::Digest {
                packet_number: *packet_number,
                key: key@,
                queue: queue@,
            },
            ReceiveStage::Header { packet_number, key, packet, queue } => {
                ReceiveStageView::Header {
                    packet_number: *packet_number,
                    key: key@,
                    packet: packet@,
                    queue: queue@,
                }
            },
            ReceiveStage::Payload { packet_number, key, key_phase, queue } => {
                ReceiveStageView::Payload {
                    packet_number: *packet_number,
                    key: key@,
                    key_phase: *key_phase,
                    queue: queue@,
                }
            },
            ReceiveStage::Authenticated { opened } => ReceiveStageView::Authenticated {
                opened: opened@,
            },
        }
    }
}

impl Clone for ReceiveStage {
    fn clone(&self) -> (copy: Self)
        ensures
            copy@ == self@,
            copy.wf() == self.wf(),
    {
        match self {
            ReceiveStage::Metadata { packet } => ReceiveStage::Metadata {
                packet: copy_bytes(packet),
            },
            ReceiveStage::Digest { packet_number, key, queue } => ReceiveStage::Digest {
                packet_number: *packet_number,
                key: key.clone(),
                queue: queue.clone(),
            },
            ReceiveStage::Header { packet_number, key, packet, queue } => ReceiveStage::Header {
                packet_number: *packet_number,
                key: key.clone(),
                packet: copy_bytes(packet),
                queue: queue.clone(),
            },
            ReceiveStage::Payload { packet_number, key, key_phase, queue } => {
                ReceiveStage::Payload {
                    packet_number: *packet_number,
                    key: key.clone(),
                    key_phase: *key_phase,
                    queue: queue.clone(),
                }
            },
            ReceiveStage::Authenticated { opened } => ReceiveStage::Authenticated {
                opened: opened.clone(),
            },
        }
    }
}

/// What the next thing is in the work on a packet.
#[derive(Debug, PartialEq, Eq)]
pub enum ReceiveStep {
    /// The answer to a request is needed.
    Await(CryptoRequest),
    /// The work has ended, with the datagrams that were released.
    Done(Res<Vec<ChannelDatagram>>),
}

/// What a [`ReceiveStep`] holds.
pub enum ReceiveStepView {
    Await(CryptoRequestView),
    Done(Result<Seq<ChannelDatagramView>, Error>),
}

impl View for ReceiveStep {
    type V = ReceiveStepView;

    open spec fn view(&self) -> ReceiveStepView {
        match self {
            ReceiveStep::Await(request) => ReceiveStepView::Await(request@),
            ReceiveStep::Done(Ok(released)) => ReceiveStepView::Done(
                Ok(datagram_views(released@)),
            ),
            ReceiveStep::Done(Err(e)) => ReceiveStepView::Done(Err(*e)),
        }
    }
}

/// Receive-side state for one multicast channel.
#[derive(Debug)]
pub struct ChannelReceiveState {
    announce: Announce,
    keys: BTreeMap<u64, Key>,
    integrity_hash: IntegrityHashAlgorithm,
    integrity_hashes: BTreeMap<u64, Vec<u8>>,
    pending_packets: BTreeMap<u64, PendingChannelPacket>,
    accepted_packets: BTreeSet<u64>,
    largest_observed_packet_number: u64,
    ack_tracker: AckTracker,
    datagrams: VecDeque<ChannelDatagram>,
    stage: Option<ReceiveStage>,
}

/// What a [`ChannelReceiveState`] holds.
pub struct ReceiveView {
    /// The announced properties of the channel.
    pub announce: AnnounceView,
    /// The keys, by their sequence number.
    pub keys: Map<u64, KeyView>,
    /// The packet hash.
    pub integrity_hash: IntegrityHashAlgorithm,
    /// The hashes that packets have to have, by packet number.
    pub integrity_hashes: Map<u64, Seq<u8>>,
    /// The packets that wait, by packet number.
    pub pending: Map<u64, PendingView>,
    /// The numbers of the packets that were opened.
    pub accepted: Set<u64>,
    /// The largest packet number that was seen.
    pub largest: u64,
    /// The acknowledgments.
    pub acks: AckTrackerView,
    /// The datagrams that were released and not taken yet, oldest first.
    pub datagrams: Seq<ChannelDatagramView>,
    /// The packet that is being worked on, if one is.
    pub stage: Option<ReceiveStageView>,
}

impl View for ChannelReceiveState {
    type V = ReceiveView;

    closed spec fn view(&self) -> ReceiveView {
        ReceiveView {
            announce: self.announce@,
            keys: self.keys@.map_values(|key: Key| key@),
            integrity_hash: self.integrity_hash,
            integrity_hashes: self.integrity_hashes@.map_values(|hash: Vec<u8>| hash@),
            pending: self.pending_packets@.map_values(|packet: PendingChannelPacket| packet@),
            accepted: self.accepted_packets@,
            largest: self.largest_observed_packet_number,
            acks: self.ack_tracker@,
            datagrams: datagram_views(self.datagrams@),
            stage: match self.stage {
                None => None,
                Some(stage) => Some(stage@),
            },
        }
    }
}

// ---------------------------------------------------------------------------
// Model
// ---------------------------------------------------------------------------

/// Whether the key with the sequence number `sequence` is meant for the packet
/// `packet_number` with the given key phase.
pub open spec fn key_matches(
    keys: Map<u64, KeyView>,
    packet_number: u64,
    key_phase: bool,
    sequence: u64,
) -> bool {
    &&& keys.contains_key(sequence)
    &&& keys[sequence].from_packet_number <= packet_number
    &&& (keys[sequence].key_sequence % 2 == 1) == key_phase
}

/// The newest key that is meant for a packet.
pub open spec fn newest_key(keys: Map<u64, KeyView>, packet_number: u64, key_phase: bool) -> Option<
    KeyView,
> {
    if exists|sequence: u64| key_matches(keys, packet_number, key_phase, sequence) {
        Some(
            keys[choose|sequence: u64| #[trigger]
                key_matches(keys, packet_number, key_phase, sequence) && forall|other: u64|
                    key_matches(keys, packet_number, key_phase, other) ==> other <= sequence],
        )
    } else {
        None
    }
}

/// The datagrams among the frames of a packet.
pub open spec fn datagrams_of(
    channel_id: Seq<u8>,
    packet_number: u64,
    frames: Seq<ChannelFrameView>,
) -> Seq<ChannelDatagramView>
    decreases frames.len(),
{
    if frames.len() == 0 {
        Seq::empty()
    } else {
        datagrams_of(channel_id, packet_number, frames.drop_last()) + match frames.last() {
            ChannelFrameView::Datagram { data } => seq![
                ChannelDatagramView { channel_id, packet_number, data },
            ],
            _ => Seq::empty(),
        }
    }
}

/// How many hashes `integrity` holds, each `hash_len` bytes long.
pub open spec fn hash_count(integrity: IntegrityView, hash_len: usize) -> Result<u64, Error> {
    match integrity.packet_hash_count {
        Some(count) => if count * hash_len == integrity.packet_hashes.len() {
            Ok(count)
        } else {
            Err(Error::FrameEncoding)
        },
        None => if integrity.packet_hashes.len() % (hash_len as nat) == 0 {
            Ok((integrity.packet_hashes.len() / (hash_len as nat)) as u64)
        } else {
            Err(Error::FrameEncoding)
        },
    }
}

/// The `i`th of the hashes that `hashes` holds one after the other.
pub open spec fn nth_hash(hashes: Seq<u8>, hash_len: usize, i: int) -> Seq<u8> {
    hashes.subrange(i * hash_len, i * hash_len + hash_len)
}

/// `known` with the first `n` hashes in `hashes`, for the packets from `start` on.
pub open spec fn with_hashes(
    known: Map<u64, Seq<u8>>,
    start: u64,
    hashes: Seq<u8>,
    hash_len: usize,
    n: int,
) -> Map<u64, Seq<u8>> {
    Map::new(
        |k: u64| known.contains_key(k) || start <= k < start + n,
        |k: u64|
            if start <= k < start + n {
                nth_hash(hashes, hash_len, k - start)
            } else {
                known[k]
            },
    )
}

/// The state of a receiver for an announced channel, if it can be had.
pub open spec fn new_receiver(announce: AnnounceView) -> Result<ReceiveView, Error> {
    if !frame::channel_id_valid(announce.channel_id) {
        Err(Error::FrameEncoding)
    } else if !algorithms::encryption_supported(announce.header_protection_algorithm)
        || !algorithms::encryption_supported(announce.aead_algorithm) {
        Err(Error::NotAvailable)
    } else {
        match algorithms::integrity_hash_of(announce.integrity_hash_algorithm) {
            Err(e) => Err(e),
            Ok(integrity_hash) => Ok(
                ReceiveView {
                    announce,
                    keys: Map::empty(),
                    integrity_hash,
                    integrity_hashes: Map::empty(),
                    pending: Map::empty(),
                    accepted: Set::empty(),
                    largest: 0,
                    acks: AckTrackerView { recorded: Set::empty(), pending: false },
                    datagrams: Seq::empty(),
                    stage: None,
                },
            ),
        }
    }
}

impl ReceiveView {
    /// What holds of every receiver.
    pub open spec fn valid(self) -> bool {
        &&& frame::channel_id_valid(self.announce.channel_id)
        &&& algorithms::encryption_supported(self.announce.header_protection_algorithm)
        &&& algorithms::encryption_supported(self.announce.aead_algorithm)
        &&& algorithms::integrity_hash_of(self.announce.integrity_hash_algorithm) == Ok::<
            IntegrityHashAlgorithm,
            Error,
        >(self.integrity_hash)
        &&& forall|k: u64| #[trigger]
            self.keys.contains_key(k) ==> self.keys[k].key_sequence == k && self.keys[k].channel_id
                == self.announce.channel_id
        &&& forall|n: u64| #[trigger]
            self.integrity_hashes.contains_key(n) ==> self.integrity_hashes[n].len()
                == self.integrity_hash.len()
        &&& self.pending.dom().finite()
        &&& forall|n: u64| #[trigger] self.pending.contains_key(n) ==> n <= self.largest
        &&& forall|n: u64| #[trigger]
            self.accepted.contains(n) ==> !self.pending.contains_key(n)
                && self.acks.recorded.contains(n) && n <= self.largest
        &&& match self.stage {
            Some(ReceiveStageView::Digest { packet_number, key: _, queue: _ }) => {
                &&& self.pending.contains_key(packet_number)
                &&& self.integrity_hashes.contains_key(packet_number)
            },
            Some(ReceiveStageView::Header { packet_number, key: _, packet: _, queue: _ }) => {
                &&& !self.pending.contains_key(packet_number)
                &&& !self.accepted.contains(packet_number)
                &&& packet_number <= self.largest
            },
            Some(ReceiveStageView::Payload { packet_number, key: _, key_phase: _, queue: _ }) => {
                &&& !self.pending.contains_key(packet_number)
                &&& !self.accepted.contains(packet_number)
                &&& packet_number <= self.largest
            },
            Some(ReceiveStageView::Authenticated { opened }) => {
                self.integrity_hashes.contains_key(opened.packet_number)
            },
            _ => true,
        }
    }

    /// The receiver with a packet in the stage `stage`.
    pub open spec fn at(self, stage: ReceiveStageView) -> ReceiveView {
        ReceiveView { stage: Some(stage), ..self }
    }

    /// The receiver with no packet being worked on.
    pub open spec fn idle(self) -> ReceiveView {
        ReceiveView { stage: None, ..self }
    }

    /// The end of the work, with an error.
    pub open spec fn failed(self, e: Error) -> (ReceiveView, ReceiveStepView) {
        (self.idle(), ReceiveStepView::Done(Err(e)))
    }

    /// The key for the packet `packet_number`, if the packet waits and its hash and
    /// its key are known.
    pub open spec fn ready(self, packet_number: u64) -> Option<KeyView> {
        if self.pending.contains_key(packet_number) && self.integrity_hashes.contains_key(
            packet_number,
        ) {
            newest_key(self.keys, packet_number, self.pending[packet_number].key_phase)
        } else {
            None
        }
    }

    /// The request for the hash of `packet`.
    pub open spec fn hash_request(self, packet: Seq<u8>) -> CryptoRequestView {
        CryptoRequestView::Hash { algorithm: self.integrity_hash.function(), data: packet }
    }

    /// Whether what the hash function made of a packet is the hash that the packet
    /// `packet_number` has to have.
    pub open spec fn hash_right(self, packet_number: u64, digest: Seq<u8>) -> bool {
        algorithms::truncated(digest, self.integrity_hash.len() as nat)
            == self.integrity_hashes[packet_number]
    }

    /// Goes on to the next packet in the queue whose hash and key are known.
    pub open spec fn advance(self, queue: ReleaseQueueView) -> (ReceiveView, ReceiveStepView)
        decreases queue.rest.len(),
    {
        if queue.rest.len() == 0 {
            (self.idle(), ReceiveStepView::Done(Ok(queue.released)))
        } else {
            let packet_number = queue.rest[0];
            let queue = ReleaseQueueView { rest: queue.rest.skip(1), ..queue };
            match self.ready(packet_number) {
                None => self.advance(queue),
                Some(key) => (
                    self.at(ReceiveStageView::Digest { packet_number, key, queue }),
                    ReceiveStepView::Await(self.hash_request(self.pending[packet_number].packet)),
                ),
            }
        }
    }

    /// Goes through all the packets that wait, in the order of their numbers.
    pub open spec fn release_ready(self) -> (ReceiveView, ReceiveStepView) {
        self.advance(
            ReleaseQueueView {
                rest: ordered::ascending(self.pending.dom()),
                released: Seq::empty(),
            },
        )
    }

    /// The receiver with a key more, and the first step then.
    pub open spec fn key_inserted(self, key: KeyView) -> (ReceiveView, ReceiveStepView) {
        if key.channel_id != self.announce.channel_id {
            self.failed(Error::FrameEncoding)
        } else if self.keys.contains_key(key.key_sequence) && (
        self.keys[key.key_sequence].from_packet_number != key.from_packet_number
            || self.keys[key.key_sequence].secret != key.secret) {
            self.failed(Error::FrameEncoding)
        } else {
            ReceiveView { keys: self.keys.insert(key.key_sequence, key), ..self.idle() }.release_ready()
        }
    }

    /// The receiver with the hashes in `integrity` too, and the first step then.
    /// Hashes of packets beyond the last packet number are refused.
    pub open spec fn integrity_inserted(self, integrity: IntegrityView) -> (
        ReceiveView,
        ReceiveStepView,
    ) {
        let hash_len = self.integrity_hash.len();
        if integrity.channel_id != self.announce.channel_id {
            self.failed(Error::FrameEncoding)
        } else {
            match hash_count(integrity, hash_len) {
                Err(e) => self.failed(e),
                Ok(count) => {
                    let start = integrity.packet_number_start;
                    let numbers = u64::MAX - start + 1;
                    let n = if count <= numbers {
                        count as int
                    } else {
                        numbers
                    };
                    let state = ReceiveView {
                        integrity_hashes: with_hashes(
                            self.integrity_hashes,
                            start,
                            integrity.packet_hashes,
                            hash_len,
                            n,
                        ),
                        ..self.idle()
                    };
                    if count <= numbers {
                        state.release_ready()
                    } else {
                        state.failed(Error::IntegerOverflow)
                    }
                },
            }
        }
    }

    /// The receiver after a packet arrived, and the first step.
    pub open spec fn packet_arrived(self, packet: Seq<u8>) -> (ReceiveView, ReceiveStepView) {
        match packet::opening_mask_request(self.announce, packet) {
            Err(e) => self.failed(e),
            Ok(request) => (
                self.at(ReceiveStageView::Metadata { packet }),
                ReceiveStepView::Await(request),
            ),
        }
    }

    /// The receiver after a packet was handed over that was opened elsewhere, and
    /// the first step.
    pub open spec fn opened_packet_arrived(
        self,
        packet: ChannelPacketView,
        protected_packet: Seq<u8>,
    ) -> (ReceiveView, ReceiveStepView) {
        if packet.channel_id != self.announce.channel_id {
            self.failed(Error::FrameEncoding)
        } else if !self.keys.contains_key(packet.key_sequence) {
            self.failed(Error::NotAvailable)
        } else if !self.integrity_hashes.contains_key(packet.packet_number) {
            self.failed(Error::NotAvailable)
        } else {
            (
                self.at(ReceiveStageView::Authenticated { opened: packet }),
                ReceiveStepView::Await(self.hash_request(protected_packet)),
            )
        }
    }

    /// The receiver after the number and the key phase of a packet that arrived
    /// became known, and the next step. A packet that was seen before is dropped.
    pub open spec fn parsed(self, packet: Seq<u8>, parsed: ParsedChannelPacket) -> (
        ReceiveView,
        ReceiveStepView,
    ) {
        let n = parsed.packet_number;
        let state = ReceiveView {
            largest: if self.largest < n {
                n
            } else {
                self.largest
            },
            ..self.idle()
        };
        if state.accepted.contains(n) || state.pending.contains_key(n) {
            (state, ReceiveStepView::Done(Ok(Seq::empty())))
        } else {
            ReceiveView {
                pending: state.pending.insert(
                    n,
                    PendingView { packet, key_phase: parsed.key_phase },
                ),
                ..state
            }.advance(ReleaseQueueView { rest: seq![n], released: Seq::empty() })
        }
    }

    /// The receiver after the datagrams of a packet were released.
    pub open spec fn delivered(self, packet_number: u64, frames: Seq<ChannelFrameView>) -> ReceiveView {
        ReceiveView {
            datagrams: self.datagrams + datagrams_of(
                self.announce.channel_id,
                packet_number,
                frames,
            ),
            acks: self.acks.record(packet_number),
            ..self
        }
    }

    /// The receiver after a packet that waited was hashed, and the next step.
    pub open spec fn hashed(
        self,
        packet_number: u64,
        key: KeyView,
        queue: ReleaseQueueView,
        digest: Seq<u8>,
    ) -> (ReceiveView, ReceiveStepView) {
        if !self.hash_right(packet_number, digest) {
            self.failed(Error::Decrypt)
        } else {
            let packet = self.pending[packet_number].packet;
            let state = ReceiveView { pending: self.pending.remove(packet_number), ..self.idle() };
            match packet::opening_mask_request(self.announce, packet) {
                Err(e) => state.failed(e),
                Ok(request) => (
                    state.at(ReceiveStageView::Header { packet_number, key, packet, queue }),
                    ReceiveStepView::Await(request),
                ),
            }
        }
    }

    /// The receiver after the payload of a packet was opened, and the next step.
    pub open spec fn payload_opened(
        self,
        packet_number: u64,
        key: KeyView,
        key_phase: bool,
        queue: ReleaseQueueView,
        plaintext: Seq<u8>,
    ) -> (ReceiveView, ReceiveStepView) {
        match packet::opened(self.announce, key, packet_number, key_phase, plaintext) {
            Err(e) => self.failed(e),
            Ok(packet) => ReceiveView {
                accepted: self.accepted.insert(packet_number),
                ..self.idle()
            }.delivered(packet_number, packet.frames).advance(
                ReleaseQueueView {
                    released: queue.released + datagrams_of(
                        self.announce.channel_id,
                        packet_number,
                        packet.frames,
                    ),
                    ..queue
                },
            ),
        }
    }

    /// The receiver and the next step after an answer came.
    pub open spec fn answered(self, reply: Result<Seq<u8>, Error>) -> (
        ReceiveView,
        ReceiveStepView,
    ) {
        match (self.stage, reply) {
            (None, _) => (self, ReceiveStepView::Done(Err(Error::Internal))),
            (Some(_), Err(e)) => self.failed(e),
            (Some(ReceiveStageView::Metadata { packet }), Ok(mask)) => match packet::metadata(
                self.announce,
                packet,
                mask,
                self.largest,
            ) {
                Err(e) => self.failed(e),
                Ok(parsed) => self.parsed(packet, parsed),
            },
            (Some(ReceiveStageView::Digest { packet_number, key, queue }), Ok(digest)) => {
                self.hashed(packet_number, key, queue, digest)
            },
            (Some(ReceiveStageView::Header { packet_number, key, packet, queue }), Ok(mask)) => {
                match packet::open_request(
                    self.announce,
                    key,
                    packet_number,
                    packet,
                    mask,
                    self.largest,
                ) {
                    Err(e) => self.failed(e),
                    Ok((key_phase, request)) => (
                        self.at(ReceiveStageView::Payload { packet_number, key, key_phase, queue }),
                        ReceiveStepView::Await(request),
                    ),
                }
            },
            (
                Some(ReceiveStageView::Payload { packet_number, key, key_phase, queue }),
                Ok(plaintext),
            ) => self.payload_opened(packet_number, key, key_phase, queue, plaintext),
            (Some(ReceiveStageView::Authenticated { opened: packet }), Ok(digest)) => {
                if self.hash_right(packet.packet_number, digest) {
                    (
                        self.idle().delivered(packet.packet_number, packet.frames),
                        ReceiveStepView::Done(
                            Ok(
                                datagrams_of(
                                    self.announce.channel_id,
                                    packet.packet_number,
                                    packet.frames,
                                ),
                            ),
                        ),
                    )
                } else {
                    self.failed(Error::Decrypt)
                }
            },
        }
    }
}

/// The key that matches last in increasing order is the newest.
proof fn lemma_newest(
    keys: Map<u64, KeyView>,
    packet_number: u64,
    key_phase: bool,
    sequences: Seq<u64>,
    i: int,
)
    requires
        ordered::increasing(sequences),
        sequences.to_set() == keys.dom(),
        0 <= i < sequences.len(),
        key_matches(keys, packet_number, key_phase, sequences[i]),
        forall|j: int|
            i < j < sequences.len() ==> !key_matches(
                keys,
                packet_number,
                key_phase,
                #[trigger] sequences[j],
            ),
    ensures
        newest_key(keys, packet_number, key_phase) == Some(keys[sequences[i]]),
{
    let sequence = sequences[i];
    assert forall|other: u64| key_matches(keys, packet_number, key_phase, other) implies other
        <= sequence by {
        assert(sequences.to_set().contains(other));
        let k = choose|k: int| 0 <= k < sequences.len() && sequences[k] == other;
        if k > i {
            assert(!key_matches(keys, packet_number, key_phase, sequences[k]));
        } else if k < i {
            assert(sequences[k] < sequences[i]);
        }
    }
    let chosen = choose|sequence: u64| #[trigger]
        key_matches(keys, packet_number, key_phase, sequence) && forall|other: u64|
            key_matches(keys, packet_number, key_phase, other) ==> other <= sequence;
    assert(key_matches(keys, packet_number, key_phase, chosen) && forall|other: u64|
        key_matches(keys, packet_number, key_phase, other) ==> other <= chosen);
    assert(chosen <= sequence && sequence <= chosen);
}

/// Where none of the keys matches, there is none.
proof fn lemma_no_key(
    keys: Map<u64, KeyView>,
    packet_number: u64,
    key_phase: bool,
    sequences: Seq<u64>,
)
    requires
        sequences.to_set() == keys.dom(),
        forall|j: int|
            0 <= j < sequences.len() ==> !key_matches(
                keys,
                packet_number,
                key_phase,
                #[trigger] sequences[j],
            ),
    ensures
        newest_key(keys, packet_number, key_phase) is None,
{
    assert forall|other: u64| !key_matches(keys, packet_number, key_phase, other) by {
        if key_matches(keys, packet_number, key_phase, other) {
            assert(sequences.to_set().contains(other));
            let k = choose|k: int| 0 <= k < sequences.len() && sequences[k] == other;
            assert(!key_matches(keys, packet_number, key_phase, sequences[k]));
        }
    }
}

// ---------------------------------------------------------------------------
// Receiver
// ---------------------------------------------------------------------------

impl Clone for ChannelReceiveState {
    fn clone(&self) -> (copy: Self)
        ensures
            copy@ == self@,
            copy.wf() == self.wf(),
    {
        let mut datagrams: VecDeque<ChannelDatagram> = VecDeque::new();
        let mut i: usize = 0;
        while i < self.datagrams.len()
            invariant
                i <= self.datagrams@.len(),
                datagrams@.len() == i,
                forall|j: int| 0 <= j < i ==> (#[trigger] datagrams@[j])@ == self.datagrams@[j]@,
            decreases self.datagrams@.len() - i,
        {
            datagrams.push_back(self.datagrams[i].clone());
            i = i + 1;
        }
        assert(datagram_views(datagrams@) =~= datagram_views(self.datagrams@));
        ChannelReceiveState {
            announce: self.announce.clone(),
            keys: self.keys.clone(),
            integrity_hash: self.integrity_hash,
            integrity_hashes: self.integrity_hashes.clone(),
            pending_packets: self.pending_packets.clone(),
            accepted_packets: self.accepted_packets.clone(),
            largest_observed_packet_number: self.largest_observed_packet_number,
            ack_tracker: self.ack_tracker.clone(),
            datagrams,
            stage: match &self.stage {
                Some(stage) => Some(stage.clone()),
                None => None,
            },
        }
    }
}

impl ChannelReceiveState {
    /// What holds of every receiver.
    pub closed spec fn wf(&self) -> bool {
        &&& self@.valid()
        &&& self.ack_tracker.wf()
        &&& self.stage matches Some(stage) ==> stage.wf()
    }

    /// A receiver is valid.
    pub broadcast proof fn lemma_wf(&self)
        requires
            #[trigger] self.wf(),
        ensures
            self@.valid(),
    {
    }

    /// A receiver for an announced channel.
    pub fn new(announce: Announce) -> (out: Res<Self>)
        ensures
            match out {
                Ok(state) => state.wf() && new_receiver(announce@) == Ok::<ReceiveView, Error>(
                    state@,
                ),
                Err(e) => new_receiver(announce@) == Err::<ReceiveView, Error>(e),
            },
    {
        validate_channel_id(announce.channel_id.as_slice())?;
        validate_encryption_algorithm(announce.header_protection_algorithm)?;
        validate_encryption_algorithm(announce.aead_algorithm)?;
        let integrity_hash = IntegrityHashAlgorithm::from_id(announce.integrity_hash_algorithm)?;
        let state = ChannelReceiveState {
            announce,
            keys: BTreeMap::new(),
            integrity_hash,
            integrity_hashes: BTreeMap::new(),
            pending_packets: BTreeMap::new(),
            accepted_packets: BTreeSet::new(),
            largest_observed_packet_number: 0,
            ack_tracker: AckTracker::default(),
            datagrams: VecDeque::new(),
            stage: None,
        };
        assert(state@.keys =~= Map::empty());
        assert(state@.integrity_hashes =~= Map::empty());
        assert(state@.pending =~= Map::empty());
        assert(state@.datagrams =~= Seq::empty());
        Ok(state)
    }

    /// The channel ID of this receiver.
    pub fn channel_id(&self) -> (channel_id: &[u8])
        ensures
            channel_id@ == self@.announce.channel_id,
    {
        self.announce.channel_id.as_slice()
    }

    /// Takes the oldest datagram that was released.
    pub fn pop_datagram(&mut self) -> (datagram: Option<ChannelDatagram>)
        requires
            old(self).wf(),
        ensures
            final(self).wf(),
            match datagram {
                Some(datagram) => {
                    &&& old(self)@.datagrams.len() > 0
                    &&& datagram@ == old(self)@.datagrams[0]
                    &&& final(self)@ == (ReceiveView {
                        datagrams: old(self)@.datagrams.skip(1),
                        ..old(self)@
                    })
                },
                None => old(self)@.datagrams.len() == 0 && final(self)@ == old(self)@,
            },
    {
        let datagram = self.datagrams.pop_front();
        proof {
            if datagram is Some {
                assert(datagram_views(self.datagrams@) =~= old(self)@.datagrams.skip(1));
            }
        }
        datagram
    }

    /// Builds the pending `MC_ACK`, if newly validated packets are waiting.
    pub fn pending_ack(&self) -> (out: Option<Ack>)
        requires
            self.wf(),
        ensures
            ack::ack_option(out) == self@.acks.waiting_ack(self@.announce.channel_id),
    {
        self.ack_tracker.pending_ack(self.announce.channel_id.as_slice())
    }

    /// Marks the pending acknowledgment as sent.
    pub fn mark_ack_sent(&mut self)
        requires
            old(self).wf(),
        ensures
            final(self).wf(),
            final(self)@ == (ReceiveView {
                acks: AckTrackerView { pending: false, ..old(self)@.acks },
                ..old(self)@
            }),
    {
        self.ack_tracker.mark_sent();
    }

    /// Checks that `channel_id` names this channel.
    fn check_channel_id(&self, channel_id: &[u8]) -> (result: Res<()>)
        requires
            self.wf(),
        ensures
            result == if channel_id@ == self@.announce.channel_id {
                Ok::<(), Error>(())
            } else {
                Err(Error::FrameEncoding)
            },
    {
        validate_channel_id(channel_id)?;
        if !codec::bytes_equal(channel_id, self.announce.channel_id.as_slice()) {
            return Err(Error::FrameEncoding);
        }
        Ok(())
    }

    /// Whether what the hash function made of a packet is the hash that the packet
    /// `packet_number` has to have.
    fn validate_integrity(&self, packet_number: u64, digest: Vec<u8>) -> (result: Res<()>)
        requires
            self@.integrity_hashes.contains_key(packet_number),
        ensures
            result == if self@.hash_right(packet_number, digest@) {
                Ok::<(), Error>(())
            } else {
                Err(Error::Decrypt)
            },
    {
        let expected = match self.integrity_hashes.get(&packet_number) {
            Some(expected) => expected,
            None => {
                return Err(Error::NotAvailable);
            },
        };
        let actual = self.integrity_hash.hash(digest);
        if codec::bytes_equal(actual.as_slice(), expected.as_slice()) {
            Ok(())
        } else {
            Err(Error::Decrypt)
        }
    }

    /// The newest key that is meant for a packet.
    fn select_key(&self, packet_number: u64, key_phase: bool) -> (key: Option<Key>)
        ensures
            match key {
                Some(key) => newest_key(self@.keys, packet_number, key_phase) == Some(key@),
                None => newest_key(self@.keys, packet_number, key_phase) is None,
            },
    {
        let ghost keys = self@.keys;
        let sequences = ascending_keys(&self.keys);
        assert(keys.dom() =~= self.keys@.dom());
        let mut i: usize = sequences.len();
        while i > 0
            invariant
                i <= sequences@.len(),
                keys == self@.keys,
                ordered::increasing(sequences@),
                sequences@.to_set() == keys.dom(),
                self.keys@.dom() == keys.dom(),
                forall|j: int|
                    i <= j < sequences@.len() ==> !key_matches(
                        keys,
                        packet_number,
                        key_phase,
                        #[trigger] sequences@[j],
                    ),
            decreases i,
        {
            i = i - 1;
            let sequence = sequences[i];
            assert(sequences@.to_set().contains(sequence));
            assert(self.keys@.contains_key(sequence));
            if let Some(key) = self.keys.get(&sequence) {
                assert(key@ == keys[sequence]);
                if key.from_packet_number <= packet_number && (key.key_sequence % 2 == 1)
                    == key_phase {
                    proof {
                        lemma_newest(keys, packet_number, key_phase, sequences@, i as int);
                    }
                    return Some(key.clone());
                }
            }
        }
        proof {
            lemma_no_key(keys, packet_number, key_phase, sequences@);
        }
        None
    }

    /// The key and a copy of the packet `packet_number`, if the packet waits and its
    /// hash and its key are known.
    fn ready_packet(&self, packet_number: u64) -> (out: Option<(Key, Vec<u8>)>)
        ensures
            match out {
                Some((key, packet)) => {
                    &&& self@.ready(packet_number) == Some(key@)
                    &&& packet@ == self@.pending[packet_number].packet
                },
                None => self@.ready(packet_number) is None,
            },
    {
        let pending = match self.pending_packets.get(&packet_number) {
            Some(pending) => pending,
            None => {
                assert(!self@.pending.contains_key(packet_number));
                return None;
            },
        };
        assert(self@.pending.contains_key(packet_number));
        assert(self@.pending[packet_number] == pending@);
        if !self.integrity_hashes.contains_key(&packet_number) {
            assert(!self@.integrity_hashes.contains_key(packet_number));
            return None;
        }
        assert(self@.integrity_hashes.contains_key(packet_number));
        match self.select_key(packet_number, pending.key_phase) {
            Some(key) => Some((key, copy_bytes(&pending.protected_packet))),
            None => None,
        }
    }

    /// Goes on to the next packet in the queue whose hash and key are known.
    fn try_release_packets(&mut self, queue: ReleaseQueue) -> (step: ReceiveStep)
        requires
            old(self).wf(),
            old(self)@.stage is None,
            queue.wf(),
        ensures
            final(self).wf(),
            (final(self)@, step@) == old(self)@.advance(queue@),
    {
        let mut todo = queue;
        let ghost before = self@;
        while todo.next < todo.order.len()
            invariant
                self.wf(),
                self@ == before,
                before.stage is None,
                before == old(self)@,
                todo.wf(),
                before.advance(todo@) == before.advance(queue@),
            decreases todo.order@.len() - todo.next,
        {
            let packet_number = todo.order[todo.next];
            let ghost rest = todo@;
            todo.next = todo.next + 1;
            assert(rest.rest[0] == packet_number);
            assert(todo@.rest =~= rest.rest.skip(1));
            assert(todo@ == (ReleaseQueueView { rest: rest.rest.skip(1), ..rest }));
            if let Some((key, packet)) = self.ready_packet(packet_number) {
                let algorithm = self.integrity_hash.algorithm();
                self.stage = Some(ReceiveStage::Digest { packet_number, key, queue: todo });
                assert(self@ == before.at(
                    ReceiveStageView::Digest { packet_number, key: key@, queue: todo@ },
                ));
                assert(before.pending.contains_key(packet_number));
                assert(before.integrity_hashes.contains_key(packet_number));
                assert(self@.valid());
                return ReceiveStep::Await(CryptoRequest::Hash { algorithm, data: packet });
            }
        }
        assert(todo@.rest.len() == 0);
        ReceiveStep::Done(Ok(todo.released))
    }

    /// Goes through all the packets that wait, in the order of their numbers.
    fn release_ready_packets(&mut self) -> (step: ReceiveStep)
        requires
            old(self).wf(),
            old(self)@.stage is None,
        ensures
            final(self).wf(),
            (final(self)@, step@) == old(self)@.release_ready(),
    {
        let order = ascending_keys(&self.pending_packets);
        let queue = ReleaseQueue { order, next: 0, released: Vec::new() };
        assert(self@.pending.dom() =~= self.pending_packets@.dom());
        assert(queue@.rest =~= order@);
        assert(queue@.released =~= Seq::empty());
        self.try_release_packets(queue)
    }

    /// Inserts an `MC_KEY` for this channel, and releases the packets that waited
    /// for it. Work that was under way is given up.
    pub fn insert_key(&mut self, key: Key) -> (step: ReceiveStep)
        requires
            old(self).wf(),
        ensures
            final(self).wf(),
            (final(self)@, step@) == old(self)@.key_inserted(key@),
    {
        let ghost before = self@;
        self.stage = None;
        assert(self@ == before.idle());
        match self.check_channel_id(key.channel_id.as_slice()) {
            Ok(()) => {},
            Err(e) => {
                return ReceiveStep::Done(Err(e));
            },
        }
        if let Some(existing) = self.keys.get(&key.key_sequence) {
            assert(before.keys.contains_key(key.key_sequence));
            assert(before.keys[key.key_sequence] == existing@);
            if existing.from_packet_number != key.from_packet_number || !codec::bytes_equal(
                existing.secret.as_slice(),
                key.secret.as_slice(),
            ) {
                return ReceiveStep::Done(Err(Error::FrameEncoding));
            }
        } else {
            assert(!before.keys.contains_key(key.key_sequence));
        }
        let ghost inserted = key@;
        self.keys.insert(key.key_sequence, key);
        assert(self@.keys =~= before.keys.insert(inserted.key_sequence, inserted));
        assert(self@ == (ReceiveView {
            keys: before.keys.insert(inserted.key_sequence, inserted),
            ..before.idle()
        }));
        self.release_ready_packets()
    }

    /// How many hashes `integrity` holds.
    fn count_hashes(&self, integrity: &Integrity) -> (out: Res<u64>)
        requires
            self.wf(),
        ensures
            out == hash_count(integrity@, self@.integrity_hash.len()),
            out matches Ok(count) ==> count * self@.integrity_hash.len()
                == integrity@.packet_hashes.len(),
    {
        let hash_len = self.integrity_hash.output_len();
        let len = integrity.packet_hashes.len();
        match integrity.packet_hash_count {
            Some(count) => match count.checked_mul(hash_len as u64) {
                Some(expected) => {
                    if len as u64 != expected {
                        return Err(Error::FrameEncoding);
                    }
                    Ok(count)
                },
                None => Err(Error::FrameEncoding),
            },
            None => {
                if len % hash_len != 0 {
                    return Err(Error::FrameEncoding);
                }
                let count = (len / hash_len) as u64;
                proof {
                    vstd::arithmetic::div_mod::lemma_fundamental_div_mod(
                        len as int,
                        hash_len as int,
                    );
                    vstd::arithmetic::mul::lemma_mul_is_commutative(
                        len as int / hash_len as int,
                        hash_len as int,
                    );
                }
                Ok(count)
            },
        }
    }

    /// Inserts an `MC_INTEGRITY` frame for this channel, and releases the packets
    /// that waited for it. Work that was under way is given up.
    pub fn insert_integrity(&mut self, integrity: Integrity) -> (step: ReceiveStep)
        requires
            old(self).wf(),
        ensures
            final(self).wf(),
            (final(self)@, step@) == old(self)@.integrity_inserted(integrity@),
    {
        let ghost before = self@;
        self.stage = None;
        assert(self@ == before.idle());
        match self.check_channel_id(integrity.channel_id.as_slice()) {
            Ok(()) => {},
            Err(e) => {
                return ReceiveStep::Done(Err(e));
            },
        }
        let hash_len = self.integrity_hash.output_len();
        let hash_count = match self.count_hashes(&integrity) {
            Ok(hash_count) => hash_count,
            Err(e) => {
                return ReceiveStep::Done(Err(e));
            },
        };
        let start_number = integrity.packet_number_start;
        let hashes = integrity.packet_hashes.as_slice();
        let total = hashes.len();
        let mut offset: u64 = 0;
        assert(self@.integrity_hashes =~= with_hashes(
            before.integrity_hashes,
            start_number,
            hashes@,
            hash_len,
            0,
        ));
        while offset < hash_count
            invariant
                self.wf(),
                before == old(self)@,
                total == hashes@.len(),
                hash_len == before.integrity_hash.len(),
                hashes@ == integrity@.packet_hashes,
                hash_count * hash_len == hashes@.len(),
                start_number == integrity@.packet_number_start,
                offset <= hash_count,
                start_number + offset <= u64::MAX + 1,
                self@ == (ReceiveView {
                    integrity_hashes: with_hashes(
                        before.integrity_hashes,
                        start_number,
                        hashes@,
                        hash_len,
                        offset as int,
                    ),
                    ..before.idle()
                }),
                integrity@.channel_id == before.announce.channel_id,
                crate::receive::hash_count(integrity@, hash_len) == Ok::<u64, Error>(hash_count),
            decreases hash_count - offset,
        {
            proof {
                assert(offset * hash_len + hash_len <= hash_count * hash_len) by (nonlinear_arith)
                    requires
                        offset + 1 <= hash_count,
                ;
                assert(offset * hash_len <= hashes@.len());
                assert(offset <= offset * hash_len) by (nonlinear_arith)
                    requires
                        hash_len >= 1,
                ;
            }
            let packet_number = match start_number.checked_add(offset) {
                Some(packet_number) => packet_number,
                None => {
                    assert(offset == u64::MAX - start_number + 1);
                    return ReceiveStep::Done(Err(Error::IntegerOverflow));
                },
            };
            assert(offset <= usize::MAX);
            assert((offset as usize) * hash_len <= usize::MAX);
            let start: usize = offset as usize * hash_len;
            let end: usize = start + hash_len;
            let hash = vstd::slice::slice_to_vec(
                vstd::slice::slice_subrange(hashes, start, end),
            );
            let ghost state = self@;
            let ghost known = state.integrity_hashes;
            assert(state.valid());
            let ghost inserted = hash@;
            assert(inserted == nth_hash(hashes@, hash_len, offset as int));
            self.integrity_hashes.insert(packet_number, hash);
            offset = offset + 1;
            proof {
                assert(self@.integrity_hashes =~= known.insert(packet_number, inserted));
                assert forall|n: u64| #[trigger] self@.integrity_hashes.contains_key(n) implies
                    self@.integrity_hashes[n].len() == hash_len by {
                    if n != packet_number {
                        assert(known.contains_key(n));
                    }
                }
                assert(self@.integrity_hashes =~= with_hashes(
                    before.integrity_hashes,
                    start_number,
                    hashes@,
                    hash_len,
                    offset as int,
                ));
                assert(self@ == (ReceiveView {
                    integrity_hashes: known.insert(packet_number, inserted),
                    ..state
                }));
            }
        }
        self.release_ready_packets()
    }

    /// Processes one protected multicast UDP payload for this channel. If its key
    /// and its hash are known, its datagrams are released; otherwise it waits until
    /// they are. Work that was under way is given up.
    pub fn process_protected_packet(&mut self, protected_packet: &[u8]) -> (step: ReceiveStep)
        requires
            old(self).wf(),
        ensures
            final(self).wf(),
            (final(self)@, step@) == old(self)@.packet_arrived(protected_packet@),
    {
        let ghost before = self@;
        self.stage = None;
        assert(self@ == before.idle());
        match opening_mask(&self.announce, protected_packet) {
            Ok(request) => {
                let packet = vstd::slice::slice_to_vec(protected_packet);
                self.stage = Some(ReceiveStage::Metadata { packet });
                assert(self@ == before.at(ReceiveStageView::Metadata { packet: packet@ }));
                ReceiveStep::Await(request)
            },
            Err(e) => ReceiveStep::Done(Err(e)),
        }
    }

    /// Checks the hash of a packet that was opened elsewhere, and releases its
    /// datagrams. `protected_packet` is the packet as it arrived. Work that was under
    /// way is given up.
    pub fn process_authenticated_packet(
        &mut self,
        packet: ChannelPacket,
        protected_packet: &[u8],
    ) -> (step: ReceiveStep)
        requires
            old(self).wf(),
        ensures
            final(self).wf(),
            (final(self)@, step@) == old(self)@.opened_packet_arrived(packet@, protected_packet@),
    {
        let ghost before = self@;
        self.stage = None;
        assert(self@ == before.idle());
        match self.check_channel_id(packet.channel_id.as_slice()) {
            Ok(()) => {},
            Err(e) => {
                return ReceiveStep::Done(Err(e));
            },
        }
        if !self.keys.contains_key(&packet.key_sequence) {
            assert(!before.keys.contains_key(packet.key_sequence));
            return ReceiveStep::Done(Err(Error::NotAvailable));
        }
        assert(before.keys.contains_key(packet.key_sequence));
        if !self.integrity_hashes.contains_key(&packet.packet_number) {
            assert(!before.integrity_hashes.contains_key(packet.packet_number));
            return ReceiveStep::Done(Err(Error::NotAvailable));
        }
        assert(before.integrity_hashes.contains_key(packet.packet_number));
        let algorithm = self.integrity_hash.algorithm();
        let data = vstd::slice::slice_to_vec(protected_packet);
        self.stage = Some(ReceiveStage::Authenticated { opened: packet });
        assert(self@ == before.at(ReceiveStageView::Authenticated { opened: packet@ }));
        ReceiveStep::Await(CryptoRequest::Hash { algorithm, data })
    }

    /// Releases the datagrams of a packet, and records that it was received.
    fn release_packet_datagrams(&mut self, packet: ChannelPacket) -> (released: Vec<
        ChannelDatagram,
    >)
        requires
            old(self).wf(),
            old(self)@.stage is None,
        ensures
            final(self).wf(),
            final(self)@ == old(self)@.delivered(packet@.packet_number, packet@.frames),
            datagram_views(released@) == datagrams_of(
                old(self)@.announce.channel_id,
                packet@.packet_number,
                packet@.frames,
            ),
            receive_laws::datagrams_match(
                datagram_views(released@),
                old(self)@.announce.channel_id,
                packet@.packet_number,
                packet@.frames,
            ),
    {
        proof {
            receive_laws::law_datagrams_of_frames(
                self@.announce.channel_id,
                packet@.packet_number,
                packet@.frames,
            );
        }
        let ghost before = self@;
        let ghost frames = packet@.frames;
        let packet_number = packet.packet_number;
        let mut released: Vec<ChannelDatagram> = Vec::new();
        let mut i: usize = 0;
        proof {
            assert(frames.take(0) =~= Seq::empty());
            assert(datagram_views(released@) =~= Seq::empty());
            assert(before.datagrams + Seq::<ChannelDatagramView>::empty() =~= before.datagrams);
        }
        while i < packet.frames.len()
            invariant
                i <= packet.frames@.len(),
                frames == packet@.frames,
                packet_number == packet@.packet_number,
                self.wf(),
                before == old(self)@,
                before.valid(),
                before.stage is None,
                datagram_views(released@) == datagrams_of(
                    before.announce.channel_id,
                    packet_number,
                    frames.take(i as int),
                ),
                self@ == (ReceiveView {
                    datagrams: before.datagrams + datagram_views(released@),
                    ..before
                }),
            decreases packet.frames@.len() - i,
        {
            let ghost was = datagram_views(released@);
            let ghost queued = self@.datagrams;
            proof {
                assert(frames.take(i + 1).drop_last() =~= frames.take(i as int));
                assert(frames.take(i + 1).last() == frames[i as int]);
                assert(frames[i as int] == packet.frames@[i as int]@);
            }
            if let ChannelFrame::Datagram { data } = &packet.frames[i] {
                let datagram = ChannelDatagram {
                    channel_id: copy_bytes(&self.announce.channel_id),
                    packet_number,
                    data: copy_bytes(data),
                };
                let ghost view = datagram@;
                self.datagrams.push_back(datagram.clone());
                released.push(datagram);
                proof {
                    assert(datagram_views(released@) =~= was + seq![view]);
                    assert(self@.datagrams =~= queued + seq![view]);
                    assert(self@ == (ReceiveView { datagrams: queued + seq![view], ..before }));
                    assert(self@.valid());
                    assert(before.datagrams + (was + seq![view]) =~= before.datagrams + was + seq![
                        view,
                    ]);
                }
            } else {
                assert(was + Seq::<ChannelDatagramView>::empty() =~= was);
            }
            i = i + 1;
        }
        assert(frames.take(i as int) =~= frames);
        self.ack_tracker.record_packet(packet_number);
        released
    }

    /// Goes on with the work on a packet, given the answer to the request.
    pub fn resume(&mut self, reply: Res<Vec<u8>>) -> (step: ReceiveStep)
        requires
            old(self).wf(),
        ensures
            final(self).wf(),
            (final(self)@, step@) == old(self)@.answered(codec::bytes_result(reply)),
    {
        let ghost before = self@;
        let stage = match self.stage.take() {
            Some(stage) => stage,
            None => {
                return ReceiveStep::Done(Err(Error::Internal));
            },
        };
        assert(self@ == before.idle());
        assert(before.stage == Some(stage@));
        let bytes = match reply {
            Ok(bytes) => bytes,
            Err(e) => {
                return ReceiveStep::Done(Err(e));
            },
        };
        match stage {
            ReceiveStage::Metadata { packet } => {
                match parse_channel_packet_metadata(
                    &self.announce,
                    packet.as_slice(),
                    bytes.as_slice(),
                    self.largest_observed_packet_number,
                ) {
                    Ok(parsed) => self.store_packet(packet, parsed),
                    Err(e) => ReceiveStep::Done(Err(e)),
                }
            },
            ReceiveStage::Digest { packet_number, key, queue } => {
                self.start_to_open(packet_number, key, queue, bytes)
            },
            ReceiveStage::Header { packet_number, key, packet, queue } => {
                match open_payload(
                    &self.announce,
                    &key,
                    packet_number,
                    packet.as_slice(),
                    bytes.as_slice(),
                    self.largest_observed_packet_number,
                ) {
                    Ok((key_phase, request)) => {
                        self.stage = Some(
                            ReceiveStage::Payload { packet_number, key, key_phase, queue },
                        );
                        ReceiveStep::Await(request)
                    },
                    Err(e) => ReceiveStep::Done(Err(e)),
                }
            },
            ReceiveStage::Payload { packet_number, key, key_phase, queue } => {
                match decrypt_channel_packet(
                    &self.announce,
                    &key,
                    packet_number,
                    key_phase,
                    bytes.as_slice(),
                ) {
                    Ok(packet) => self.accept_packet(packet, queue),
                    Err(e) => ReceiveStep::Done(Err(e)),
                }
            },
            ReceiveStage::Authenticated { opened } => {
                match self.validate_integrity(opened.packet_number, bytes) {
                    Ok(()) => ReceiveStep::Done(Ok(self.release_packet_datagrams(opened))),
                    Err(e) => ReceiveStep::Done(Err(e)),
                }
            },
        }
    }

    /// Keeps a packet that arrived, unless it was seen before, and releases it if
    /// its hash and its key are known.
    fn store_packet(&mut self, packet: Vec<u8>, parsed: ParsedChannelPacket) -> (step: ReceiveStep)
        requires
            old(self).wf(),
            old(self)@.stage is None,
        ensures
            final(self).wf(),
            (final(self)@, step@) == old(self)@.parsed(packet@, parsed),
    {
        let ghost before = self@;
        let packet_number = parsed.packet_number;
        if self.largest_observed_packet_number < packet_number {
            self.largest_observed_packet_number = packet_number;
        }
        let ghost state = self@;
        assert(state.pending.dom() =~= self.pending_packets@.dom());
        if self.accepted_packets.contains(&packet_number) || self.pending_packets.contains_key(
            &packet_number,
        ) {
            let released: Vec<ChannelDatagram> = Vec::new();
            assert(datagram_views(released@) =~= Seq::empty());
            return ReceiveStep::Done(Ok(released));
        }
        let pending = PendingChannelPacket {
            protected_packet: packet,
            key_phase: parsed.key_phase,
        };
        let ghost view = pending@;
        self.pending_packets.insert(packet_number, pending);
        assert(self@.pending =~= state.pending.insert(packet_number, view));
        let mut order: Vec<u64> = Vec::new();
        order.push(packet_number);
        let queue = ReleaseQueue { order, next: 0, released: Vec::new() };
        assert(queue@.rest =~= seq![packet_number]);
        assert(queue@.released =~= Seq::empty());
        self.try_release_packets(queue)
    }

    /// Takes a packet out of those that wait, if its hash is right, and asks for the
    /// mask of its header.
    fn start_to_open(
        &mut self,
        packet_number: u64,
        key: Key,
        queue: ReleaseQueue,
        digest: Vec<u8>,
    ) -> (step: ReceiveStep)
        requires
            old(self).wf(),
            old(self)@.stage is None,
            old(self)@.pending.contains_key(packet_number),
            old(self)@.integrity_hashes.contains_key(packet_number),
            queue.wf(),
        ensures
            final(self).wf(),
            (final(self)@, step@) == old(self)@.hashed(packet_number, key@, queue@, digest@),
    {
        let ghost before = self@;
        match self.validate_integrity(packet_number, digest) {
            Ok(()) => {},
            Err(e) => {
                return ReceiveStep::Done(Err(e));
            },
        }
        assert(self.pending_packets@.contains_key(packet_number));
        let pending = match self.pending_packets.remove(&packet_number) {
            Some(pending) => pending,
            None => {
                return ReceiveStep::Done(Err(Error::Internal));
            },
        };
        assert(pending@ == before.pending[packet_number]);
        assert(self@.pending =~= before.pending.remove(packet_number));
        assert(self@ == (ReceiveView { pending: before.pending.remove(packet_number), ..before }));
        assert(!before.accepted.contains(packet_number));
        let packet = pending.protected_packet;
        match opening_mask(&self.announce, packet.as_slice()) {
            Ok(request) => {
                self.stage = Some(ReceiveStage::Header { packet_number, key, packet, queue });
                ReceiveStep::Await(request)
            },
            Err(e) => ReceiveStep::Done(Err(e)),
        }
    }

    /// Notes that a packet was opened, releases its datagrams, and goes on to the
    /// next packet in the queue.
    fn accept_packet(&mut self, packet: ChannelPacket, queue: ReleaseQueue) -> (step: ReceiveStep)
        requires
            old(self).wf(),
            old(self)@.stage is None,
            !old(self)@.pending.contains_key(packet@.packet_number),
            packet@.packet_number <= old(self)@.largest,
            queue.wf(),
        ensures
            final(self).wf(),
            (final(self)@, step@) == (ReceiveView {
                accepted: old(self)@.accepted.insert(packet@.packet_number),
                ..old(self)@
            }).delivered(packet@.packet_number, packet@.frames).advance(
                (ReleaseQueueView {
                    released: queue@.released + datagrams_of(
                        old(self)@.announce.channel_id,
                        packet@.packet_number,
                        packet@.frames,
                    ),
                    ..queue@
                }),
            ),
    {
        let mut queue = queue;
        let ghost was = queue@;
        let packet_number = packet.packet_number;
        let mut datagrams = self.release_packet_datagrams(packet);
        self.accepted_packets.insert(packet_number);
        let ghost new = datagram_views(datagrams@);
        queue.released.append(&mut datagrams);
        assert(datagram_views(queue.released@) =~= was.released + new);
        self.try_release_packets(queue)
    }
}

} // verus!
