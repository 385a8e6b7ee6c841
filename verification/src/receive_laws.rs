//! Laws of each step that the receiving end of a multicast channel takes.

use vstd::prelude::*;
use crate::algorithms;
use crate::channel_frame;
use crate::channel_frame::{ChannelDatagramView, ChannelFrameView};
use crate::error::Error;
use crate::ordered;
use crate::packet;
use crate::packet::{ChannelPacketView, CryptoRequestView};
use crate::receive;
use crate::receive::{PendingView, ReceiveStageView, ReceiveStepView, ReceiveView, ReleaseQueueView};
use crate::types::{AnnounceView, IntegrityView, KeyView};

verus! {

// ---------------------------------------------------------------------------
// Datagrams
// ---------------------------------------------------------------------------

/// The DATAGRAM frames among `frames`, in their order.
pub open spec fn datagram_frames(frames: Seq<ChannelFrameView>) -> Seq<ChannelFrameView> {
    frames.filter(|frame: ChannelFrameView| frame is Datagram)
}

/// Whether `datagrams` are the data of the DATAGRAM frames among `frames`, one
/// datagram for each frame and in their order, under the channel and the number of
/// the packet that they came in.
pub open spec fn datagrams_match(
    datagrams: Seq<ChannelDatagramView>,
    channel_id: Seq<u8>,
    packet_number: u64,
    frames: Seq<ChannelFrameView>,
) -> bool {
    let sent = datagram_frames(frames);
    &&& datagrams.len() == sent.len()
    &&& forall|k: int|
        0 <= k < sent.len() ==> {
            &&& (#[trigger] datagrams[k]).channel_id == channel_id
            &&& datagrams[k].packet_number == packet_number
            &&& sent[k] == (ChannelFrameView::Datagram { data: datagrams[k].data })
        }
}

/// Of the frames of a packet, every DATAGRAM frame gives one datagram, whatever its
/// size, and no other frame gives one: the k-th datagram has the data of the k-th
/// DATAGRAM frame.
pub proof fn law_datagrams_of_frames(
    channel_id: Seq<u8>,
    packet_number: u64,
    frames: Seq<ChannelFrameView>,
)
    ensures
        datagrams_match(
            receive::datagrams_of(channel_id, packet_number, frames),
            channel_id,
            packet_number,
            frames,
        ),
    decreases frames.len(),
{
    reveal(Seq::filter);
    if frames.len() > 0 {
        let before = frames.drop_last();
        law_datagrams_of_frames(channel_id, packet_number, before);
        let datagrams = receive::datagrams_of(channel_id, packet_number, frames);
        let earlier = receive::datagrams_of(channel_id, packet_number, before);
        let sent = datagram_frames(frames);
        assert forall|k: int| 0 <= k < sent.len() implies (#[trigger] datagrams[k]).channel_id
            == channel_id && datagrams[k].packet_number == packet_number && sent[k] == (
        ChannelFrameView::Datagram { data: datagrams[k].data }) by {
            if k < earlier.len() {
                assert(datagrams[k] == earlier[k]);
                assert(sent[k] == datagram_frames(before)[k]);
            }
        }
    }
}

/// The datagrams of frames that come one list behind the other are those of the
/// lists.
pub proof fn law_datagrams_join(
    channel_id: Seq<u8>,
    packet_number: u64,
    a: Seq<ChannelFrameView>,
    b: Seq<ChannelFrameView>,
)
    ensures
        receive::datagrams_of(channel_id, packet_number, a + b) == receive::datagrams_of(
            channel_id,
            packet_number,
            a,
        ) + receive::datagrams_of(channel_id, packet_number, b),
    decreases b.len(),
{
    if b.len() == 0 {
        assert(a + b =~= a);
    } else {
        law_datagrams_join(channel_id, packet_number, a, b.drop_last());
        assert((a + b).drop_last() =~= a + b.drop_last());
    }
}

/// Whether `next` is `state`, but for the datagrams of a packet that were released:
/// they wait behind those that waited, and the packet is to be acknowledged.
pub open spec fn released_packet(
    state: ReceiveView,
    next: ReceiveView,
    packet_number: u64,
    frames: Seq<ChannelFrameView>,
) -> bool {
    &&& next.datagrams.len() >= state.datagrams.len()
    &&& next.datagrams.take(state.datagrams.len() as int) == state.datagrams
    &&& datagrams_match(
        next.datagrams.skip(state.datagrams.len() as int),
        state.announce.channel_id,
        packet_number,
        frames,
    )
    &&& next.acks.pending
    &&& forall|n: u64|
        #![trigger next.acks.recorded.contains(n)]
        next.acks.recorded.contains(n) <==> n == packet_number || state.acks.recorded.contains(n)
    &&& next.announce == state.announce
    &&& next.keys == state.keys
    &&& next.integrity_hash == state.integrity_hash
    &&& next.integrity_hashes == state.integrity_hashes
    &&& next.pending == state.pending
    &&& next.largest == state.largest
}

// ---------------------------------------------------------------------------
// Keys and hashes
// ---------------------------------------------------------------------------

/// The key of a packet is one that is known, that begins at the packet or before it,
/// and whose number is odd exactly if the key phase bit is set. No such key has a
/// larger number.
pub proof fn law_key_of_packet(keys: Map<u64, KeyView>, packet_number: u64, key_phase: bool)
    requires
        keys.dom().finite(),
    ensures
        match receive::newest_key(keys, packet_number, key_phase) {
            Some(key) => exists|sequence: u64|
                {
                    &&& #[trigger] keys.contains_key(sequence)
                    &&& keys[sequence] == key
                    &&& key.from_packet_number <= packet_number
                    &&& key.key_sequence % 2 == (if key_phase {
                        1int
                    } else {
                        0int
                    })
                    &&& forall|other: u64| #[trigger]
                        keys.contains_key(other) && keys[other].from_packet_number <= packet_number
                            && keys[other].key_sequence % 2 == (if key_phase {
                            1int
                        } else {
                            0int
                        }) ==> other <= sequence
                },
            None => forall|other: u64| #[trigger]
                keys.contains_key(other) && keys[other].from_packet_number <= packet_number ==> (
                keys[other].key_sequence % 2 == 1) != key_phase,
        },
{
    if exists|sequence: u64| receive::key_matches(keys, packet_number, key_phase, sequence) {
        let matching = Set::new(
            |sequence: u64| receive::key_matches(keys, packet_number, key_phase, sequence),
        );
        let some = choose|sequence: u64|
            receive::key_matches(keys, packet_number, key_phase, sequence);
        assert(matching.contains(some));
        assert(matching.subset_of(keys.dom()));
        vstd::set_lib::lemma_set_subset_finite(keys.dom(), matching);
        ordered::lemma_ascending_exists(matching);
        let order = ordered::ascending(matching);
        assert(order.to_set().contains(some));
        let last = order.last();
        assert(order.to_set().contains(last));
        assert(matching.contains(last));
        assert forall|other: u64|
            receive::key_matches(keys, packet_number, key_phase, other) implies other <= last by {
            assert(order.to_set().contains(other));
            let k = choose|k: int| 0 <= k < order.len() && order[k] == other;
            if k < order.len() - 1 {
                assert(order[k] < order[order.len() - 1]);
            }
        }
        assert(receive::key_matches(keys, packet_number, key_phase, last) && forall|other: u64|
            receive::key_matches(keys, packet_number, key_phase, other) ==> other <= last);
        let chosen = choose|sequence: u64| #[trigger]
            receive::key_matches(keys, packet_number, key_phase, sequence) && forall|other: u64|
                receive::key_matches(keys, packet_number, key_phase, other) ==> other <= sequence;
        assert(keys.contains_key(chosen));
        assert forall|other: u64| #[trigger]
            keys.contains_key(other) && keys[other].from_packet_number <= packet_number
                && keys[other].key_sequence % 2 == (if key_phase {
                1int
            } else {
                0int
            }) implies other <= chosen by {
            assert(receive::key_matches(keys, packet_number, key_phase, other));
        }
    } else {
        assert forall|other: u64| #[trigger]
            keys.contains_key(other) && keys[other].from_packet_number
                <= packet_number implies (keys[other].key_sequence % 2 == 1) != key_phase by {
            assert(!receive::key_matches(keys, packet_number, key_phase, other));
        }
    }
}

/// A key of another channel is refused, and one that says something else than the
/// key known under its number. Any other key is known from then on, and the other keys
/// stay. Nothing else changes but that work under way is given up; then the packets
/// that wait are gone through, from the lowest number up.
pub proof fn law_key_taken(state: ReceiveView, key: KeyView)
    requires
        state.valid(),
    ensures
        ({
            let sequence = key.key_sequence;
            let refused = key.channel_id != state.announce.channel_id || (
            state.keys.contains_key(sequence) && (state.keys[sequence].from_packet_number
                != key.from_packet_number || state.keys[sequence].secret != key.secret));
            &&& refused ==> state.key_inserted(key) == (
                ReceiveView { stage: None, ..state },
                ReceiveStepView::Done(Err(Error::FrameEncoding)),
            )
            &&& !refused ==> {
                let (next, step) = state.key_inserted(key);
                &&& next.keys.contains_key(sequence) && next.keys[sequence] == key
                &&& forall|other: u64| #[trigger]
                    next.keys.contains_key(other) <==> other == sequence
                        || state.keys.contains_key(other)
                &&& forall|other: u64|
                    state.keys.contains_key(other) && other != sequence
                        ==> #[trigger] next.keys[other] == state.keys[other]
                &&& (ReceiveView { stage: None, ..next }) == (ReceiveView {
                    keys: next.keys,
                    stage: None,
                    ..state
                })
                &&& waiting_gone_through(next, step)
            }
        }),
{
    let sequence = key.key_sequence;
    let taken = ReceiveView { keys: state.keys.insert(sequence, key), stage: None, ..state };
    lemma_gone_through(taken);
}

/// Whether `next` and `step` are what comes of going through the packets that wait,
/// from the lowest number up.
pub open spec fn waiting_gone_through(next: ReceiveView, step: ReceiveStepView) -> bool {
    exists|order: Seq<u64>| #[trigger]
        gone_through(next, order) && (next, step) == (ReceiveView { stage: None, ..next }).advance(
            ReleaseQueueView { rest: order, released: Seq::empty() },
        )
}

proof fn lemma_gone_through(state: ReceiveView)
    requires
        state.pending.dom().finite(),
        state.stage is None,
    ensures
        ({
            let (next, step) = state.release_ready();
            &&& (ReceiveView { stage: None, ..next }) == state
            &&& waiting_gone_through(next, step)
        }),
{
    ordered::lemma_ascending_exists(state.pending.dom());
    let order = ordered::ascending(state.pending.dom());
    lemma_all_in_order(order, state.pending.dom());
    lemma_advance_keeps(state, ReleaseQueueView { rest: order, released: Seq::empty() });
    assert(gone_through(state.release_ready().0, order));
}

/// Whether `order` are the numbers of the packets that wait, from the lowest up.
pub open spec fn gone_through(state: ReceiveView, order: Seq<u64>) -> bool {
    &&& forall|i: int, j: int| 0 <= i < j < order.len() ==> #[trigger] order[i] < #[trigger] order[j]
    &&& forall|n: u64| #[trigger] order.contains(n) <==> state.pending.contains_key(n)
}

proof fn lemma_all_in_order(order: Seq<u64>, numbers: Set<u64>)
    requires
        ordered::increasing(order),
        order.to_set() == numbers,
    ensures
        forall|n: u64| #[trigger] order.contains(n) <==> numbers.contains(n),
{
    assert forall|n: u64| #[trigger] order.contains(n) <==> numbers.contains(n) by {
        assert(order.to_set().contains(n) <==> order.contains(n));
    }
}

/// Whether `hashes`, kept by packet number, hold `n` hashes of `hash_len` bytes for the
/// packets from `start` on, taken one after the other out of `bytes`: byte `j` of the
/// hash of the packet `start + i` is byte `i * hash_len + j`.
pub open spec fn hashes_kept(
    hashes: Map<u64, Seq<u8>>,
    start: u64,
    n: int,
    hash_len: int,
    bytes: Seq<u8>,
) -> bool {
    &&& forall|k: u64|
        start <= k < start + n ==> #[trigger] hashes.contains_key(k) && hashes[k].len() == hash_len
    &&& forall|k: u64, j: int|
        start <= k < start + n && 0 <= j < hash_len ==> #[trigger] hashes[k][j] == bytes[(k - start)
            * hash_len + j]
}

/// An MC_INTEGRITY frame with `n` hashes is taken if it is for the channel, and says
/// no other count than `n`. Byte `j` of the hash of packet `start + i` is then byte
/// `i * hash_len + j` of the hashes in the frame. The hashes of other packets stay, and
/// nothing else changes but that work under way is given up; then the packets that
/// wait are gone through, from the lowest number up.
pub proof fn law_hashes_taken(state: ReceiveView, integrity: IntegrityView, n: u64)
    requires
        state.valid(),
        n * state.integrity_hash.len() == integrity.packet_hashes.len(),
        integrity.packet_hash_count is None || integrity.packet_hash_count == Some(n),
        integrity.channel_id == state.announce.channel_id,
        integrity.packet_number_start + n <= u64::MAX + 1,
    ensures
        ({
            let start = integrity.packet_number_start;
            let (next, step) = state.integrity_inserted(integrity);
            &&& hashes_kept(
                next.integrity_hashes,
                start,
                n as int,
                state.integrity_hash.len() as int,
                integrity.packet_hashes,
            )
            &&& forall|k: u64| #[trigger]
                next.integrity_hashes.contains_key(k) <==> start <= k < start + n
                    || state.integrity_hashes.contains_key(k)
            &&& forall|k: u64|
                state.integrity_hashes.contains_key(k) && !(start <= k < start + n)
                    ==> #[trigger] next.integrity_hashes[k] == state.integrity_hashes[k]
            &&& (ReceiveView { stage: None, ..next }) == (ReceiveView {
                integrity_hashes: next.integrity_hashes,
                stage: None,
                ..state
            })
            &&& waiting_gone_through(next, step)
        }),
{
    let len = state.integrity_hash.len();
    let start = integrity.packet_number_start;
    lemma_hash_len(state);
    lemma_count(n as int, len as int, integrity.packet_hashes.len() as int);
    assert(receive::hash_count(integrity, len) == Ok::<u64, Error>(n));
    let hashes = receive::with_hashes(
        state.integrity_hashes,
        start,
        integrity.packet_hashes,
        len,
        n as int,
    );
    let taken = ReceiveView { integrity_hashes: hashes, stage: None, ..state };
    lemma_hashes_kept(state.integrity_hashes, start, integrity.packet_hashes, len, n as int);
    lemma_gone_through(taken);
    assert(state.integrity_inserted(integrity) == taken.release_ready());
}

proof fn lemma_hash_len(state: ReceiveView)
    requires
        state.valid(),
    ensures
        4 <= state.integrity_hash.len() <= 64,
{
    algorithms::law_hash_len(state.announce.integrity_hash_algorithm);
}

proof fn lemma_count(n: int, len: int, total: int)
    requires
        len > 0,
        n >= 0,
        n * len == total,
    ensures
        total % len == 0,
        total / len == n,
{
    vstd::arithmetic::div_mod::lemma_div_by_multiple(n, len);
    vstd::arithmetic::div_mod::lemma_mod_multiples_basic(n, len);
}

proof fn lemma_hashes_kept(
    known: Map<u64, Seq<u8>>,
    start: u64,
    bytes: Seq<u8>,
    len: usize,
    n: int,
)
    requires
        0 <= n,
        n * len <= bytes.len(),
        start + n <= u64::MAX + 1,
    ensures
        hashes_kept(
            receive::with_hashes(known, start, bytes, len, n),
            start,
            n,
            len as int,
            bytes,
        ),
{
    let hashes = receive::with_hashes(known, start, bytes, len, n);
    assert forall|k: u64| start <= k < start + n implies #[trigger] hashes.contains_key(k)
        && hashes[k].len() == len by {
        lemma_hash_inside(k - start, n, len as int);
    }
    assert forall|k: u64, j: int| start <= k < start + n && 0 <= j < len implies #[trigger] hashes[k][j]
        == bytes[(k - start) * len + j] by {
        lemma_hash_inside(k - start, n, len as int);
    }
}

proof fn lemma_hash_inside(i: int, n: int, len: int)
    requires
        0 <= i < n,
        0 <= len,
    ensures
        0 <= i * len,
        i * len + len <= n * len,
{
    assert(0 <= i * len && i * len + len <= n * len) by (nonlinear_arith)
        requires
            0 <= i < n,
            0 <= len,
    ;
}

/// The hashes that are kept of a frame, one after the other, are those in the frame.
pub proof fn law_kept_hashes_join(
    hashes: Map<u64, Seq<u8>>,
    start: u64,
    n: int,
    hash_len: int,
    bytes: Seq<u8>,
)
    requires
        0 <= n,
        start + n <= u64::MAX + 1,
        1 <= hash_len,
        n * hash_len == bytes.len(),
        hashes_kept(hashes, start, n, hash_len, bytes),
    ensures
        Seq::new(n as nat, |i: int| hashes[(start + i) as u64]).flatten() == bytes,
    decreases n,
{
    let all = Seq::new(n as nat, |i: int| hashes[(start + i) as u64]);
    if n == 0 {
        assert(0 * hash_len == 0) by (nonlinear_arith);
        assert(all =~= Seq::empty());
        assert(bytes =~= Seq::<u8>::empty());
        assert(all.flatten() =~= Seq::<u8>::empty());
    } else {
        let at = (start + (n - 1)) as u64;
        let last = hashes[at];
        assert((n - 1) * hash_len + hash_len == n * hash_len) by (nonlinear_arith);
        assert((n - 1) * hash_len >= 0) by (nonlinear_arith)
            requires
                n >= 1,
                hash_len >= 1,
        ;
        let head = bytes.take((n - 1) * hash_len);
        assert forall|k: u64, j: int|
            start <= k < start + (n - 1) && 0 <= j < hash_len implies #[trigger] hashes[k][j]
            == head[(k - start) * hash_len + j] by {
            lemma_hash_inside(k - start, n - 1, hash_len);
            assert(hashes[k][j] == bytes[(k - start) * hash_len + j]);
        }
        law_kept_hashes_join(hashes, start, n - 1, hash_len, head);
        let before = Seq::new((n - 1) as nat, |i: int| hashes[(start + i) as u64]);
        assert(all =~= before.push(last));
        assert(hashes.contains_key(at));
        assert(last.len() == hash_len);
        before.lemma_flatten_push(last);
        assert forall|j: int| 0 <= j < hash_len implies last[j] == bytes[(n - 1) * hash_len
            + j] by {
            assert(hashes[at][j] == bytes[(at - start) * hash_len + j]);
        }
        assert(head + last =~= bytes);
    }
}

/// An MC_INTEGRITY frame for another channel is refused, and one whose hashes are
/// not as many as it says, or not a whole number of hashes. Nothing of it is kept.
pub proof fn law_hashes_refused(state: ReceiveView, integrity: IntegrityView)
    requires
        state.valid(),
        integrity.channel_id != state.announce.channel_id || (forall|n: int|
            0 <= n && (integrity.packet_hash_count matches Some(count) ==> count == n)
                ==> #[trigger] (n * state.integrity_hash.len()) != integrity.packet_hashes.len()),
    ensures
        state.integrity_inserted(integrity) == (
            ReceiveView { stage: None, ..state },
            ReceiveStepView::Done(Err(Error::FrameEncoding)),
        ),
{
    let len = state.integrity_hash.len() as int;
    let total = integrity.packet_hashes.len() as int;
    lemma_hash_len(state);
    if integrity.channel_id == state.announce.channel_id {
        if let Some(count) = integrity.packet_hash_count {
            assert(count as int * state.integrity_hash.len() != total);
        } else {
            let n = total / len;
            vstd::arithmetic::div_mod::lemma_fundamental_div_mod(total, len);
            assert(n >= 0) by {
                vstd::arithmetic::div_mod::lemma_div_pos_is_pos(total, len);
            }
            assert(n * state.integrity_hash.len() != total);
            assert(len * n == n * len) by (nonlinear_arith);
        }
    }
}

/// Of hashes for packets beyond the last packet number, those before it are kept and
/// the frame is refused.
pub proof fn law_hashes_beyond_last_number(state: ReceiveView, integrity: IntegrityView, n: u64)
    requires
        state.valid(),
        n * state.integrity_hash.len() == integrity.packet_hashes.len(),
        integrity.packet_hash_count is None || integrity.packet_hash_count == Some(n),
        integrity.channel_id == state.announce.channel_id,
        integrity.packet_number_start + n > u64::MAX + 1,
    ensures
        ({
            let (next, step) = state.integrity_inserted(integrity);
            let start = integrity.packet_number_start;
            &&& step == ReceiveStepView::Done(Err(Error::IntegerOverflow))
            &&& hashes_kept(
                next.integrity_hashes,
                start,
                u64::MAX + 1 - start,
                state.integrity_hash.len() as int,
                integrity.packet_hashes,
            )
            &&& forall|k: u64|
                state.integrity_hashes.contains_key(k) && k < start
                    ==> #[trigger] next.integrity_hashes[k] == state.integrity_hashes[k]
            &&& forall|k: u64| #[trigger]
                next.integrity_hashes.contains_key(k) <==> start <= k
                    || state.integrity_hashes.contains_key(k)
            &&& next == (ReceiveView {
                integrity_hashes: next.integrity_hashes,
                stage: None,
                ..state
            })
        }),
{
    let len = state.integrity_hash.len();
    let start = integrity.packet_number_start;
    lemma_hash_len(state);
    lemma_count(n as int, len as int, integrity.packet_hashes.len() as int);
    let numbers = u64::MAX + 1 - start;
    assert(numbers * len <= n * len) by (nonlinear_arith)
        requires
            numbers <= n,
            len >= 0,
    ;
    lemma_hashes_kept(state.integrity_hashes, start, integrity.packet_hashes, len, numbers);
}

// ---------------------------------------------------------------------------
// New receivers
// ---------------------------------------------------------------------------

/// A receiver can be had for a channel ID of 1 to 20 bytes and for algorithms that
/// there are, and holds nothing yet.
pub proof fn law_new_receiver(announce: AnnounceView)
    ensures
        ({
            let made = receive::new_receiver(announce);
            let id_valid = 1 <= announce.channel_id.len() <= 20;
            let available = 0x1301 <= announce.header_protection_algorithm <= 0x1303 && 0x1301
                <= announce.aead_algorithm <= 0x1303 && 1 <= announce.integrity_hash_algorithm
                <= 8;
            &&& !id_valid ==> made == Err::<ReceiveView, Error>(Error::FrameEncoding)
            &&& id_valid && !available ==> made == Err::<ReceiveView, Error>(Error::NotAvailable)
            &&& id_valid && available ==> {
                &&& made matches Ok(state)
                &&& state.announce == announce
                &&& algorithms::integrity_hash_of(announce.integrity_hash_algorithm) == Ok::<
                    algorithms::IntegrityHashAlgorithm,
                    Error,
                >(state.integrity_hash)
                &&& state.keys == Map::<u64, KeyView>::empty()
                &&& state.integrity_hashes == Map::<u64, Seq<u8>>::empty()
                &&& state.pending == Map::<u64, PendingView>::empty()
                &&& state.accepted == Set::<u64>::empty()
                &&& state.acks.recorded == Set::<u64>::empty()
                &&& !state.acks.pending
                &&& state.largest == 0
                &&& state.datagrams.len() == 0
                &&& state.stage is None
            }
        }),
{
}

// ---------------------------------------------------------------------------
// Steps
// ---------------------------------------------------------------------------

/// A packet is ready if it waits, its hash is known, and a key for it is.
pub proof fn law_ready_packet(state: ReceiveView, n: u64)
    ensures
        state.ready(n) is Some ==> state.pending.contains_key(n)
            && state.integrity_hashes.contains_key(n),
        state.pending.contains_key(n) && state.integrity_hashes.contains_key(n) ==> state.ready(n)
            == receive::newest_key(state.keys, n, state.pending[n].key_phase),
{
}

/// Of the packets that are gone through, those that are not ready are passed over.
/// The first that is ready is hashed: the hash function of the channel is asked for,
/// over the packet as it arrived. Where none is, the work ends with what was
/// released before.
pub proof fn law_next_ready_packet(state: ReceiveView, queue: ReleaseQueueView, i: int)
    requires
        0 <= i <= queue.rest.len(),
        forall|j: int| 0 <= j < i ==> state.ready(#[trigger] queue.rest[j]) is None,
        i < queue.rest.len() ==> state.ready(queue.rest[i]) is Some,
    ensures
        i == queue.rest.len() ==> state.advance(queue) == (
            ReceiveView { stage: None, ..state },
            ReceiveStepView::Done(Ok(queue.released)),
        ),
        i < queue.rest.len() ==> ({
            let n = queue.rest[i];
            state.advance(queue) == (
                ReceiveView {
                    stage: Some(
                        ReceiveStageView::Digest {
                            packet_number: n,
                            key: state.ready(n)->Some_0,
                            queue: ReleaseQueueView {
                                rest: queue.rest.subrange(i + 1, queue.rest.len() as int),
                                released: queue.released,
                            },
                        },
                    ),
                    ..state
                },
                ReceiveStepView::Await(
                    CryptoRequestView::Hash {
                        algorithm: state.integrity_hash.function(),
                        data: state.pending[n].packet,
                    },
                ),
            )
        }),
    decreases i,
{
    if i > 0 {
        let rest = ReleaseQueueView { rest: queue.rest.skip(1), ..queue };
        assert(state.ready(queue.rest[0]) is None);
        assert forall|j: int| 0 <= j < i - 1 implies state.ready(#[trigger] rest.rest[j]) is None by {
            assert(rest.rest[j] == queue.rest[j + 1]);
        }
        law_next_ready_packet(state, rest, i - 1);
        if i < queue.rest.len() {
            assert(rest.rest[i - 1] == queue.rest[i]);
            assert(rest.rest.subrange(i, rest.rest.len() as int) =~= queue.rest.subrange(
                i + 1,
                queue.rest.len() as int,
            ));
        }
    } else if queue.rest.len() > 0 {
        assert(queue.rest.skip(1) =~= queue.rest.subrange(1, queue.rest.len() as int));
    }
}

/// When a packet arrives, the mask of its header is asked for, or the packet is
/// refused. Either way nothing is changed by it yet, but that work under way is given
/// up.
pub proof fn law_packet_taken_up(state: ReceiveView, packet: Seq<u8>)
    ensures
        match packet::opening_mask_request(state.announce, packet) {
            Err(e) => state.packet_arrived(packet) == (
                ReceiveView { stage: None, ..state },
                ReceiveStepView::Done(Err(e)),
            ),
            Ok(request) => state.packet_arrived(packet) == (
                ReceiveView { stage: Some(ReceiveStageView::Metadata { packet }), ..state },
                ReceiveStepView::Await(request),
            ),
        },
{
}

/// Once the mask of a packet that arrived is known, so are its number and its key
/// phase. The largest number that was seen is kept up to date. A packet whose number
/// was opened before, or waits, is dropped. Any other one waits, as it arrived, and is
/// looked at at once, alone.
pub proof fn law_arrived_packet_waits(state: ReceiveView, packet: Seq<u8>, mask: Seq<u8>)
    requires
        state.stage == Some(ReceiveStageView::Metadata { packet }),
    ensures
        match packet::metadata(state.announce, packet, mask, state.largest) {
            Err(e) => state.answered(Ok(mask)) == (
                ReceiveView { stage: None, ..state },
                ReceiveStepView::Done(Err(e)),
            ),
            Ok(parsed) => {
                let n = parsed.packet_number;
                let largest = if n > state.largest {
                    n
                } else {
                    state.largest
                };
                if state.accepted.contains(n) || state.pending.contains_key(n) {
                    state.answered(Ok(mask)) == (
                        ReceiveView { largest, stage: None, ..state },
                        ReceiveStepView::Done(Ok(Seq::empty())),
                    )
                } else {
                    let waiting = ReceiveView {
                        largest,
                        pending: state.pending.insert(
                            n,
                            PendingView { packet, key_phase: parsed.key_phase },
                        ),
                        stage: None,
                        ..state
                    };
                    state.answered(Ok(mask)) == waiting.advance(
                        ReleaseQueueView { rest: seq![n], released: Seq::empty() },
                    )
                }
            },
        },
{
}

/// A packet that waited waits no longer once its digest begins with the hash that
/// was vouched for; the mask of its header is then asked for. With any other digest it
/// is refused, and goes on waiting.
pub proof fn law_waiting_packet_hashed(
    state: ReceiveView,
    packet_number: u64,
    key: KeyView,
    queue: ReleaseQueueView,
    digest: Seq<u8>,
)
    requires
        state.valid(),
        state.stage == Some(ReceiveStageView::Digest { packet_number, key, queue }),
    ensures
        ({
            let len = state.integrity_hash.len() as int;
            let right = digest.len() >= len && digest.take(len)
                == state.integrity_hashes[packet_number];
            let packet = state.pending[packet_number].packet;
            let without = ReceiveView {
                pending: state.pending.remove(packet_number),
                stage: None,
                ..state
            };
            &&& !right ==> state.answered(Ok(digest)) == (
                ReceiveView { stage: None, ..state },
                ReceiveStepView::Done(Err(Error::Decrypt)),
            )
            &&& right ==> match packet::opening_mask_request(state.announce, packet) {
                Err(e) => state.answered(Ok(digest)) == (
                    without,
                    ReceiveStepView::Done(Err(e)),
                ),
                Ok(request) => state.answered(Ok(digest)) == (
                    ReceiveView {
                        stage: Some(
                            ReceiveStageView::Header { packet_number, key, packet, queue },
                        ),
                        ..without
                    },
                    ReceiveStepView::Await(request),
                ),
            }
        }),
{
    lemma_digest_right(state, packet_number, digest);
}

proof fn lemma_digest_right(state: ReceiveView, packet_number: u64, digest: Seq<u8>)
    requires
        state.valid(),
        state.integrity_hashes.contains_key(packet_number),
    ensures
        ({
            let len = state.integrity_hash.len() as int;
            state.hash_right(packet_number, digest) <==> digest.len() >= len && digest.take(len)
                == state.integrity_hashes[packet_number]
        }),
{
    let len = state.integrity_hash.len() as int;
    if digest.len() == len {
        assert(digest.take(len) =~= digest);
    }
}

/// The header of a packet whose hash is right is opened with its mask, and the
/// payload is asked for. Nothing changes by it.
pub proof fn law_header_answered(
    state: ReceiveView,
    packet_number: u64,
    key: KeyView,
    packet: Seq<u8>,
    queue: ReleaseQueueView,
    mask: Seq<u8>,
)
    requires
        state.stage == Some(ReceiveStageView::Header { packet_number, key, packet, queue }),
    ensures
        match packet::open_request(
            state.announce,
            key,
            packet_number,
            packet,
            mask,
            state.largest,
        ) {
            Err(e) => state.answered(Ok(mask)) == (
                ReceiveView { stage: None, ..state },
                ReceiveStepView::Done(Err(e)),
            ),
            Ok((key_phase, request)) => state.answered(Ok(mask)) == (
                ReceiveView {
                    stage: Some(
                        ReceiveStageView::Payload { packet_number, key, key_phase, queue },
                    ),
                    ..state
                },
                ReceiveStepView::Await(request),
            ),
        },
{
}

/// Once the payload of a packet is opened and read, the data of its DATAGRAM frames is
/// released, in number and order as it was sent: it waits to be taken behind what
/// waited, and is handed back behind what the same call released before. The packet is
/// to be acknowledged, and is not opened again. A payload that cannot be read changes
/// nothing.
pub proof fn law_payload_released(
    state: ReceiveView,
    packet_number: u64,
    key: KeyView,
    key_phase: bool,
    queue: ReleaseQueueView,
    plaintext: Seq<u8>,
)
    requires
        key.channel_id == state.announce.channel_id,
        state.stage == Some(ReceiveStageView::Payload { packet_number, key, key_phase, queue }),
    ensures
        match channel_frame::parse_channel_frames(state.announce.channel_id, plaintext) {
            Err(e) => state.answered(Ok(plaintext)) == (
                ReceiveView { stage: None, ..state },
                ReceiveStepView::Done(Err(e)),
            ),
            Ok(frames) => {
                let (next, step) = state.answered(Ok(plaintext));
                let new = next.datagrams.skip(state.datagrams.len() as int);
                &&& released_packet(state, next, packet_number, frames)
                &&& next.accepted == state.accepted.insert(packet_number)
                &&& (next, step) == (ReceiveView { stage: None, ..next }).advance(
                    ReleaseQueueView { rest: queue.rest, released: queue.released + new },
                )
            },
        },
{
    if let Ok(frames) = channel_frame::parse_channel_frames(
        state.announce.channel_id,
        plaintext,
    ) {
        let (next, step) = state.answered(Ok(plaintext));
        let new = receive::datagrams_of(state.announce.channel_id, packet_number, frames);
        law_datagrams_of_frames(state.announce.channel_id, packet_number, frames);
        let idle = ReceiveView {
            accepted: state.accepted.insert(packet_number),
            ..state.idle()
        }.delivered(packet_number, frames);
        lemma_advance_keeps(
            idle,
            ReleaseQueueView { rest: queue.rest, released: queue.released + new },
        );
        assert((ReceiveView { stage: None, ..next }) == idle);
        assert(next.datagrams.take(state.datagrams.len() as int) =~= state.datagrams);
        assert(next.datagrams.skip(state.datagrams.len() as int) =~= new);
    }
}

proof fn lemma_advance_keeps(state: ReceiveView, queue: ReleaseQueueView)
    requires
        state.stage is None,
    ensures
        (ReceiveView { stage: None, ..state.advance(queue).0 }) == state,
    decreases queue.rest.len(),
{
    if queue.rest.len() > 0 && state.ready(queue.rest[0]) is None {
        lemma_advance_keeps(state, ReleaseQueueView { rest: queue.rest.skip(1), ..queue });
    }
}

/// Of a packet that was opened elsewhere, the hash of the packet as it arrived is
/// asked for, if the packet is of the channel and both its key and its hash are known.
pub proof fn law_opened_packet_taken_up(
    state: ReceiveView,
    packet: ChannelPacketView,
    protected_packet: Seq<u8>,
)
    ensures
        ({
            let own = packet.channel_id == state.announce.channel_id;
            let known = state.keys.contains_key(packet.key_sequence)
                && state.integrity_hashes.contains_key(packet.packet_number);
            &&& !own ==> state.opened_packet_arrived(packet, protected_packet) == (
                ReceiveView { stage: None, ..state },
                ReceiveStepView::Done(Err(Error::FrameEncoding)),
            )
            &&& own && !known ==> state.opened_packet_arrived(packet, protected_packet) == (
                ReceiveView { stage: None, ..state },
                ReceiveStepView::Done(Err(Error::NotAvailable)),
            )
            &&& own && known ==> state.opened_packet_arrived(packet, protected_packet) == (
                ReceiveView {
                    stage: Some(ReceiveStageView::Authenticated { opened: packet }),
                    ..state
                },
                ReceiveStepView::Await(
                    CryptoRequestView::Hash {
                        algorithm: state.integrity_hash.function(),
                        data: protected_packet,
                    },
                ),
            )
        }),
{
}

/// A packet that was opened elsewhere is released once its digest begins with the
/// hash that was vouched for: the data of its DATAGRAM frames, in number and order. With
/// any other digest it is refused.
pub proof fn law_opened_packet_released(
    state: ReceiveView,
    packet: ChannelPacketView,
    digest: Seq<u8>,
)
    requires
        state.valid(),
        state.stage == Some(ReceiveStageView::Authenticated { opened: packet }),
    ensures
        ({
            let len = state.integrity_hash.len() as int;
            let right = digest.len() >= len && digest.take(len)
                == state.integrity_hashes[packet.packet_number];
            let (next, step) = state.answered(Ok(digest));
            &&& !right ==> next == (ReceiveView { stage: None, ..state }) && step
                == ReceiveStepView::Done(Err(Error::Decrypt))
            &&& right ==> {
                &&& released_packet(state, next, packet.packet_number, packet.frames)
                &&& next.accepted == state.accepted
                &&& next.stage is None
                &&& step == ReceiveStepView::Done(
                    Ok(next.datagrams.skip(state.datagrams.len() as int)),
                )
            }
        }),
{
    lemma_digest_right(state, packet.packet_number, digest);
    let n = packet.packet_number;
    law_datagrams_of_frames(state.announce.channel_id, n, packet.frames);
    let new = receive::datagrams_of(state.announce.channel_id, n, packet.frames);
    let (next, step) = state.answered(Ok(digest));
    if state.hash_right(n, digest) {
        assert(next.datagrams.take(state.datagrams.len() as int) =~= state.datagrams);
        assert(next.datagrams.skip(state.datagrams.len() as int) =~= new);
    }
}

/// An error of the cryptographic library ends the work with that error, and nothing
/// else changes. An answer that nothing was asked for is refused.
pub proof fn law_no_answer(state: ReceiveView, reply: Result<Seq<u8>, Error>)
    ensures
        state.stage is None ==> state.answered(reply) == (
            state,
            ReceiveStepView::Done(Err(Error::Internal)),
        ),
        state.stage is Some ==> (reply matches Err(e) ==> state.answered(reply) == (
            ReceiveView { stage: None, ..state },
            ReceiveStepView::Done(Err(e)),
        )),
{
}

} // verus!
