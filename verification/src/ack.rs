//! Which multicast packets of a channel are acknowledged.

use vstd::prelude::*;
use crate::codec::VARINT_LIMIT;
use crate::frame;
use crate::frame_laws;
use crate::types::{Ack, AckRange, AckView, FrameView};

verus! {

/// Packet numbers without a gap, from `start` to `end`.
#[derive(Clone, Copy, Debug, PartialEq, Eq, Structural)]
pub struct AckSpan {
    /// The smallest number.
    pub start: u64,
    /// The largest number.
    pub end: u64,
}

/// Tracks cumulative multicast packet acknowledgments for one channel.
#[derive(Debug, PartialEq, Eq)]
pub struct AckTracker {
    ranges: Vec<AckSpan>,
    pending: bool,
}

/// What an [`AckTracker`] holds.
pub struct AckTrackerView {
    /// The packet numbers that were recorded.
    pub recorded: Set<u64>,
    /// Whether one of them was recorded after the last acknowledgment was sent.
    pub pending: bool,
}

/// Whether one of `spans` holds `n`.
pub open spec fn covered(spans: Seq<AckSpan>, n: u64) -> bool {
    exists|i: int| 0 <= i < spans.len() && (#[trigger] spans[i]).start <= n <= spans[i].end
}

/// The packet numbers that `spans` hold.
pub open spec fn numbers(spans: Seq<AckSpan>) -> Set<u64> {
    Set::new(|n: u64| covered(spans, n))
}

/// Whether `spans` go upwards, and leave a gap between any two.
pub open spec fn canonical(spans: Seq<AckSpan>) -> bool {
    &&& forall|i: int| 0 <= i < spans.len() ==> (#[trigger] spans[i]).start <= spans[i].end
    &&& forall|i: int, j: int|
        0 <= i < j < spans.len() ==> (#[trigger] spans[i]).end + 1 < (#[trigger] spans[j]).start
}

/// The spans that the packet numbers in `recorded` form.
pub open spec fn spans_of(recorded: Set<u64>) -> Seq<AckSpan> {
    choose|spans: Seq<AckSpan>| #[trigger] canonical(spans) && numbers(spans) == recorded
}

/// The ACK range for the span before the `i`th one.
pub open spec fn range_before(spans: Seq<AckSpan>, i: int) -> AckRange {
    AckRange {
        gap: (spans[i].start - spans[i - 1].end - 2) as u64,
        ack_range_length: (spans[i - 1].end - spans[i - 1].start) as u64,
    }
}

/// The `MC_ACK` for `spans`, from the newest one down.
pub open spec fn ack_of(spans: Seq<AckSpan>, channel_id: Seq<u8>) -> AckView {
    AckView {
        channel_id,
        largest_acknowledged: spans.last().end,
        ack_delay: 0,
        first_ack_range: (spans.last().end - spans.last().start) as u64,
        ack_ranges: Seq::new(
            (spans.len() - 1) as nat,
            |i: int| range_before(spans, spans.len() - 1 - i),
        ),
        ecn_counts: None,
    }
}

impl AckTrackerView {
    /// The `MC_ACK` that waits to be sent.
    pub open spec fn waiting_ack(self, channel_id: Seq<u8>) -> Option<AckView> {
        if self.pending && self.recorded != Set::<u64>::empty() {
            Some(ack_of(spans_of(self.recorded), channel_id))
        } else {
            None
        }
    }

    /// The tracker after `packet_number` was recorded.
    pub open spec fn record(self, packet_number: u64) -> AckTrackerView {
        AckTrackerView { recorded: self.recorded.insert(packet_number), pending: true }
    }
}

/// What an optional `MC_ACK` holds.
pub open spec fn ack_option(ack: Option<Ack>) -> Option<AckView> {
    match ack {
        Some(ack) => Some(ack@),
        None => None,
    }
}

impl View for AckTracker {
    type V = AckTrackerView;

    closed spec fn view(&self) -> AckTrackerView {
        AckTrackerView { recorded: numbers(self.ranges@), pending: self.pending }
    }
}

impl Default for AckTracker {
    fn default() -> (tracker: Self)
        ensures
            tracker.wf(),
            tracker@ == (AckTrackerView { recorded: Set::empty(), pending: false }),
    {
        let tracker = AckTracker { ranges: Vec::new(), pending: false };
        assert(tracker@.recorded =~= Set::empty());
        tracker
    }
}

impl Clone for AckTracker {
    fn clone(&self) -> (copy: Self)
        ensures
            copy@ == self@,
            copy.wf() == self.wf(),
    {
        AckTracker {
            ranges: vstd::slice::slice_to_vec(self.ranges.as_slice()),
            pending: self.pending,
        }
    }
}

impl AckTracker {
    /// Whether the spans go upwards, and leave a gap between any two.
    pub closed spec fn wf(&self) -> bool {
        canonical(self.ranges@)
    }

    /// Records a validated multicast packet number.
    pub fn record_packet(&mut self, packet_number: u64)
        requires
            old(self).wf(),
        ensures
            final(self).wf(),
            final(self)@ == old(self)@.record(packet_number),
    {
        let ghost before = self.ranges@;
        let mut start: u64 = packet_number;
        let mut end: u64 = packet_number;
        let mut insert_at: usize = 0;

        while insert_at < self.ranges.len()
            invariant
                insert_at <= self.ranges@.len(),
                canonical(self.ranges@),
                start <= packet_number <= end,
                forall|i: int| 0 <= i < insert_at ==> (#[trigger] self.ranges@[i]).end + 1 < start,
                forall|n: u64|
                    (#[trigger] covered(self.ranges@, n)) || start <= n <= end <==> covered(
                        before,
                        n,
                    ) || n == packet_number,
            ensures
                insert_at < self.ranges@.len() ==> end + 1 < self.ranges@[insert_at as int].start,
            decreases self.ranges@.len() - insert_at,
        {
            let existing = self.ranges[insert_at];
            if end.saturating_add(1) < existing.start {
                break;
            }
            if existing.end.saturating_add(1) < start {
                insert_at += 1;
                continue;
            }
            let ghost ranges = self.ranges@;
            let ghost (s, e) = (start, end);
            if existing.start < start {
                start = existing.start;
            }
            if existing.end > end {
                end = existing.end;
            }
            self.ranges.remove(insert_at);
            proof {
                assert(self.ranges@ == ranges.remove(insert_at as int));
                assert forall|n: u64|
                    (#[trigger] covered(self.ranges@, n)) || start <= n <= end <==> covered(
                        before,
                        n,
                    ) || n == packet_number by {
                    lemma_covered_remove(ranges, insert_at as int, n);
                    assert(covered(ranges, n) || s <= n <= e <==> covered(before, n) || n
                        == packet_number);
                }
            }
        }

        let ghost ranges = self.ranges@;
        let span = AckSpan { start, end };
        self.ranges.insert(insert_at, span);
        self.pending = true;
        proof {
            assert(self.ranges@ == ranges.insert(insert_at as int, span));
            assert forall|n: u64| #[trigger] covered(self.ranges@, n) <==> covered(before, n) || n
                == packet_number by {
                lemma_covered_remove(self.ranges@, insert_at as int, n);
                assert(self.ranges@.remove(insert_at as int) =~= ranges);
                assert(covered(ranges, n) || start <= n <= end <==> covered(before, n) || n
                    == packet_number);
            }
            assert(self@.recorded =~= old(self)@.recorded.insert(packet_number));
        }
    }

    /// Builds the pending `MC_ACK`, if newly recorded packets are waiting.
    pub fn pending_ack(&self, channel_id: &[u8]) -> (ack: Option<Ack>)
        requires
            self.wf(),
        ensures
            ack_option(ack) == self@.waiting_ack(channel_id@),
    {
        proof {
            lemma_spans_of(self.ranges@);
            if self.ranges@.len() > 0 {
                assert(covered(self.ranges@, self.ranges@[0].start));
                assert(self@.recorded.contains(self.ranges@[0].start));
            } else {
                assert(self@.recorded =~= Set::empty());
            }
        }
        if !self.pending || self.ranges.len() == 0 {
            return None;
        }
        let last = self.ranges.len() - 1;
        let newest = self.ranges[last];
        let mut smallest_ack: u64 = newest.start;
        let mut ack_ranges: Vec<AckRange> = Vec::new();
        let mut i: usize = last;
        while i > 0
            invariant
                canonical(self.ranges@),
                i <= last,
                last == self.ranges@.len() - 1,
                smallest_ack == self.ranges@[i as int].start,
                ack_ranges@ =~= Seq::new(
                    (last - i) as nat,
                    |k: int| range_before(self.ranges@, last - k),
                ),
            decreases i,
        {
            let span = self.ranges[i - 1];
            ack_ranges.push(
                AckRange {
                    gap: smallest_ack - span.end - 2,
                    ack_range_length: span.end - span.start,
                },
            );
            smallest_ack = span.start;
            i = i - 1;
        }
        let ack = Ack {
            channel_id: vstd::slice::slice_to_vec(channel_id),
            largest_acknowledged: newest.end,
            ack_delay: 0,
            first_ack_range: newest.end - newest.start,
            ack_ranges,
            ecn_counts: None,
        };
        assert(ack@.ack_ranges =~= ack_of(self.ranges@, channel_id@).ack_ranges);
        Some(ack)
    }

    /// Marks the pending acknowledgment as sent.
    pub fn mark_sent(&mut self)
        ensures
            final(self).wf() == old(self).wf(),
            final(self)@ == (AckTrackerView { recorded: old(self)@.recorded, pending: false }),
    {
        self.pending = false;
    }
}

proof fn lemma_covered_remove(spans: Seq<AckSpan>, at: int, n: u64)
    requires
        0 <= at < spans.len(),
    ensures
        covered(spans, n) <==> covered(spans.remove(at), n) || spans[at].start <= n
            <= spans[at].end,
{
    let rest = spans.remove(at);
    if covered(spans, n) {
        let i = choose|i: int|
            0 <= i < spans.len() && (#[trigger] spans[i]).start <= n <= spans[i].end;
        if i < at {
            assert(rest[i] == spans[i]);
        } else if i > at {
            assert(rest[i - 1] == spans[i]);
        }
    }
    if covered(rest, n) {
        let i = choose|i: int|
            0 <= i < rest.len() && (#[trigger] rest[i]).start <= n <= rest[i].end;
        if i < at {
            assert(rest[i] == spans[i]);
        } else {
            assert(rest[i] == spans[i + 1]);
        }
    }
}

/// Packet numbers form spans in one way only.
pub proof fn law_spans_unique(a: Seq<AckSpan>, b: Seq<AckSpan>)
    requires
        canonical(a),
        canonical(b),
        numbers(a) == numbers(b),
    ensures
        a == b,
    decreases a.len(),
{
    assert forall|n: u64| covered(a, n) == covered(b, n) by {
        assert(numbers(a).contains(n) == covered(a, n));
        assert(numbers(b).contains(n) == covered(b, n));
    }
    if a.len() == 0 || b.len() == 0 {
        if a.len() > 0 {
            assert(covered(a, a[0].start));
        }
        if b.len() > 0 {
            assert(covered(b, b[0].start));
        }
        assert(a =~= b);
    } else {
        lemma_first_span(a, b);
        lemma_first_span(b, a);
        assert(a[0] == b[0]);
        let (x, y) = (a.drop_first(), b.drop_first());
        assert(x =~= a.remove(0) && y =~= b.remove(0));
        assert forall|n: u64| covered(x, n) == covered(y, n) by {
            lemma_covered_remove(a, 0, n);
            lemma_covered_remove(b, 0, n);
            if covered(x, n) {
                let i = choose|i: int|
                    0 <= i < x.len() && (#[trigger] x[i]).start <= n <= x[i].end;
                assert(x[i] == a[i + 1]);
                assert(a[0].end + 1 < a[i + 1].start);
            }
            if covered(y, n) {
                let i = choose|i: int|
                    0 <= i < y.len() && (#[trigger] y[i]).start <= n <= y[i].end;
                assert(y[i] == b[i + 1]);
                assert(b[0].end + 1 < b[i + 1].start);
            }
        }
        assert(numbers(x) =~= numbers(y));
        law_spans_unique(x, y);
        assert(a =~= seq![a[0]] + x);
        assert(b =~= seq![b[0]] + y);
    }
}

/// The first span of one list is not below that of the other, and does not end
/// after it.
proof fn lemma_first_span(a: Seq<AckSpan>, b: Seq<AckSpan>)
    requires
        canonical(a),
        canonical(b),
        a.len() > 0,
        b.len() > 0,
        forall|n: u64| covered(a, n) == covered(b, n),
    ensures
        b[0].start <= a[0].start,
        b[0].start == a[0].start ==> a[0].end <= b[0].end,
{
    assert(covered(a, a[0].start));
    assert(covered(b, a[0].start));
    let i = choose|i: int|
        0 <= i < b.len() && (#[trigger] b[i]).start <= a[0].start <= b[i].end;
    if i > 0 {
        assert(b[0].end + 1 < b[i].start);
    }
    if b[0].start == a[0].start && b[0].end < a[0].end {
        let n = (b[0].end + 1) as u64;
        assert(covered(a, n)) by {
            assert(a[0].start <= n <= a[0].end);
        }
        assert(covered(b, n));
        let j = choose|j: int| 0 <= j < b.len() && (#[trigger] b[j]).start <= n <= b[j].end;
        if j > 0 {
            assert(b[0].end + 1 < b[j].start);
        }
    }
}

proof fn lemma_spans_of(spans: Seq<AckSpan>)
    requires
        canonical(spans),
    ensures
        spans_of(numbers(spans)) == spans,
{
    let recorded = numbers(spans);
    let chosen = spans_of(recorded);
    assert(canonical(spans) && numbers(spans) == recorded);
    law_spans_unique(chosen, spans);
}

/// The packet numbers that a tracker has recorded form spans.
pub proof fn law_spans_of_recorded(tracker: AckTracker)
    requires
        tracker.wf(),
    ensures
        canonical(spans_of(tracker@.recorded)),
        numbers(spans_of(tracker@.recorded)) == tracker@.recorded,
{
    lemma_spans_of(tracker.ranges@);
}

/// The smallest number in the `i`th block of an acknowledgment, the first block
/// being the newest.
pub open spec fn block_start(ack: AckView, i: nat) -> int
    decreases i,
{
    block_end(ack, i) - if i == 0 {
        ack.first_ack_range as int
    } else {
        ack.ack_ranges[i - 1].ack_range_length as int
    }
}

/// The largest number in the `i`th block of an acknowledgment.
pub open spec fn block_end(ack: AckView, i: nat) -> int
    decreases i,
{
    if i == 0 {
        ack.largest_acknowledged as int
    } else {
        block_end(ack, (i - 1) as nat) - (if i == 1 {
            ack.first_ack_range as int
        } else {
            ack.ack_ranges[i - 2].ack_range_length as int
        }) - ack.ack_ranges[i - 1].gap - 2
    }
}

/// Whether `ack` acknowledges the packet `n`, as its receiver reads it.
pub open spec fn acknowledges(ack: AckView, n: u64) -> bool {
    exists|i: nat|
        i <= ack.ack_ranges.len() && #[trigger] block_start(ack, i) <= n <= block_end(ack, i)
}

proof fn lemma_block(spans: Seq<AckSpan>, channel_id: Seq<u8>, i: nat)
    requires
        canonical(spans),
        i < spans.len(),
    ensures
        block_start(ack_of(spans, channel_id), i) == spans[spans.len() - 1 - i].start,
        block_end(ack_of(spans, channel_id), i) == spans[spans.len() - 1 - i].end,
    decreases i,
{
    let ack = ack_of(spans, channel_id);
    if i > 0 {
        lemma_block(spans, channel_id, (i - 1) as nat);
        let k = spans.len() - i;
        assert(spans[k - 1].end + 1 < spans[k].start);
        assert(ack.ack_ranges[i - 1] == range_before(spans, k));
    }
}

/// An acknowledgment acknowledges exactly the packets that were recorded.
pub proof fn law_ack_covers_recorded(tracker: AckTracker, channel_id: Seq<u8>, n: u64)
    requires
        tracker.wf(),
    ensures
        tracker@.waiting_ack(channel_id) matches Some(ack) ==> (acknowledges(ack, n)
            <==> tracker@.recorded.contains(n)),
{
    if tracker@.waiting_ack(channel_id) is Some {
        let spans = tracker.ranges@;
        lemma_spans_of(spans);
        if spans.len() == 0 {
            assert(tracker@.recorded =~= Set::empty());
        }
        let ack = ack_of(spans, channel_id);
        if covered(spans, n) {
            let k = choose|k: int|
                0 <= k < spans.len() && (#[trigger] spans[k]).start <= n <= spans[k].end;
            let i = (spans.len() - 1 - k) as nat;
            lemma_block(spans, channel_id, i);
            assert(block_start(ack, i) <= n <= block_end(ack, i));
        }
        if acknowledges(ack, n) {
            let i = choose|i: nat|
                i <= ack.ack_ranges.len() && #[trigger] block_start(ack, i) <= n <= block_end(
                    ack,
                    i,
                );
            lemma_block(spans, channel_id, i);
            assert(spans[spans.len() - 1 - i].start <= n);
        }
    }
}

/// An acknowledgment waits exactly if a packet was recorded after the last one
/// was sent.
pub proof fn law_ack_waits(tracker: AckTrackerView, packet_number: u64, channel_id: Seq<u8>)
    ensures
        tracker.record(packet_number).waiting_ack(channel_id) is Some,
        (AckTrackerView { pending: false, ..tracker }).waiting_ack(channel_id) is None,
{
    assert(tracker.record(packet_number).recorded.contains(packet_number));
}

/// The order in which packets are recorded does not matter, nor how often.
pub proof fn law_record_order(tracker: AckTrackerView, a: u64, b: u64)
    ensures
        tracker.record(a).record(b) == tracker.record(b).record(a),
        tracker.record(a).record(a) == tracker.record(a),
{
    assert(tracker.record(a).record(b).recorded =~= tracker.record(b).record(a).recorded);
    assert(tracker.record(a).record(a).recorded =~= tracker.record(a).recorded);
}

/// An acknowledgment of packets whose numbers can be written can be put on the
/// wire, and read again, unless it has too many ranges.
pub proof fn law_ack_readable(tracker: AckTracker, channel_id: Seq<u8>)
    requires
        tracker.wf(),
        frame::channel_id_valid(channel_id),
        forall|n: u64| tracker@.recorded.contains(n) ==> n < VARINT_LIMIT,
    ensures
        tracker@.waiting_ack(channel_id) matches Some(ack) ==> (ack.ack_ranges.len()
            <= frame::MAX_ACK_RANGE_COUNT ==> frame_laws::readable(FrameView::Ack(ack))),
{
    if tracker@.waiting_ack(channel_id) is Some {
        let spans = tracker.ranges@;
        lemma_spans_of(spans);
        if spans.len() == 0 {
            assert(tracker@.recorded =~= Set::empty());
        }
        let ack = ack_of(spans, channel_id);
        assert forall|k: int| 0 <= k < spans.len() implies (#[trigger] spans[k]).end
            < VARINT_LIMIT by {
            assert(covered(spans, spans[k].end));
            assert(tracker@.recorded.contains(spans[k].end));
        }
        assert forall|i: int| 0 <= i < ack.ack_ranges.len() implies (
        #[trigger] ack.ack_ranges[i]).gap < VARINT_LIMIT && ack.ack_ranges[i].ack_range_length
            < VARINT_LIMIT by {
            let k = spans.len() - 1 - i;
            assert(spans[k - 1].end + 1 < spans[k].start);
            assert(spans[k].start <= spans[k].end);
        }
    }
}

/// A packet that is recorded is among the recorded ones from then on, beside those that
/// were, and waits to be acknowledged.
pub proof fn law_packet_recorded(tracker: AckTrackerView, packet_number: u64, n: u64)
    ensures
        tracker.record(packet_number).recorded.contains(n) <==> n == packet_number
            || tracker.recorded.contains(n),
        tracker.record(packet_number).pending,
{
}

/// An acknowledgment waits if a packet was recorded since the last one and there are
/// packets at all. It is for the channel that was named, without a delay and without
/// ECN counters, and begins with the largest packet.
pub proof fn law_waiting_ack(tracker: AckTracker, channel_id: Seq<u8>, n: u64)
    requires
        tracker.wf(),
    ensures
        tracker@.waiting_ack(channel_id) is None <==> !tracker@.pending || tracker@.recorded
            == Set::<u64>::empty(),
        tracker@.waiting_ack(channel_id) matches Some(ack) ==> {
            &&& ack.channel_id == channel_id
            &&& ack.ack_delay == 0
            &&& ack.ecn_counts is None
            &&& tracker@.recorded.contains(ack.largest_acknowledged)
            &&& tracker@.recorded.contains(n) ==> n <= ack.largest_acknowledged
        },
{
    if tracker@.waiting_ack(channel_id) is Some {
        let spans = tracker.ranges@;
        lemma_spans_of(spans);
        if spans.len() == 0 {
            assert(tracker@.recorded =~= Set::empty());
        }
        let last = spans.len() - 1;
        assert(spans[last].start <= spans[last].end);
        assert(covered(spans, spans[last].end));
        if covered(spans, n) {
            let k = choose|k: int|
                0 <= k < spans.len() && (#[trigger] spans[k]).start <= n <= spans[k].end;
            if k < last {
                assert(spans[k].end + 1 < spans[last].start);
            }
        }
    }
}

/// Two packets that follow each other are acknowledged in one block: between two blocks
/// there is always a packet that is not acknowledged.
pub proof fn law_ack_blocks_apart(tracker: AckTracker, channel_id: Seq<u8>, i: nat)
    requires
        tracker.wf(),
    ensures
        tracker@.waiting_ack(channel_id) matches Some(ack) ==> (i < ack.ack_ranges.len() ==> {
            &&& block_start(ack, i) <= block_end(ack, i)
            &&& block_end(ack, i + 1) + 1 < block_start(ack, i)
            &&& 0 <= block_start(ack, i + 1)
            &&& !tracker@.recorded.contains((block_start(ack, i) - 1) as u64)
        }),
{
    if let Some(ack) = tracker@.waiting_ack(channel_id) {
        let spans = tracker.ranges@;
        lemma_spans_of(spans);
        if spans.len() == 0 {
            assert(tracker@.recorded =~= Set::empty());
        }
        if i < ack.ack_ranges.len() {
            lemma_block(spans, channel_id, i);
            lemma_block(spans, channel_id, i + 1);
            let k = spans.len() - 1 - i;
            assert(spans[k - 1].end + 1 < spans[k].start);
            let gap = (spans[k].start - 1) as u64;
            if covered(spans, gap) {
                let j = choose|j: int|
                    0 <= j < spans.len() && (#[trigger] spans[j]).start <= gap <= spans[j].end;
                if j < k - 1 {
                    assert(spans[j].end + 1 < spans[k - 1].start);
                    assert(spans[k - 1].start <= spans[k - 1].end);
                } else if j > k {
                    assert(spans[k].end + 1 < spans[j].start);
                    assert(spans[k].start <= spans[k].end);
                }
            }
        }
    }
}

} // verus!
