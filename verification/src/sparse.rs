//! A compact record of which streams were seen.

use std::collections::BTreeMap;
use vstd::prelude::*;
use crate::ordered;
use crate::ordered::ascending_keys;
use crate::stream_id::StreamId;

verus! {

/// How far apart the numbers of two streams are that follow each other.
pub const STREAM_ID_INCREMENT: u64 = 4;

/// Stream numbers, as ranges of streams that follow each other.
#[derive(Debug)]
pub struct SparseStreamIdRanges {
    ranges: BTreeMap<u64, u64>,
}

impl View for SparseStreamIdRanges {
    type V = Map<u64, u64>;

    /// The last number of each range, by its first one.
    closed spec fn view(&self) -> Map<u64, u64> {
        self.ranges@
    }
}

/// Whether the range that starts at `start` is the last one that starts at `id` or
/// below.
pub open spec fn floor_at(ranges: Map<u64, u64>, id: u64, start: u64) -> bool {
    &&& ranges.contains_key(start)
    &&& start <= id
    &&& forall|other: u64| #[trigger]
        ranges.contains_key(other) && other <= id ==> other <= start
}

/// The start of the last range that starts at `id` or below.
pub open spec fn floor(ranges: Map<u64, u64>, id: u64) -> Option<u64> {
    if exists|start: u64| floor_at(ranges, id, start) {
        Some(choose|start: u64| floor_at(ranges, id, start))
    } else {
        None
    }
}

/// Whether the last range that starts at `id` or below reaches up to it.
pub open spec fn covers(ranges: Map<u64, u64>, id: u64) -> bool {
    floor(ranges, id) matches Some(start) && id <= ranges[start]
}

/// The start of the range that `id` can be put behind.
pub open spec fn left_of(ranges: Map<u64, u64>, id: u64) -> Option<u64> {
    match floor(ranges, id) {
        Some(start) => if ranges[start] + STREAM_ID_INCREMENT == id {
            Some(start)
        } else {
            None
        },
        None => None,
    }
}

/// The start of the range that `id` can be put before.
pub open spec fn right_of(ranges: Map<u64, u64>, id: u64) -> Option<u64> {
    if id + STREAM_ID_INCREMENT <= u64::MAX && ranges.contains_key(
        (id + STREAM_ID_INCREMENT) as u64,
    ) {
        Some((id + STREAM_ID_INCREMENT) as u64)
    } else {
        None
    }
}

/// The ranges with `id` put in: at the end of a range, at its start, between two
/// ranges that then are one, or on its own.
pub open spec fn with_id(ranges: Map<u64, u64>, id: u64) -> Map<u64, u64> {
    if covers(ranges, id) {
        ranges
    } else {
        match (left_of(ranges, id), right_of(ranges, id)) {
            (Some(left), Some(right)) => ranges.remove(right).insert(left, ranges[right]),
            (Some(left), None) => ranges.insert(left, id),
            (None, Some(right)) => ranges.remove(right).insert(id, ranges[right]),
            (None, None) => ranges.insert(id, id),
        }
    }
}

/// Whether no range ends before it starts.
pub open spec fn ranges_valid(ranges: Map<u64, u64>) -> bool {
    forall|start: u64| #[trigger] ranges.contains_key(start) ==> start <= ranges[start]
}

proof fn lemma_floor(ranges: Map<u64, u64>, id: u64, start: u64)
    requires
        floor_at(ranges, id, start),
    ensures
        floor(ranges, id) == Some(start),
{
    let chosen = choose|start: u64| floor_at(ranges, id, start);
    assert(floor_at(ranges, id, chosen));
    assert(ranges.contains_key(chosen) && ranges.contains_key(start));
}

proof fn lemma_no_floor(ranges: Map<u64, u64>, id: u64)
    requires
        forall|other: u64| #[trigger] ranges.contains_key(other) ==> other > id,
    ensures
        floor(ranges, id) is None,
{
    assert forall|start: u64| !floor_at(ranges, id, start) by {
        if floor_at(ranges, id, start) {
            assert(ranges.contains_key(start));
        }
    }
}

impl Default for SparseStreamIdRanges {
    fn default() -> (ranges: Self)
        ensures
            ranges.wf(),
            ranges@ == Map::<u64, u64>::empty(),
    {
        SparseStreamIdRanges { ranges: BTreeMap::new() }
    }
}

impl SparseStreamIdRanges {
    /// Whether no range ends before it starts.
    pub open spec fn wf(&self) -> bool {
        ranges_valid(self@)
    }

    /// The start and the end of the last range that starts at `id` or below.
    fn floor_range(&self, id: u64) -> (range: Option<(u64, u64)>)
        ensures
            match range {
                Some((start, end)) => {
                    &&& floor(self@, id) == Some(start)
                    &&& self@.contains_key(start)
                    &&& end == self@[start]
                    &&& start <= id
                },
                None => floor(self@, id) is None,
            },
    {
        let starts = ascending_keys(&self.ranges);
        let mut i: usize = starts.len();
        while i > 0
            invariant
                i <= starts@.len(),
                ordered::increasing(starts@),
                starts@.to_set() == self@.dom(),
                forall|j: int| i <= j < starts@.len() ==> #[trigger] starts@[j] > id,
            decreases i,
        {
            i = i - 1;
            let start = starts[i];
            if start <= id {
                assert(starts@.to_set().contains(start));
                assert(self@.contains_key(start));
                proof {
                    assert forall|other: u64| #[trigger]
                        self@.contains_key(other) && other <= id implies other <= start by {
                        assert(starts@.to_set().contains(other));
                        let k = choose|k: int| 0 <= k < starts@.len() && starts@[k] == other;
                        if k < i {
                            assert(starts@[k] < starts@[i as int]);
                        }
                    }
                    lemma_floor(self@, id, start);
                }
                return match self.ranges.get(&start) {
                    Some(end) => Some((start, *end)),
                    None => None,
                };
            }
        }
        proof {
            assert forall|other: u64| #[trigger] self@.contains_key(other) implies other > id by {
                assert(starts@.to_set().contains(other));
                let k = choose|k: int| 0 <= k < starts@.len() && starts@[k] == other;
            }
            lemma_no_floor(self@, id);
        }
        None
    }

    /// Whether the stream was seen.
    pub fn contains(&self, stream_id: StreamId) -> (seen: bool)
        ensures
            seen == covers(self@, stream_id@),
    {
        let stream_id = stream_id.as_u64();
        match self.floor_range(stream_id) {
            Some((_, end)) => stream_id <= end,
            None => false,
        }
    }

    /// Notes that the stream was seen, and tells whether it was not before.
    pub fn insert(&mut self, stream_id: StreamId) -> (new: bool)
        requires
            old(self).wf(),
        ensures
            final(self).wf(),
            new == !covers(old(self)@, stream_id@),
            final(self)@ == with_id(old(self)@, stream_id@),
    {
        let stream_id = stream_id.as_u64();
        let floor = self.floor_range(stream_id);
        if let Some((_, end)) = floor {
            if stream_id <= end {
                return false;
            }
        }
        let left: Option<u64> = match floor {
            Some((start, end)) => {
                match end.checked_add(STREAM_ID_INCREMENT) {
                    Some(next) => if next == stream_id {
                        Some(start)
                    } else {
                        None
                    },
                    None => None,
                }
            },
            None => None,
        };
        let right: Option<(u64, u64)> = match stream_id.checked_add(STREAM_ID_INCREMENT) {
            Some(start) => match self.ranges.get(&start) {
                Some(end) => Some((start, *end)),
                None => None,
            },
            None => None,
        };
        match (left, right) {
            (Some(left_start), Some((right_start, right_end))) => {
                self.ranges.remove(&right_start);
                self.ranges.insert(left_start, right_end);
            },
            (Some(left_start), None) => {
                self.ranges.insert(left_start, stream_id);
            },
            (None, Some((right_start, right_end))) => {
                self.ranges.remove(&right_start);
                self.ranges.insert(stream_id, right_end);
            },
            (None, None) => {
                self.ranges.insert(stream_id, stream_id);
            },
        }
        true
    }

    /// Forgets every stream.
    pub fn clear(&mut self)
        ensures
            final(self).wf(),
            final(self)@ == Map::<u64, u64>::empty(),
    {
        self.ranges.clear();
    }

    /// How many ranges there are.
    pub fn range_count(&self) -> (count: usize)
        ensures
            count == self@.len(),
    {
        self.ranges.len()
    }
}

// ---------------------------------------------------------------------------
// Streams of one type that one end opens
// ---------------------------------------------------------------------------

/// Whether the ranges are of streams whose numbers leave the remainder `class`, no
/// two overlap, and none could be put behind another one.
pub open spec fn coalesced(ranges: Map<u64, u64>, class: u64) -> bool {
    &&& forall|start: u64| #[trigger]
        ranges.contains_key(start) ==> start <= ranges[start] && start % STREAM_ID_INCREMENT
            == class && ranges[start] % STREAM_ID_INCREMENT == class
    &&& forall|a: u64, b: u64|
        (#[trigger] ranges.contains_key(a)) && (#[trigger] ranges.contains_key(b)) && a < b
            ==> ranges[a] + STREAM_ID_INCREMENT < b
}

/// Whether one of the ranges reaches over `id`.
pub open spec fn in_range(ranges: Map<u64, u64>, id: u64) -> bool {
    exists|start: u64| #[trigger] ranges.contains_key(start) && start <= id <= ranges[start]
}

/// The range that reaches over a number is the last one that starts at it or
/// below.
pub proof fn lemma_covers_in_range(ranges: Map<u64, u64>, class: u64, id: u64)
    requires
        coalesced(ranges, class),
    ensures
        covers(ranges, id) <==> in_range(ranges, id),
{
    if covers(ranges, id) {
        let start = floor(ranges, id)->Some_0;
        assert(floor_at(ranges, id, start));
        assert(ranges.contains_key(start));
    }
    if in_range(ranges, id) {
        let start = choose|start: u64| #[trigger]
            ranges.contains_key(start) && start <= id <= ranges[start];
        assert forall|other: u64| #[trigger]
            ranges.contains_key(other) && other <= id implies other <= start by {
            if start < other {
                assert(ranges[start] + STREAM_ID_INCREMENT < other);
            }
        }
        lemma_floor(ranges, id, start);
    }
}

/// The streams that were seen, of those whose numbers leave the remainder `class`.
pub open spec fn seen(ranges: Map<u64, u64>, class: u64) -> Set<u64> {
    Set::new(|id: u64| id % STREAM_ID_INCREMENT == class && covers(ranges, id))
}

/// Of streams of one type that one end opens, exactly those are taken for seen that
/// were noted, and streams that follow each other are always in one range.
pub proof fn law_insert_notes_stream(ranges: Map<u64, u64>, class: u64, id: u64)
    requires
        coalesced(ranges, class),
        id % STREAM_ID_INCREMENT == class,
    ensures
        coalesced(with_id(ranges, id), class),
        seen(with_id(ranges, id), class) == seen(ranges, class).insert(id),
{
    let next = with_id(ranges, id);
    if covers(ranges, id) {
        assert(seen(ranges, class).contains(id));
        assert(seen(next, class) =~= seen(ranges, class).insert(id));
    } else {
        lemma_covers_in_range(ranges, class, id);
        let left = left_of(ranges, id);
        let right = right_of(ranges, id);
        if left is Some {
            assert(floor_at(ranges, id, left->Some_0));
            assert(ranges.contains_key(left->Some_0));
        }
        if right is Some {
            assert(ranges.contains_key(right->Some_0));
        }
        assert forall|start: u64| #[trigger] next.contains_key(start) implies start <= next[start]
            && start % STREAM_ID_INCREMENT == class && next[start] % STREAM_ID_INCREMENT
            == class by {
            if ranges.contains_key(start) {
            }
        }
        assert forall|a: u64, b: u64|
            (#[trigger] next.contains_key(a)) && (#[trigger] next.contains_key(b)) && a < b implies
            next[a] + STREAM_ID_INCREMENT < b by {
            lemma_gap(ranges, class, id, a, b);
        }
        assert forall|x: u64| #[trigger] seen(next, class).contains(x) == seen(
            ranges,
            class,
        ).insert(id).contains(x) by {
            lemma_covers_in_range(ranges, class, x);
            lemma_covers_in_range(next, class, x);
            if x % STREAM_ID_INCREMENT == class {
                lemma_in_range_after(ranges, class, id, x);
            }
        }
        assert(seen(next, class) =~= seen(ranges, class).insert(id));
    }
}

/// No range ends right before `id`, but the one that `id` can be put behind.
proof fn lemma_left(ranges: Map<u64, u64>, class: u64, id: u64, a: u64)
    requires
        coalesced(ranges, class),
        !in_range(ranges, id),
        ranges.contains_key(a),
        a < id,
    ensures
        ranges[a] < id,
        ranges[a] + STREAM_ID_INCREMENT == id ==> left_of(ranges, id) == Some(a),
{
    if ranges[a] >= id {
        assert(in_range(ranges, id));
    }
    if ranges[a] + STREAM_ID_INCREMENT == id {
        assert forall|other: u64| #[trigger]
            ranges.contains_key(other) && other <= id implies other <= a by {
            if a < other {
                assert(ranges[a] + STREAM_ID_INCREMENT < other);
            }
        }
        lemma_floor(ranges, id, a);
    }
}

proof fn lemma_gap(ranges: Map<u64, u64>, class: u64, id: u64, a: u64, b: u64)
    requires
        coalesced(ranges, class),
        !covers(ranges, id),
        !in_range(ranges, id),
        id % STREAM_ID_INCREMENT == class,
        with_id(ranges, id).contains_key(a),
        with_id(ranges, id).contains_key(b),
        a < b,
    ensures
        with_id(ranges, id)[a] + STREAM_ID_INCREMENT < b,
{
    let next = with_id(ranges, id);
    let left = left_of(ranges, id);
    let right = right_of(ranges, id);
    if left is Some {
        assert(floor_at(ranges, id, left->Some_0));
        assert(ranges.contains_key(left->Some_0));
    }
    if right is Some {
        assert(ranges.contains_key(right->Some_0));
    }
    if ranges.contains_key(a) && a < id {
        lemma_left(ranges, class, id, a);
    }
    if ranges.contains_key(b) && b > id && b % 4 == id % 4 {
        assert(b >= id + 4);
        if b == id + 4 {
            assert(right == Some(b));
        }
    }
    if ranges.contains_key(a) && ranges.contains_key(b) {
        assert(ranges[a] + STREAM_ID_INCREMENT < b);
    }
    if ranges.contains_key(a) && ranges.contains_key(id) {
        assert(in_range(ranges, id));
    }
    if ranges.contains_key(id) {
        assert(in_range(ranges, id));
    }
    if let Some(l) = left {
        if ranges.contains_key(b) && l < b {
            assert(ranges[l] + STREAM_ID_INCREMENT < b);
        }
    }
    if let Some(r) = right {
        if ranges.contains_key(b) && r < b {
            assert(ranges[r] + STREAM_ID_INCREMENT < b);
        }
    }
}

proof fn lemma_in_range_after(ranges: Map<u64, u64>, class: u64, id: u64, x: u64)
    requires
        coalesced(ranges, class),
        !covers(ranges, id),
        !in_range(ranges, id),
        id % STREAM_ID_INCREMENT == class,
        x % STREAM_ID_INCREMENT == class,
    ensures
        in_range(with_id(ranges, id), x) <==> in_range(ranges, x) || x == id,
{
    let next = with_id(ranges, id);
    let left = left_of(ranges, id);
    let right = right_of(ranges, id);
    if left is Some {
        assert(floor_at(ranges, id, left->Some_0));
        assert(ranges.contains_key(left->Some_0));
    }
    if right is Some {
        assert(ranges.contains_key(right->Some_0));
    }
    let whole = match left {
        Some(left) => left,
        None => id,
    };
    assert(next.contains_key(whole) && whole <= id <= next[whole]);
    if in_range(ranges, x) {
        let s = choose|s: u64| #[trigger] ranges.contains_key(s) && s <= x <= ranges[s];
        if next.contains_key(s) && next[s] == ranges[s] {
        } else {
            assert(next.contains_key(whole) && whole <= x <= next[whole]);
        }
    }
    if x == id {
        assert(in_range(next, x));
    }
    if in_range(next, x) && x != id {
        let s = choose|s: u64| #[trigger] next.contains_key(s) && s <= x <= next[s];
        if s == whole {
            if x < id {
                assert(left is Some);
                assert(ranges.contains_key(s) && s <= x <= ranges[s]);
            } else {
                assert(right is Some);
                let r = right->Some_0;
                assert(ranges.contains_key(r) && r <= x <= ranges[r]);
            }
        } else {
            assert(ranges.contains_key(s) && s <= x <= ranges[s]);
        }
    }
}

/// Whatever the ranges are, a stream counts as seen if the last range that starts at it
/// or below reaches up to it.
pub proof fn law_seen_in_last_range(ranges: Map<u64, u64>, id: u64)
    ensures
        covers(ranges, id) <==> exists|start: u64|
            {
                &&& #[trigger] ranges.contains_key(start)
                &&& start <= id <= ranges[start]
                &&& forall|other: u64| #[trigger]
                    ranges.contains_key(other) && other <= id ==> other <= start
            },
{
    if covers(ranges, id) {
        let start = floor(ranges, id)->Some_0;
        assert(floor_at(ranges, id, start));
        assert(ranges.contains_key(start));
    }
    if exists|start: u64|
        {
            &&& #[trigger] ranges.contains_key(start)
            &&& start <= id <= ranges[start]
            &&& forall|other: u64| #[trigger]
                ranges.contains_key(other) && other <= id ==> other <= start
        } {
        let start = choose|start: u64|
            {
                &&& #[trigger] ranges.contains_key(start)
                &&& start <= id <= ranges[start]
                &&& forall|other: u64| #[trigger]
                    ranges.contains_key(other) && other <= id ==> other <= start
            };
        lemma_floor(ranges, id, start);
    }
}

/// A stream that was seen changes nothing. Another one is put behind the range that ends
/// four below it, if that is the last one that starts below it; `start` is where the
/// range with the stream begins then. The range that starts four above it goes into
/// the same range. The other ranges stay as they are.
pub proof fn law_ranges_after_insert(ranges: Map<u64, u64>, id: u64, start: u64, k: u64)
    requires
        if exists|left: u64|
            {
                &&& #[trigger] ranges.contains_key(left)
                &&& left <= id
                &&& ranges[left] + 4 == id
                &&& forall|other: u64| #[trigger]
                    ranges.contains_key(other) && other <= id ==> other <= left
            } {
            &&& ranges.contains_key(start)
            &&& start <= id
            &&& ranges[start] + 4 == id
            &&& forall|other: u64| #[trigger]
                ranges.contains_key(other) && other <= id ==> other <= start
        } else {
            start == id
        },
    ensures
        covers(ranges, id) ==> with_id(ranges, id) == ranges,
        !covers(ranges, id) ==> ({
            let after = with_id(ranges, id);
            let above = id + 4;
            let joined = above <= u64::MAX && ranges.contains_key(above as u64);
            &&& after.contains_key(start)
            &&& after[start] == if joined {
                ranges[above as u64]
            } else {
                id
            }
            &&& k != start ==> (after.contains_key(k) <==> ranges.contains_key(k) && k != above)
            &&& k != start && after.contains_key(k) ==> after[k] == ranges[k]
        }),
{
    match left_of(ranges, id) {
        Some(left) => {
            assert(floor_at(ranges, id, left));
            assert(ranges.contains_key(left));
        },
        None => {
            if start != id || (ranges.contains_key(start) && start <= id && ranges[start] + 4
                == id) {
                lemma_floor(ranges, id, start);
            }
        },
    }
}

} // verus!
