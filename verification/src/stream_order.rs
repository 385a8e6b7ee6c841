//! The order in which streams are sent.

use std::cmp::Ordering;
use vstd::prelude::*;

verus! {

/// A number that says how early a stream is sent.
pub type SendOrder = i64;

/// The place of a stream in the order of sending: streams without a number come
/// first, and then the others, from the highest number to the lowest.
#[derive(Clone, Copy, Debug, PartialEq, Eq, Structural)]
pub struct StreamOrder {
    /// The number of the stream.
    pub sendorder: Option<SendOrder>,
}

/// How two places compare.
pub open spec fn order_of(a: StreamOrder, b: StreamOrder) -> Ordering {
    match (a.sendorder, b.sendorder) {
        (None, None) => Ordering::Equal,
        (None, Some(_)) => Ordering::Less,
        (Some(_), None) => Ordering::Greater,
        (Some(x), Some(y)) => if x > y {
            Ordering::Less
        } else if x == y {
            Ordering::Equal
        } else {
            Ordering::Greater
        },
    }
}

impl StreamOrder {
    /// How two places compare.
    pub fn cmp(&self, other: &Self) -> (ordering: Ordering)
        ensures
            ordering == order_of(*self, *other),
    {
        match (self.sendorder, other.sendorder) {
            (None, None) => Ordering::Equal,
            (None, Some(_)) => Ordering::Less,
            (Some(_), None) => Ordering::Greater,
            (Some(x), Some(y)) => {
                if x > y {
                    Ordering::Less
                } else if x == y {
                    Ordering::Equal
                } else {
                    Ordering::Greater
                }
            },
        }
    }
}

impl PartialOrd for StreamOrder {
    fn partial_cmp(&self, other: &Self) -> (ordering: Option<Ordering>) {
        Some(self.cmp(other))
    }
}

impl vstd::std_specs::cmp::PartialOrdSpecImpl for StreamOrder {
    open spec fn obeys_partial_cmp_spec() -> bool {
        true
    }

    open spec fn partial_cmp_spec(&self, other: &Self) -> Option<Ordering> {
        Some(order_of(*self, *other))
    }
}

/// Whether `a` comes before `b`.
pub open spec fn before(a: StreamOrder, b: StreamOrder) -> bool {
    order_of(a, b) == Ordering::Less
}

/// The order of sending is a total order.
pub proof fn law_total_order(a: StreamOrder, b: StreamOrder, c: StreamOrder)
    ensures
        order_of(a, b) == Ordering::Equal <==> a == b,
        before(a, b) <==> order_of(b, a) == Ordering::Greater,
        before(a, b) || a == b || before(b, a),
        before(a, b) && before(b, c) ==> before(a, c),
{
}

/// A stream without a number comes before every stream with one, and of those with
/// one the higher comes first.
pub proof fn law_highest_first(x: SendOrder, y: SendOrder)
    ensures
        before(StreamOrder { sendorder: None }, StreamOrder { sendorder: Some(x) }),
        before(StreamOrder { sendorder: Some(x) }, StreamOrder { sendorder: Some(y) }) <==> x > y,
{
}

} // verus!
