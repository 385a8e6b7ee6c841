//! The keys of a map, in increasing order.

use std::collections::BTreeMap;
use vstd::prelude::*;

verus! {

/// Whether `s` goes upwards.
pub open spec fn increasing(s: Seq<u64>) -> bool {
    forall|i: int, j: int| 0 <= i < j < s.len() ==> (#[trigger] s[i]) < (#[trigger] s[j])
}

/// The numbers in `s`, in increasing order.
pub open spec fn ascending(s: Set<u64>) -> Seq<u64> {
    choose|order: Seq<u64>| #[trigger] increasing(order) && order.to_set() == s
}

/// There is only one increasing order.
pub proof fn lemma_ascending_unique(a: Seq<u64>, b: Seq<u64>)
    requires
        increasing(a),
        increasing(b),
        a.to_set() == b.to_set(),
    ensures
        a == b,
    decreases a.len(),
{
    if a.len() == 0 || b.len() == 0 {
        if a.len() > 0 {
            assert(a.to_set().contains(a[0]));
            assert(b.contains(a[0]));
        }
        if b.len() > 0 {
            assert(b.to_set().contains(b[0]));
            assert(a.contains(b[0]));
        }
        assert(a =~= b);
    } else {
        assert(a.to_set().contains(a[0]) && b.to_set().contains(b[0]));
        assert(b.contains(a[0]) && a.contains(b[0]));
        let i = choose|i: int| 0 <= i < b.len() && b[i] == a[0];
        let j = choose|j: int| 0 <= j < a.len() && a[j] == b[0];
        if i > 0 {
            assert(b[0] < b[i]);
        }
        if j > 0 {
            assert(a[0] < a[j]);
        }
        assert(a[0] == b[0]);
        let (x, y) = (a.drop_first(), b.drop_first());
        assert forall|n: u64| x.to_set().contains(n) == y.to_set().contains(n) by {
            lemma_tail_contains(a, n);
            lemma_tail_contains(b, n);
            assert(a.to_set().contains(n) == a.contains(n));
            assert(b.to_set().contains(n) == b.contains(n));
        }
        assert(x.to_set() =~= y.to_set());
        lemma_ascending_unique(x, y);
        assert(a =~= seq![a[0]] + x);
        assert(b =~= seq![b[0]] + y);
    }
}

proof fn lemma_tail_contains(a: Seq<u64>, n: u64)
    requires
        a.len() > 0,
        increasing(a),
    ensures
        a.drop_first().contains(n) <==> a.contains(n) && n != a[0],
{
    let x = a.drop_first();
    if x.contains(n) {
        let i = choose|i: int| 0 <= i < x.len() && x[i] == n;
        assert(a[i + 1] == n);
        assert(a[0] < a[i + 1]);
    }
    if a.contains(n) && n != a[0] {
        let i = choose|i: int| 0 <= i < a.len() && a[i] == n;
        assert(x[i - 1] == n);
    }
}

/// Numbers that go upwards are in increasing order.
pub proof fn lemma_ascending(order: Seq<u64>)
    requires
        increasing(order),
    ensures
        ascending(order.to_set()) == order,
{
    let s = order.to_set();
    assert(increasing(order) && order.to_set() == s);
    lemma_ascending_unique(ascending(s), order);
}

/// A finite set that is not empty has a largest number.
proof fn lemma_largest(s: Set<u64>) -> (largest: u64)
    requires
        s.finite(),
        s.len() > 0,
    ensures
        s.contains(largest),
        forall|n: u64| #[trigger] s.contains(n) ==> n <= largest,
    decreases s.len(),
{
    let n = s.choose();
    let rest = s.remove(n);
    if rest.len() == 0 {
        assert forall|k: u64| #[trigger] s.contains(k) implies k <= n by {
            if k != n {
                assert(rest.contains(k));
            }
        }
        n
    } else {
        let m = lemma_largest(rest);
        assert forall|k: u64| #[trigger] s.contains(k) implies k <= n || k <= m by {
            if k != n {
                assert(rest.contains(k));
            }
        }
        if n > m {
            n
        } else {
            m
        }
    }
}

/// The numbers in a finite set have an increasing order.
pub proof fn lemma_ascending_exists(s: Set<u64>)
    requires
        s.finite(),
    ensures
        increasing(ascending(s)),
        ascending(s).to_set() == s,
    decreases s.len(),
{
    if s.len() == 0 {
        let none = Seq::<u64>::empty();
        assert(none.to_set() =~= s);
        lemma_ascending(none);
    } else {
        let m = lemma_largest(s);
        let rest = s.remove(m);
        lemma_ascending_exists(rest);
        let before = ascending(rest);
        let order = before.push(m);
        assert forall|i: int, j: int| 0 <= i < j < order.len() implies (#[trigger] order[i]) < (
        #[trigger] order[j]) by {
            assert(before.contains(before[i]));
            assert(before.to_set().contains(before[i]));
            assert(s.contains(before[i]));
            if j < before.len() {
                assert(before[i] < before[j]);
            }
        }
        assert forall|n: u64| order.to_set().contains(n) == s.contains(n) by {
            if s.contains(n) && n != m {
                assert(before.to_set().contains(n));
                let i = choose|i: int| 0 <= i < before.len() && before[i] == n;
                assert(order[i] == n);
            }
            if n == m {
                assert(order[before.len() as int] == n);
            }
            if order.contains(n) && n != m {
                let i = choose|i: int| 0 <= i < order.len() && order[i] == n;
                assert(before[i] == n);
                assert(before.to_set().contains(n));
            }
        }
        assert(order.to_set() =~= s);
        lemma_ascending(order);
    }
}

/// Maps keep their entries in the usual order of numbers.
proof fn lemma_number_order()
    ensures
        vstd::std_specs::btree::key_obeys_cmp_spec::<u64>(),
        forall|s: Seq<u64>| #[trigger]
            vstd::std_specs::btree::increasing_seq(s) ==> increasing(s),
{
    broadcast use vstd::laws_cmp::group_laws_cmp;
    broadcast use vstd::std_specs::btree::group_btree_axioms;

    assert(vstd::laws_cmp::obeys_cmp::<u64>());
    assert forall|s: Seq<u64>| #[trigger] vstd::std_specs::btree::increasing_seq(s) implies
        increasing(s) by {
        assert forall|i: int, j: int| 0 <= i < j < s.len() implies (#[trigger] s[i]) < (
        #[trigger] s[j]) by {
            assert(vstd::std_specs::cmp::OrdSpec::cmp_spec(&s[i], &s[j])
                is Less);
        }
    }
}

/// The keys of `m`, in increasing order.
pub fn ascending_keys<V>(m: &BTreeMap<u64, V>) -> (keys: Vec<u64>)
    ensures
        increasing(keys@),
        keys@.to_set() == m@.dom(),
        keys@ == ascending(m@.dom()),
{
    proof {
        lemma_number_order();
    }
    let mut keys: Vec<u64> = Vec::new();
    let entries = m.iter();
    let ghost order = vstd::std_specs::iter::IteratorSpec::remaining(&entries).map_values(|kv: (&u64, &V)| *kv.0);
    proof {
        assert(increasing(order));
        let entries = vstd::std_specs::iter::IteratorSpec::remaining(&entries);
        assert forall|k: u64| #[trigger] order.to_set().contains(k) == m@.dom().contains(k) by {
            if m@.dom().contains(k) {
                assert(m@.contains_key(k));
                assert(entries.contains((&k, &m@[k])));
                let i = choose|i: int| 0 <= i < entries.len() && entries[i] == (&k, &m@[k]);
                assert(order[i] == k);
            }
            if order.to_set().contains(k) {
                let i = choose|i: int| 0 <= i < order.len() && order[i] == k;
                assert(m@.contains_key(*entries[i].0));
            }
        }
        assert(order.to_set() =~= m@.dom());
    }
    for entry in it: entries
        invariant
            it.seq().map_values(|kv: (&u64, &V)| *kv.0) == order,
            keys@ =~= order.take(it.index() as int),
    {
        keys.push(*entry.0);
    }
    assert(keys@ =~= order);
    proof {
        lemma_ascending(keys@);
    }
    keys
}

} // verus!
