//! Totals over finite maps of amounts.

use vstd::prelude::*;

verus! {

/// The sum of the amounts that a finite map holds, over all of its keys.
/// A map with an infinite domain has no total; it is given 0.
pub open spec fn sum_of<K>(m: Map<K, nat>) -> nat
    decreases m.dom().len(),
{
    if m.dom().finite() && m.dom().len() > 0 {
        let k = m.dom().choose();
        m[k] + sum_of(m.remove(k))
    } else {
        0
    }
}

/// The amounts of a map of machine integers, as numbers without an upper
/// bound.
pub open spec fn amounts<K>(held: Map<K, u64>) -> Map<K, nat> {
    held.map_values(|v: u64| v as nat)
}

/// Any key can be split off a total: the total is the amount under that key
/// plus the total of the rest.
pub proof fn lemma_sum_remove<K>(m: Map<K, nat>, k: K)
    requires
        m.dom().finite(),
        m.dom().contains(k),
    ensures
        sum_of(m) == m[k] + sum_of(m.remove(k)),
    decreases m.dom().len(),
{
    let c = m.dom().choose();
    if c != k {
        lemma_sum_remove(m.remove(c), k);
        lemma_sum_remove(m.remove(k), c);
        assert(m.remove(c).remove(k) =~= m.remove(k).remove(c));
    }
}

/// Writing `v` under `k` changes the total by the difference between `v` and
/// what `k` held before (nothing, where `k` was absent).
pub proof fn lemma_sum_insert<K>(m: Map<K, nat>, k: K, v: nat)
    requires
        m.dom().finite(),
    ensures
        sum_of(m.insert(k, v)) + (if m.dom().contains(k) { m[k] } else { 0 }) == sum_of(m) + v,
{
    let written = m.insert(k, v);
    lemma_sum_remove(written, k);
    assert(written.remove(k) =~= m.remove(k));
    if m.dom().contains(k) {
        lemma_sum_remove(m, k);
    } else {
        assert(m.remove(k) =~= m);
    }
}

/// No single amount exceeds the total.
pub proof fn lemma_sum_bounds_one<K>(m: Map<K, nat>, k: K)
    requires
        m.dom().finite(),
        m.dom().contains(k),
    ensures
        m[k] <= sum_of(m),
{
    lemma_sum_remove(m, k);
}

/// The amounts under two different keys together do not exceed the total.
pub proof fn lemma_sum_bounds_two<K>(m: Map<K, nat>, a: K, b: K)
    requires
        m.dom().finite(),
        m.dom().contains(a),
        m.dom().contains(b),
        a != b,
    ensures
        m[a] + m[b] <= sum_of(m),
{
    lemma_sum_remove(m, a);
    lemma_sum_remove(m.remove(a), b);
}

} // verus!
