//! Sums and maxima of a quantity over the values of a finite map.
use vstd::prelude::*;

verus! {

/// The sum of `f` over the values of `m`.
pub open spec fn map_sum<K, V>(m: Map<K, V>, f: spec_fn(V) -> int) -> int
    decreases m.dom().len(),
{
    if m.dom().finite() && m.dom().len() > 0 {
        let k = m.dom().choose();
        f(m[k]) + map_sum(m.remove(k), f)
    } else {
        0
    }
}

/// The largest value of `f` over the values of `m`, or 0 where `m` is empty.
pub open spec fn map_max<K, V>(m: Map<K, V>, f: spec_fn(V) -> int) -> int
    decreases m.dom().len(),
{
    if m.dom().finite() && m.dom().len() > 0 {
        let k = m.dom().choose();
        let rest = map_max(m.remove(k), f);
        if f(m[k]) > rest {
            f(m[k])
        } else {
            rest
        }
    } else {
        0
    }
}

/// Taking any one entry out of the sum: the order in which the values are
/// added does not matter.
pub proof fn lemma_map_sum_remove<K, V>(m: Map<K, V>, k: K, f: spec_fn(V) -> int)
    requires
        m.dom().finite(),
        m.dom().contains(k),
    ensures
        map_sum(m, f) == f(m[k]) + map_sum(m.remove(k), f),
    decreases m.dom().len(),
{
    let c = m.dom().choose();
    if c != k {
        lemma_map_sum_remove(m.remove(c), k, f);
        lemma_map_sum_remove(m.remove(k), c, f);
        assert(m.remove(c).remove(k) =~= m.remove(k).remove(c));
    }
}

/// Taking any one entry out of the maximum.
pub proof fn lemma_map_max_remove<K, V>(m: Map<K, V>, k: K, f: spec_fn(V) -> int)
    requires
        m.dom().finite(),
        m.dom().contains(k),
    ensures
        map_max(m, f) == if f(m[k]) > map_max(m.remove(k), f) {
            f(m[k])
        } else {
            map_max(m.remove(k), f)
        },
    decreases m.dom().len(),
{
    let c = m.dom().choose();
    if c != k {
        lemma_map_max_remove(m.remove(c), k, f);
        lemma_map_max_remove(m.remove(k), c, f);
        assert(m.remove(c).remove(k) =~= m.remove(k).remove(c));
    }
}

/// Putting an entry into the map replaces its key's share of the sum.
pub proof fn lemma_map_sum_insert<K, V>(m: Map<K, V>, k: K, v: V, f: spec_fn(V) -> int)
    requires
        m.dom().finite(),
    ensures
        map_sum(m.insert(k, v), f) == f(v) + map_sum(m, f) - if m.dom().contains(k) {
            f(m[k])
        } else {
            0
        },
{
    lemma_map_sum_remove(m.insert(k, v), k, f);
    assert(m.insert(k, v).remove(k) =~= m.remove(k));
    if m.dom().contains(k) {
        lemma_map_sum_remove(m, k, f);
    } else {
        assert(m.remove(k) =~= m);
    }
}

/// A sum of quantities that are all zero is zero.
pub proof fn lemma_map_sum_zero<K, V>(m: Map<K, V>, f: spec_fn(V) -> int)
    requires
        forall|k: K| #[trigger] m.dom().contains(k) ==> f(m[k]) == 0,
    ensures
        map_sum(m, f) == 0,
    decreases m.dom().len(),
{
    if m.dom().finite() && m.dom().len() > 0 {
        let c = m.dom().choose();
        lemma_map_sum_zero(m.remove(c), f);
    }
}

/// A sum of non-negative quantities is non-negative.
pub proof fn lemma_map_sum_nonneg<K, V>(m: Map<K, V>, f: spec_fn(V) -> int)
    requires
        forall|v: V| #[trigger] f(v) >= 0,
    ensures
        map_sum(m, f) >= 0,
    decreases m.dom().len(),
{
    if m.dom().finite() && m.dom().len() > 0 {
        lemma_map_sum_nonneg(m.remove(m.dom().choose()), f);
    }
}

/// The maximum of non-negative quantities is non-negative.
pub proof fn lemma_map_max_nonneg<K, V>(m: Map<K, V>, f: spec_fn(V) -> int)
    ensures
        map_max(m, f) >= 0,
    decreases m.dom().len(),
{
    if m.dom().finite() && m.dom().len() > 0 {
        lemma_map_max_nonneg(m.remove(m.dom().choose()), f);
    }
}

} // verus!
