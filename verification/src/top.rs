//! Ranking the entries of a map by a score: the `n` best entries, best first.
use vstd::prelude::*;
use std::collections::HashMap;
use std::hash::Hash;
use vstd::std_specs::hash::obeys_key_model;

verus! {

broadcast use {
    vstd::seq_lib::group_seq_properties,
    vstd::seq_lib::group_to_multiset_ensures,
    vstd::multiset::group_multiset_axioms,
};

/// The number of entries a ranking of `n` candidates limited to `limit` holds.
pub open spec fn ranked_len(limit: int, n: int) -> int {
    if limit < n {
        limit
    } else {
        n
    }
}

/// `ids` are the keys of `m` with the highest scores, at most `limit` of them,
/// in order of non-increasing score; every key left out scores no higher than
/// any key taken. Only the order among equal scores is left open.
pub open spec fn is_top_ranking<K, V>(
    ids: Seq<K>,
    m: Map<K, V>,
    limit: int,
    score: spec_fn(K, V) -> int,
) -> bool {
    &&& ids.len() == ranked_len(limit, m.dom().len() as int)
    &&& ids.no_duplicates()
    &&& forall|i: int| 0 <= i < ids.len() ==> #[trigger] m.dom().contains(ids[i])
    &&& forall|i: int, j: int|
        0 <= i < j < ids.len() ==> score(ids[i], m[#[trigger] ids[i]]) >= score(ids[j], m[#[trigger] ids[j]])
    &&& forall|k: K, i: int|
        #![trigger m.dom().contains(k), ids[i]]
        m.dom().contains(k) && !ids.contains(k) && 0 <= i < ids.len() ==> score(k, m[k]) <= score(
            ids[i],
            m[ids[i]],
        )
}

/// In two rankings of the same map, the entry at place `i` of `a` scores
/// no higher than the one at place `i` of `b`.
proof fn lemma_ranking_place<K, V>(
    a: Seq<K>,
    b: Seq<K>,
    m: Map<K, V>,
    limit: int,
    score: spec_fn(K, V) -> int,
    i: int,
)
    requires
        is_top_ranking(a, m, limit, score),
        is_top_ranking(b, m, limit, score),
        0 <= i < a.len(),
    ensures
        score(a[i], m[a[i]]) <= score(b[i], m[b[i]]),
{
    let s = score(a[i], m[a[i]]);
    let t = score(b[i], m[b[i]]);
    if s > t {
        let head = a.take(i + 1);
        let front = b.take(i);
        assert forall|x: K| #[trigger] head.to_set().contains(x) implies front.to_set().contains(x) by {
            assert(head.contains(x));
            let p = choose|p: int| 0 <= p < head.len() && head[p] == x;
            assert(a[p] == x);
            assert(m.dom().contains(a[p]));
            if p < i {
                assert(score(a[p], m[a[p]]) >= score(a[i], m[a[i]]));
            }
            if b.contains(x) {
                let q = choose|q: int| 0 <= q < b.len() && b[q] == x;
                assert(m.dom().contains(b[q]));
                if q > i {
                    assert(score(b[i], m[b[i]]) >= score(b[q], m[b[q]]));
                }
                assert(q < i);
                assert(front[q] == x);
                assert(front.contains(x));
            } else {
                assert(m.dom().contains(b[i]));
                assert(score(x, m[x]) <= score(b[i], m[b[i]]));
            }
        }
        assert(head.no_duplicates()) by {
            assert forall|p: int, q: int| 0 <= p < head.len() && 0 <= q < head.len() && p != q implies head[p]
                != head[q] by {
                assert(head[p] == a[p] && head[q] == a[q]);
            }
        }
        head.unique_seq_to_set();
        front.lemma_cardinality_of_set();
        vstd::set_lib::lemma_len_subset(head.to_set(), front.to_set());
    }
}

/// Two rankings of the same map agree, place by place, on the scores; where
/// no two entries of the map score the same, they are the same ranking.
/// Only the order among equal scores is left open.
pub proof fn lemma_rankings_agree<K, V>(
    a: Seq<K>,
    b: Seq<K>,
    m: Map<K, V>,
    limit: int,
    score: spec_fn(K, V) -> int,
)
    requires
        is_top_ranking(a, m, limit, score),
        is_top_ranking(b, m, limit, score),
    ensures
        a.len() == b.len(),
        forall|i: int| 0 <= i < a.len() ==> score(a[i], m[a[i]]) == score(b[i], m[b[i]]),
        (forall|k1: K, k2: K|
            #![trigger m.dom().contains(k1), m.dom().contains(k2)]
            m.dom().contains(k1) && m.dom().contains(k2) && k1 != k2 ==> score(k1, m[k1]) != score(
                k2,
                m[k2],
            )) ==> a == b,
{
    assert forall|i: int| 0 <= i < a.len() implies score(a[i], m[a[i]]) == score(b[i], m[b[i]]) by {
        lemma_ranking_place(a, b, m, limit, score, i);
        lemma_ranking_place(b, a, m, limit, score, i);
    }
    if forall|k1: K, k2: K|
        #![trigger m.dom().contains(k1), m.dom().contains(k2)]
        m.dom().contains(k1) && m.dom().contains(k2) && k1 != k2 ==> score(k1, m[k1]) != score(
            k2,
            m[k2],
        ) {
        assert forall|i: int| 0 <= i < a.len() implies a[i] == b[i] by {
            assert(m.dom().contains(a[i]));
            assert(m.dom().contains(b[i]));
        }
        assert(a =~= b);
    }
}

/// `e` lists every entry of `m` exactly once, each id beside its score.
pub open spec fn scores_all_entries<K, V>(
    e: Seq<(u128, K)>,
    m: Map<K, V>,
    score: spec_fn(K, V) -> int,
) -> bool {
    &&& e.len() == m.dom().len()
    &&& forall|i: int|
        0 <= i < e.len() ==> #[trigger] m.dom().contains(e[i].1) && e[i].0 == score(e[i].1, m[e[i].1])
    &&& forall|i: int, j: int| 0 <= i < j < e.len() ==> #[trigger] e[i].1 != #[trigger] e[j].1
    &&& forall|k: K| #[trigger] m.dom().contains(k) ==> exists|i: int| 0 <= i < e.len() && e[i].1 == k
}

/// The first `count` entries of `s` are in non-increasing score order and
/// none of the later entries scores higher than any of them.
pub open spec fn best_first<K>(s: Seq<(u128, K)>, count: int) -> bool {
    forall|i: int, j: int| 0 <= i < j < s.len() && i < count ==> #[trigger] s[i].0 >= #[trigger] s[j].0
}

/// The ids of the first `t` entries of `s`.
pub open spec fn leading_ids<K>(s: Seq<(u128, K)>, t: int) -> Seq<K> {
    s.take(t).map_values(|p: (u128, K)| p.1)
}

proof fn lemma_swap_keeps_multiset<A>(s: Seq<A>, i: int, j: int)
    requires
        0 <= i < s.len(),
        0 <= j < s.len(),
    ensures
        s.update(i, s[j]).update(j, s[i]).to_multiset() == s.to_multiset(),
{
    broadcast use vstd::seq_lib::to_multiset_update;

    if i != j {
        let s1 = s.update(i, s[j]);
        assert(s1[j] == s[j]);
        assert(s1.update(j, s[i]).to_multiset() =~= s.to_multiset());
    } else {
        assert(s.update(i, s[j]).update(j, s[i]) =~= s);
    }
}

/// Moves the `count` highest-scoring entries of `v` to its front, best first.
/// The entries as a whole stay the same.
pub(crate) fn select_top<K: Copy>(v: &mut Vec<(u128, K)>, count: usize)
    requires
        count <= old(v)@.len(),
    ensures
        final(v)@.len() == old(v)@.len(),
        final(v)@.to_multiset() == old(v)@.to_multiset(),
        best_first(final(v)@, count as int),
{
    let n = v.len();
    let mut k: usize = 0;
    while k < count
        invariant
            count <= n,
            n == v@.len(),
            k <= count,
            v@.to_multiset() == old(v)@.to_multiset(),
            best_first(v@, k as int),
        decreases count - k,
    {
        let mut best: usize = k;
        let mut j: usize = k + 1;
        while j < n
            invariant
                k < n,
                k < j <= n,
                k <= best < j,
                n == v@.len(),
                forall|t: int| k <= t < j ==> v@[best as int].0 >= #[trigger] v@[t].0,
            decreases n - j,
        {
            if v[j].0 > v[best].0 {
                best = j;
            }
            j += 1;
        }
        let a = v[k];
        let b = v[best];
        let ghost pre = v@;
        v.set(k, b);
        v.set(best, a);
        proof {
            lemma_swap_keeps_multiset(pre, k as int, best as int);
            assert forall|i: int, j: int|
                0 <= i < j < v@.len() && i < k + 1 implies #[trigger] v@[i].0 >= #[trigger] v@[j].0 by {
                if i < k {
                    if j == k {
                        assert(pre[i].0 >= pre[best as int].0);
                    } else if j == best {
                        assert(pre[i].0 >= pre[k as int].0);
                    } else {
                        assert(pre[i].0 >= pre[j].0);
                    }
                } else {
                    if j == best {
                        assert(pre[best as int].0 >= pre[k as int].0);
                    } else {
                        assert(pre[best as int].0 >= pre[j].0);
                    }
                }
            }
        }
        k += 1;
    }
}

/// Ranking the entries with `select_top` and keeping the first `t` ranks the map.
pub proof fn lemma_selection_ranks_top<K, V>(
    e: Seq<(u128, K)>,
    s: Seq<(u128, K)>,
    m: Map<K, V>,
    limit: int,
    score: spec_fn(K, V) -> int,
)
    requires
        m.dom().finite(),
        0 <= limit,
        scores_all_entries(e, m, score),
        s.len() == e.len(),
        s.to_multiset() == e.to_multiset(),
        best_first(s, ranked_len(limit, e.len() as int)),
    ensures
        is_top_ranking(leading_ids(s, ranked_len(limit, e.len() as int)), m, limit, score),
{
    let t = ranked_len(limit, e.len() as int);
    let ids = leading_ids(s, t);
    // every entry of s is an entry of e, and back
    assert forall|i: int| 0 <= i < s.len() implies e.contains(#[trigger] s[i]) by {
        assert(s.to_multiset().count(s[i]) > 0);
    }
    assert forall|i: int| 0 <= i < e.len() implies s.contains(#[trigger] e[i]) by {
        assert(e.to_multiset().count(e[i]) > 0);
    }
    // no entry of s is repeated
    assert(e.no_duplicates()) by {
        assert forall|i: int, j: int| 0 <= i < e.len() && 0 <= j < e.len() && i != j implies e[i]
            != e[j] by {
            if i < j {
                assert(e[i].1 != e[j].1);
            } else {
                assert(e[j].1 != e[i].1);
            }
        }
    }
    e.lemma_multiset_has_no_duplicates();
    s.lemma_multiset_has_no_duplicates_conv();
    // the ids of s are pairwise distinct
    assert forall|i: int, j: int| 0 <= i < s.len() && 0 <= j < s.len() && i != j implies s[i].1
        != s[j].1 by {
        let a = e.index_of(s[i]);
        let b = e.index_of(s[j]);
        assert(e[a] == s[i]);
        assert(e[b] == s[j]);
        if s[i].1 == s[j].1 {
            if a < b {
                assert(e[a].1 != e[b].1);
            } else if b < a {
                assert(e[b].1 != e[a].1);
            }
        }
    }
    assert forall|i: int| 0 <= i < s.len() implies #[trigger] m.dom().contains(s[i].1) && s[i].0
        == score(s[i].1, m[s[i].1]) by {
        let a = e.index_of(s[i]);
        assert(e[a] == s[i]);
    }
    assert forall|i: int| 0 <= i < ids.len() implies ids[i] == s[i].1 && #[trigger] m.dom().contains(
        ids[i],
    ) by {
        assert(m.dom().contains(s[i].1));
    }
    assert(ids.no_duplicates()) by {
        assert forall|i: int, j: int| 0 <= i < ids.len() && 0 <= j < ids.len() && i != j implies ids[i]
            != ids[j] by {
            assert(ids[i] == s[i].1);
            assert(ids[j] == s[j].1);
        }
    }
    assert forall|i: int, j: int| 0 <= i < j < ids.len() implies score(ids[i], m[#[trigger] ids[i]])
        >= score(ids[j], m[#[trigger] ids[j]]) by {
        assert(ids[i] == s[i].1);
        assert(ids[j] == s[j].1);
        assert(m.dom().contains(s[i].1));
        assert(m.dom().contains(s[j].1));
        assert(s[i].0 >= s[j].0);
    }
    assert forall|k: K, i: int|
        #![trigger m.dom().contains(k), ids[i]]
        m.dom().contains(k) && !ids.contains(k) && 0 <= i < ids.len() implies score(k, m[k]) <= score(
        ids[i],
        m[ids[i]],
    ) by {
        let a = choose|a: int| 0 <= a < e.len() && e[a].1 == k;
        let b = s.index_of(e[a]);
        assert(s[b] == e[a]);
        assert(m.dom().contains(s[b].1));
        if b < t {
            assert(ids[b] == k);
        }
        assert(ids[i] == s[i].1);
        assert(m.dom().contains(s[i].1));
        assert(s[i].0 >= s[b].0);
    }
}

/// The keys of `m` ranked by `score_of`, best first, at most `limit` of
/// them; `score_of` computes the spec score `score`.
pub(crate) fn rank_top<K: Copy + Eq + Hash, V, F: Fn(&K, &V) -> u128>(
    m: &HashMap<K, V>,
    limit: usize,
    score_of: F,
    Ghost(score): Ghost<spec_fn(K, V) -> int>,
) -> (ids: Vec<K>)
    requires
        obeys_key_model::<K>(),
        forall|k: &K, v: &V| #[trigger] score_of.requires((k, v)),
        forall|k: &K, v: &V, r: u128| #[trigger] score_of.ensures((k, v), r) ==> r as int == score(*k, *v),
    ensures
        is_top_ranking(ids@, m@, limit as int, score),
{
    broadcast use vstd::std_specs::hash::group_hash_axioms;

    let ghost mm = m@;
    let mut e: Vec<(u128, K)> = Vec::new();
    for (k, v) in it: m.iter()
        invariant
            e@.len() == it.index(),
            it.seq().len() == mm.dom().len(),
            it.seq().no_duplicates(),
            mm == m@,
            forall|k: &K, v: &V| #[trigger] score_of.requires((k, v)),
            forall|k: &K, v: &V, r: u128| #[trigger] score_of.ensures((k, v), r) ==> r as int == score(*k, *v),
            forall|i: int|
                0 <= i < e@.len() ==> e@[i].1 == *it.seq()[i].0 && e@[i].0 == score(*it.seq()[i].0, *it.seq()[i].1),
            forall|i: int|
                0 <= i < it.seq().len() ==> #[trigger] mm.contains_key(*it.seq()[i].0)
                    && mm[*it.seq()[i].0] == *it.seq()[i].1,
            forall|q: K| #[trigger] mm.contains_key(q) ==> it.seq().contains((&q, &mm[q])),
            forall|i: int, j: int| 0 <= i < j < e@.len() ==> #[trigger] e@[i].1 != #[trigger] e@[j].1,
            forall|q: K| #[trigger]
                mm.contains_key(q) ==> (exists|i: int| 0 <= i < e@.len() && e@[i].1 == q) || (
                exists|j: int| it.index() <= j < it.seq().len() && *it.seq()[j].0 == q),
    {
        let ghost before = e@;
        let s = score_of(k, v);
        e.push((s, *k));
        proof {
            assert forall|i: int, j: int| 0 <= i < j < e@.len() implies #[trigger] e@[i].1
                != #[trigger] e@[j].1 by {
                if j == before.len() {
                    assert(it.seq()[i] != it.seq()[j]);
                    assert(mm.contains_key(*it.seq()[i].0));
                    assert(mm.contains_key(*it.seq()[j].0));
                }
            }
            assert forall|q: K| #[trigger] mm.contains_key(q) implies (exists|i: int|
                0 <= i < e@.len() && e@[i].1 == q) || (exists|j: int|
                it.index() + 1 <= j < it.seq().len() && *it.seq()[j].0 == q) by {
                if exists|i: int| 0 <= i < before.len() && before[i].1 == q {
                    let i = choose|i: int| 0 <= i < before.len() && before[i].1 == q;
                    assert(e@[i].1 == q);
                } else if *k == q {
                    assert(e@[before.len() as int].1 == q);
                }
            }
        }
    }
    assert(scores_all_entries(e@, mm, score));
    let t = if limit < e.len() {
        limit
    } else {
        e.len()
    };
    let ghost e0 = e@;
    select_top(&mut e, t);
    proof {
        lemma_selection_ranks_top(e0, e@, mm, limit as int, score);
    }
    let mut ids: Vec<K> = Vec::new();
    let mut i: usize = 0;
    while i < t
        invariant
            i <= t,
            t <= e@.len(),
            ids@.len() == i,
            forall|j: int| 0 <= j < i ==> ids@[j] == e@[j].1,
        decreases t - i,
    {
        ids.push(e[i].1);
        i += 1;
    }
    assert(ids@ =~= leading_ids(e@, t as int));
    ids
}

} // verus!
