//! Association lists: the spec-level model shared by scope frames, the
//! register store and `Value` objects. A list of `(key, value)` pairs is read
//! by first match from the front; writing replaces the first matching pair or
//! appends a fresh one.

use vstd::prelude::*;

verus! {

/// First value bound to `k`, scanning from the front.
pub open spec fn alist_find<K, V>(s: Seq<(K, V)>, k: K) -> Option<V>
    decreases s.len(),
{
    if s.len() == 0 {
        None
    } else if s[0].0 == k {
        Some(s[0].1)
    } else {
        alist_find(s.drop_first(), k)
    }
}

/// Replace the first pair bound to `k`, or append one.
pub open spec fn alist_set<K, V>(s: Seq<(K, V)>, k: K, v: V) -> Seq<(K, V)>
    decreases s.len(),
{
    if s.len() == 0 {
        seq![(k, v)]
    } else if s[0].0 == k {
        seq![(k, v)] + s.drop_first()
    } else {
        seq![s[0]] + alist_set(s.drop_first(), k, v)
    }
}

/// If `i` is the first index bound to `k`, a find returns that pair's value.
pub proof fn lemma_alist_find_at<K, V>(s: Seq<(K, V)>, k: K, i: int)
    requires
        0 <= i < s.len(),
        s[i].0 == k,
        forall|j: int| 0 <= j < i ==> (#[trigger] s[j]).0 != k,
    ensures
        alist_find(s, k) == Some(s[i].1),
    decreases i,
{
    if i > 0 {
        assert(s[0].0 != k);
        lemma_alist_find_at(s.drop_first(), k, i - 1);
    }
}

/// If no pair is bound to `k`, a find returns nothing.
pub proof fn lemma_alist_find_none<K, V>(s: Seq<(K, V)>, k: K)
    requires
        forall|j: int| 0 <= j < s.len() ==> (#[trigger] s[j]).0 != k,
    ensures
        alist_find(s, k) is None,
    decreases s.len(),
{
    if s.len() > 0 {
        lemma_alist_find_none(s.drop_first(), k);
    }
}

/// If `i` is the first index bound to `k`, a write updates exactly that pair.
pub proof fn lemma_alist_set_at<K, V>(s: Seq<(K, V)>, k: K, v: V, i: int)
    requires
        0 <= i < s.len(),
        s[i].0 == k,
        forall|j: int| 0 <= j < i ==> (#[trigger] s[j]).0 != k,
    ensures
        alist_set(s, k, v) =~= s.update(i, (k, v)),
    decreases i,
{
    if i == 0 {
        assert(alist_set(s, k, v) =~= s.update(0, (k, v)));
    } else {
        assert(s[0].0 != k);
        lemma_alist_set_at(s.drop_first(), k, v, i - 1);
        assert(alist_set(s, k, v) =~= s.update(i, (k, v)));
    }
}

/// If no pair is bound to `k`, a write appends a fresh pair.
pub proof fn lemma_alist_set_append<K, V>(s: Seq<(K, V)>, k: K, v: V)
    requires
        forall|j: int| 0 <= j < s.len() ==> (#[trigger] s[j]).0 != k,
    ensures
        alist_set(s, k, v) =~= s.push((k, v)),
    decreases s.len(),
{
    if s.len() > 0 {
        lemma_alist_set_append(s.drop_first(), k, v);
        assert(alist_set(s, k, v) =~= s.push((k, v)));
    }
}

/// Reading a key just written yields the written value.
pub proof fn lemma_alist_set_find_same<K, V>(s: Seq<(K, V)>, k: K, v: V)
    ensures
        alist_find(alist_set(s, k, v), k) == Some(v),
    decreases s.len(),
{
    if s.len() == 0 {
    } else if s[0].0 == k {
        assert(alist_set(s, k, v)[0] == (k, v));
    } else {
        lemma_alist_set_find_same(s.drop_first(), k, v);
        assert(alist_set(s, k, v).drop_first() =~= alist_set(s.drop_first(), k, v));
    }
}

/// Writing one key leaves every other key's reading unchanged.
pub proof fn lemma_alist_set_find_other<K, V>(s: Seq<(K, V)>, k: K, v: V, k2: K)
    requires
        k2 != k,
    ensures
        alist_find(alist_set(s, k, v), k2) == alist_find(s, k2),
    decreases s.len(),
{
    if s.len() == 0 {
        let t = alist_set(s, k, v);
        assert(t.len() == 1 && t[0].0 == k);
        assert(alist_find(t, k2) == alist_find(t.drop_first(), k2));
        assert(t.drop_first().len() == 0);
        assert(alist_find(t.drop_first(), k2) is None);
    } else if s[0].0 == k {
        assert(alist_set(s, k, v).drop_first() =~= s.drop_first());
    } else {
        lemma_alist_set_find_other(s.drop_first(), k, v, k2);
        assert(alist_set(s, k, v).drop_first() =~= alist_set(s.drop_first(), k, v));
        assert(alist_set(s, k, v)[0] == s[0]);
    }
}

} // verus!
