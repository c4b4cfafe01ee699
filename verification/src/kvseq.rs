//! Generic specification functions and lemmas for association sequences:
//! sequences of (key, value) pairs looked up by first match. Both the value
//! tree's tables and the flat string maps are modelled this way.

use vstd::prelude::*;

verus! {

/// The value stored under key `k`: the first matching entry, if any.
pub open spec fn kv_get<T>(t: Seq<(Seq<char>, T)>, k: Seq<char>) -> Option<T>
    decreases t.len(),
{
    if t.len() == 0 {
        None
    } else if t[0].0 == k {
        Some(t[0].1)
    } else {
        kv_get(t.subrange(1, t.len() as int), k)
    }
}

/// The sequence with `v` stored under `k`: replaces the first entry holding
/// `k`, or appends a new entry when `k` is absent.
pub open spec fn kv_insert<T>(t: Seq<(Seq<char>, T)>, k: Seq<char>, v: T) -> Seq<(Seq<char>, T)>
    decreases t.len(),
{
    if t.len() == 0 {
        seq![(k, v)]
    } else if t[0].0 == k {
        seq![(k, v)] + t.subrange(1, t.len() as int)
    } else {
        seq![t[0]] + kv_insert(t.subrange(1, t.len() as int), k, v)
    }
}

/// No two entries share a key.
pub open spec fn kv_keys_unique<T>(t: Seq<(Seq<char>, T)>) -> bool {
    forall|i: int, j: int| 0 <= i < j < t.len() ==> t[i].0 != t[j].0
}

/// When the first match for `k` is at position `i`, `kv_get` returns that
/// entry's value.
pub proof fn lemma_kv_get_at<T>(t: Seq<(Seq<char>, T)>, k: Seq<char>, i: int)
    requires
        0 <= i < t.len(),
        t[i].0 == k,
        forall|j: int| 0 <= j < i ==> t[j].0 != k,
    ensures
        kv_get(t, k) == Some(t[i].1),
    decreases i,
{
    if i > 0 {
        let tr = t.subrange(1, t.len() as int);
        lemma_kv_get_at(tr, k, i - 1);
    }
}

/// When no entry holds `k`, `kv_get` returns `None`.
pub proof fn lemma_kv_get_absent<T>(t: Seq<(Seq<char>, T)>, k: Seq<char>)
    requires
        forall|j: int| 0 <= j < t.len() ==> t[j].0 != k,
    ensures
        kv_get(t, k) is None,
    decreases t.len(),
{
    if t.len() > 0 {
        lemma_kv_get_absent(t.subrange(1, t.len() as int), k);
    }
}

/// When the first match for `k` is at position `i`, `kv_insert` rewrites
/// exactly that entry.
pub proof fn lemma_kv_insert_at<T>(t: Seq<(Seq<char>, T)>, k: Seq<char>, v: T, i: int)
    requires
        0 <= i < t.len(),
        t[i].0 == k,
        forall|j: int| 0 <= j < i ==> t[j].0 != k,
    ensures
        kv_insert(t, k, v) =~= t.subrange(0, i) + seq![(k, v)] + t.subrange(i + 1, t.len() as int),
    decreases i,
{
    if i > 0 {
        let tr = t.subrange(1, t.len() as int);
        lemma_kv_insert_at(tr, k, v, i - 1);
        assert(tr.subrange(0, i - 1) =~= t.subrange(1, i));
        assert(tr.subrange(i, tr.len() as int) =~= t.subrange(i + 1, t.len() as int));
    }
}

/// When no entry holds `k`, `kv_insert` appends.
pub proof fn lemma_kv_insert_absent<T>(t: Seq<(Seq<char>, T)>, k: Seq<char>, v: T)
    requires
        forall|j: int| 0 <= j < t.len() ==> t[j].0 != k,
    ensures
        kv_insert(t, k, v) =~= t.push((k, v)),
    decreases t.len(),
{
    if t.len() > 0 {
        lemma_kv_insert_absent(t.subrange(1, t.len() as int), k, v);
    }
}

/// `kv_get` after `kv_insert`: the inserted key now holds `v`; every other
/// key is untouched.
pub proof fn lemma_kv_insert_get<T>(t: Seq<(Seq<char>, T)>, k: Seq<char>, v: T, k2: Seq<char>)
    ensures
        k2 == k ==> kv_get(kv_insert(t, k, v), k2) == Some(v),
        k2 != k ==> kv_get(kv_insert(t, k, v), k2) == kv_get(t, k2),
    decreases t.len(),
{
    let t2 = kv_insert(t, k, v);
    if t.len() == 0 {
        let e = Seq::<(Seq<char>, T)>::empty();
        assert(t2 =~= seq![(k, v)]);
        assert(t2[0] == (k, v));
        assert(t2.subrange(1, t2.len() as int) =~= e);
        assert(kv_get(e, k2) is None);
    } else if t[0].0 == k {
        assert(t2[0] == (k, v));
        assert(t2.subrange(1, t2.len() as int) =~= t.subrange(1, t.len() as int));
    } else {
        lemma_kv_insert_get(t.subrange(1, t.len() as int), k, v, k2);
        assert(t2[0] == t[0]);
        assert(t2.subrange(1, t2.len() as int) =~= kv_insert(t.subrange(1, t.len() as int), k, v));
    }
}

/// Every entry of `kv_insert(t, k, v)` is either the inserted pair or one of
/// the original entries, the length grows by at most one, and uniqueness of
/// keys is preserved.
pub proof fn lemma_kv_insert_entries<T>(t: Seq<(Seq<char>, T)>, k: Seq<char>, v: T)
    ensures
        kv_insert(t, k, v).len() <= t.len() + 1,
        forall|i: int| 0 <= i < kv_insert(t, k, v).len() ==> (#[trigger] kv_insert(t, k, v)[i]) == (
        k,
        v,
        ) || exists|j: int| 0 <= j < t.len() && kv_insert(t, k, v)[i] == #[trigger] t[j],
        kv_keys_unique(t) ==> kv_keys_unique(kv_insert(t, k, v)),
    decreases t.len(),
{
    let t2 = kv_insert(t, k, v);
    if t.len() == 0 {
        assert(t2 =~= seq![(k, v)]);
        assert(t2[0] == (k, v));
    } else if t[0].0 == k {
        assert(t2[0] == (k, v));
        assert(forall|i: int| 1 <= i < t2.len() ==> t2[i] == t[i]);
        assert(forall|i: int|
            1 <= i < t2.len() ==> exists|j: int| 0 <= j < t.len() && (#[trigger] t2[i]) == t[j]);
    } else {
        let tr = t.subrange(1, t.len() as int);
        lemma_kv_insert_entries(tr, k, v);
        let tr2 = kv_insert(tr, k, v);
        assert(t2[0] == t[0]);
        assert(forall|i: int| 1 <= i < t2.len() ==> t2[i] == tr2[i - 1]);
        assert(forall|j: int| 0 <= j < tr.len() ==> tr[j] == t[j + 1]);
        assert(forall|i: int|
            0 <= i < t2.len() ==> (#[trigger] t2[i]) == (k, v) || exists|j: int|
                0 <= j < t.len() && t2[i] == #[trigger] t[j]);
        if kv_keys_unique(t) {
            assert(kv_keys_unique(tr));
            assert(kv_keys_unique(tr2));
            assert(forall|i: int|
                0 <= i < tr2.len() ==> (#[trigger] tr2[i]).0 == k || exists|j: int|
                    0 <= j < tr.len() && tr2[i] == #[trigger] tr[j]) by {
                lemma_kv_insert_keys_source(tr, k, v);
            }
            assert(forall|i: int| 1 <= i < t2.len() ==> (#[trigger] t2[i]).0 != t2[0].0);
            assert(kv_keys_unique(t2));
        }
    }
}

/// Every key of `kv_insert(t, k, v)` is `k` or a key of `t`.
pub proof fn lemma_kv_insert_keys_source<T>(t: Seq<(Seq<char>, T)>, k: Seq<char>, v: T)
    ensures
        forall|i: int| 0 <= i < kv_insert(t, k, v).len() ==> (#[trigger] kv_insert(t, k, v)[i]).0
            == k || exists|j: int| 0 <= j < t.len() && kv_insert(t, k, v)[i] == #[trigger] t[j],
    decreases t.len(),
{
    let t2 = kv_insert(t, k, v);
    if t.len() == 0 {
        assert(t2 =~= seq![(k, v)]);
        assert(t2[0] == (k, v));
    } else if t[0].0 == k {
        assert(t2[0] == (k, v));
        assert(forall|i: int| 1 <= i < t2.len() ==> t2[i] == t[i]);
        assert(forall|i: int|
            1 <= i < t2.len() ==> exists|j: int| 0 <= j < t.len() && (#[trigger] t2[i]) == t[j]);
    } else {
        let tr = t.subrange(1, t.len() as int);
        lemma_kv_insert_keys_source(tr, k, v);
        let tr2 = kv_insert(tr, k, v);
        assert(t2[0] == t[0]);
        assert(forall|i: int| 1 <= i < t2.len() ==> t2[i] == tr2[i - 1]);
        assert(forall|j: int| 0 <= j < tr.len() ==> tr[j] == t[j + 1]);
    }
}

/// When some entry carries the key `k`, `kv_get` finds a value.
pub proof fn lemma_kv_get_present<T>(t: Seq<(Seq<char>, T)>, k: Seq<char>)
    requires
        exists|j: int| 0 <= j < t.len() && (#[trigger] t[j]).0 == k,
    ensures
        kv_get(t, k) is Some,
    decreases t.len(),
{
    if t.len() > 0 && t[0].0 != k {
        let tr = t.subrange(1, t.len() as int);
        let w = choose|j: int| 0 <= j < t.len() && (#[trigger] t[j]).0 == k;
        assert(tr[w - 1] == t[w]);
        lemma_kv_get_present(tr, k);
    }
}

/// Removing an entry whose key differs from `k` does not change what
/// `kv_get` finds for `k`.
pub proof fn lemma_kv_get_after_remove<T>(t: Seq<(Seq<char>, T)>, i: int, k: Seq<char>)
    requires
        0 <= i < t.len(),
        t[i].0 != k,
    ensures
        kv_get(t.subrange(0, i) + t.subrange(i + 1, t.len() as int), k) == kv_get(t, k),
    decreases i,
{
    let t2 = t.subrange(0, i) + t.subrange(i + 1, t.len() as int);
    if i == 0 {
        assert(t2 =~= t.subrange(1, t.len() as int));
    } else {
        let tr = t.subrange(1, t.len() as int);
        lemma_kv_get_after_remove(tr, i - 1, k);
        assert(t2[0] == t[0]);
        assert(t2.subrange(1, t2.len() as int) =~= tr.subrange(0, i - 1) + tr.subrange(
            i,
            tr.len() as int,
        ));
    }
}

} // verus!
