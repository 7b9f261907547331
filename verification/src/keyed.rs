//! Sequences of entries with distinct keys, read as maps from key to entry.
use vstd::prelude::*;

verus! {

/// The entries of `s` by key; a later entry wins over an earlier one with the same key.
pub open spec fn keyed<T, K>(s: Seq<T>, key: spec_fn(T) -> K) -> Map<K, T>
    decreases s.len(),
{
    if s.len() == 0 {
        Map::empty()
    } else {
        keyed(s.drop_last(), key).insert(key(s.last()), s.last())
    }
}

/// No two entries of `s` share a key.
pub open spec fn distinct_keys<T, K>(s: Seq<T>, key: spec_fn(T) -> K) -> bool {
    forall|i: int, j: int| 0 <= i < j < s.len() ==> key(#[trigger] s[i]) != key(#[trigger] s[j])
}

pub proof fn lemma_keyed_dom<T, K>(s: Seq<T>, key: spec_fn(T) -> K, k: K)
    ensures
        keyed(s, key).dom().contains(k) <==> exists|i: int| 0 <= i < s.len() && key(#[trigger] s[i]) == k,
    decreases s.len(),
{
    if s.len() > 0 {
        let t = s.drop_last();
        lemma_keyed_dom(t, key, k);
        if exists|i: int| 0 <= i < t.len() && key(#[trigger] t[i]) == k {
            let i = choose|i: int| 0 <= i < t.len() && key(#[trigger] t[i]) == k;
            assert(s[i] == t[i]);
        }
        if exists|i: int| 0 <= i < s.len() && key(#[trigger] s[i]) == k {
            let i = choose|i: int| 0 <= i < s.len() && key(#[trigger] s[i]) == k;
            if i < s.len() - 1 {
                assert(t[i] == s[i]);
            }
        }
    }
}

pub proof fn lemma_distinct_drop_last<T, K>(s: Seq<T>, key: spec_fn(T) -> K)
    requires
        s.len() > 0,
        distinct_keys(s, key),
    ensures
        distinct_keys(s.drop_last(), key),
{
    let t = s.drop_last();
    assert forall|a: int, b: int| 0 <= a < b < t.len() implies key(#[trigger] t[a]) != key(#[trigger] t[b]) by {
        assert(t[a] == s[a] && t[b] == s[b]);
    }
}

pub proof fn lemma_keyed_at<T, K>(s: Seq<T>, key: spec_fn(T) -> K, i: int)
    requires
        distinct_keys(s, key),
        0 <= i < s.len(),
    ensures
        keyed(s, key).dom().contains(key(s[i])),
        keyed(s, key)[key(s[i])] == s[i],
    decreases s.len(),
{
    if i < s.len() - 1 {
        let t = s.drop_last();
        assert(t[i] == s[i]);
        lemma_distinct_drop_last(s, key);
        lemma_keyed_at(t, key, i);
        assert(key(s[i]) != key(s[s.len() - 1]));
    }
}

pub proof fn lemma_keyed_len<T, K>(s: Seq<T>, key: spec_fn(T) -> K)
    requires
        distinct_keys(s, key),
    ensures
        keyed(s, key).dom().finite(),
        keyed(s, key).dom().len() == s.len(),
    decreases s.len(),
{
    if s.len() > 0 {
        let t = s.drop_last();
        lemma_distinct_drop_last(s, key);
        lemma_keyed_len(t, key);
        lemma_keyed_dom(t, key, key(s.last()));
        if keyed(t, key).dom().contains(key(s.last())) {
            let i = choose|i: int| 0 <= i < t.len() && key(#[trigger] t[i]) == key(s.last());
            assert(t[i] == s[i]);
        }
    }
}

/// Every key of `keyed(s, key)` belongs to an entry of `s`, found by its position.
pub proof fn lemma_keyed_index<T, K>(s: Seq<T>, key: spec_fn(T) -> K, k: K) -> (i: int)
    requires
        distinct_keys(s, key),
        keyed(s, key).dom().contains(k),
    ensures
        0 <= i < s.len(),
        key(s[i]) == k,
        keyed(s, key)[k] == s[i],
{
    lemma_keyed_dom(s, key, k);
    let i = choose|i: int| 0 <= i < s.len() && key(#[trigger] s[i]) == k;
    lemma_keyed_at(s, key, i);
    i
}

pub proof fn lemma_keyed_push<T, K>(s: Seq<T>, key: spec_fn(T) -> K, v: T)
    requires
        distinct_keys(s, key),
        !keyed(s, key).dom().contains(key(v)),
    ensures
        distinct_keys(s.push(v), key),
        keyed(s.push(v), key) == keyed(s, key).insert(key(v), v),
{
    let t = s.push(v);
    assert(t.drop_last() == s);
    assert forall|a: int, b: int| 0 <= a < b < t.len() implies key(#[trigger] t[a]) != key(#[trigger] t[b]) by {
        if b == s.len() {
            assert(t[a] == s[a]);
            lemma_keyed_dom(s, key, key(v));
        } else {
            assert(t[a] == s[a] && t[b] == s[b]);
        }
    }
}

pub proof fn lemma_keyed_update<T, K>(s: Seq<T>, key: spec_fn(T) -> K, i: int, v: T)
    requires
        distinct_keys(s, key),
        0 <= i < s.len(),
        key(v) == key(s[i]),
    ensures
        distinct_keys(s.update(i, v), key),
        keyed(s.update(i, v), key) == keyed(s, key).insert(key(v), v),
{
    let t = s.update(i, v);
    assert forall|a: int, b: int| 0 <= a < b < t.len() implies key(#[trigger] t[a]) != key(#[trigger] t[b]) by {
        assert(key(t[a]) == key(s[a]));
        assert(key(t[b]) == key(s[b]));
    }
    assert forall|k: K| #[trigger] keyed(t, key).dom().contains(k) == keyed(s, key).insert(key(v), v).dom().contains(k) by {
        lemma_keyed_dom(t, key, k);
        lemma_keyed_dom(s, key, k);
        if exists|j: int| 0 <= j < t.len() && key(#[trigger] t[j]) == k {
            let j = choose|j: int| 0 <= j < t.len() && key(#[trigger] t[j]) == k;
            assert(key(t[j]) == key(s[j]));
        }
        if exists|j: int| 0 <= j < s.len() && key(#[trigger] s[j]) == k {
            let j = choose|j: int| 0 <= j < s.len() && key(#[trigger] s[j]) == k;
            assert(key(t[j]) == key(s[j]));
        }
    }
    assert forall|k: K| keyed(t, key).dom().contains(k) implies #[trigger] keyed(t, key)[k] == keyed(s, key).insert(
        key(v),
        v,
    )[k] by {
        let j = lemma_keyed_index(t, key, k);
        if j == i {
            assert(t[j] == v);
        } else {
            assert(t[j] == s[j]);
            lemma_keyed_at(s, key, j);
        }
    }
    assert(keyed(t, key) =~= keyed(s, key).insert(key(v), v));
}

pub proof fn lemma_keyed_remove<T, K>(s: Seq<T>, key: spec_fn(T) -> K, i: int)
    requires
        distinct_keys(s, key),
        0 <= i < s.len(),
    ensures
        distinct_keys(s.remove(i), key),
        keyed(s.remove(i), key) == keyed(s, key).remove(key(s[i])),
{
    let t = s.remove(i);
    let at = |j: int| if j < i { j } else { j + 1 };
    assert forall|a: int, b: int| 0 <= a < b < t.len() implies key(#[trigger] t[a]) != key(#[trigger] t[b]) by {
        assert(t[a] == s[at(a)] && t[b] == s[at(b)]);
    }
    assert forall|k: K| #[trigger] keyed(t, key).dom().contains(k) == keyed(s, key).remove(key(s[i])).dom().contains(k) by {
        lemma_keyed_dom(t, key, k);
        lemma_keyed_dom(s, key, k);
        if exists|j: int| 0 <= j < t.len() && key(#[trigger] t[j]) == k {
            let j = choose|j: int| 0 <= j < t.len() && key(#[trigger] t[j]) == k;
            assert(t[j] == s[at(j)]);
        }
        if exists|j: int| 0 <= j < s.len() && key(#[trigger] s[j]) == k {
            let j = choose|j: int| 0 <= j < s.len() && key(#[trigger] s[j]) == k;
            if j < i {
                assert(t[j] == s[j]);
            } else if j > i {
                assert(t[j - 1] == s[j]);
            }
        }
    }
    assert forall|k: K| keyed(t, key).dom().contains(k) implies #[trigger] keyed(t, key)[k] == keyed(s, key).remove(
        key(s[i]),
    )[k] by {
        let j = lemma_keyed_index(t, key, k);
        assert(t[j] == s[at(j)]);
        lemma_keyed_at(s, key, at(j));
    }
    assert(keyed(t, key) =~= keyed(s, key).remove(key(s[i])));
}

/// The entries whose key satisfies `p`.
pub open spec fn on_key<T, K>(key: spec_fn(T) -> K, p: spec_fn(K) -> bool) -> spec_fn(T) -> bool {
    |x: T| p(key(x))
}

/// Keeping the entries whose key satisfies `p` keeps keys distinct and keeps exactly the entries
/// of those keys.
pub proof fn lemma_keyed_filter<T, K>(s: Seq<T>, key: spec_fn(T) -> K, p: spec_fn(K) -> bool)
    requires
        distinct_keys(s, key),
    ensures
        distinct_keys(s.filter(on_key(key, p)), key),
        forall|k: K| #[trigger] keyed(s.filter(on_key(key, p)), key).dom().contains(k) == (keyed(s, key).dom().contains(k) && p(k)),
        forall|k: K| keyed(s.filter(on_key(key, p)), key).dom().contains(k) ==> #[trigger] keyed(s.filter(on_key(key, p)), key)[k] == keyed(s, key)[k],
    decreases s.len(),
{
    reveal(Seq::filter);
    let q = on_key(key, p);
    if s.len() == 0 {
        assert(s.filter(q) == s);
    } else {
        let t = s.drop_last();
        lemma_distinct_drop_last(s, key);
        lemma_keyed_filter(t, key, p);
        let ft = t.filter(q);
        assert(s.filter(q) == if q(s.last()) { ft.push(s.last()) } else { ft });
        lemma_keyed_dom(t, key, key(s.last()));
        if keyed(t, key).dom().contains(key(s.last())) {
            let i = choose|i: int| 0 <= i < t.len() && key(#[trigger] t[i]) == key(s.last());
            assert(t[i] == s[i]);
        }
        if q(s.last()) {
            lemma_keyed_push(ft, key, s.last());
        }
    }
}

} // verus!
