//! Ordered lists of entries under keys: what maps that keep the order of insertion hold.

use vstd::prelude::*;

verus! {

/// The first index from `i` on with the key `k`, or the length if there is none.
pub open spec fn key_from<K, V>(es: Seq<(K, V)>, k: K, i: int) -> int
    decreases es.len() - i,
{
    if i >= es.len() {
        es.len() as int
    } else if es[i].0 == k {
        i
    } else {
        key_from(es, k, i + 1)
    }
}

/// Whether there is an entry under `k`.
pub open spec fn has_entry<K, V>(es: Seq<(K, V)>, k: K) -> bool {
    key_from(es, k, 0) < es.len()
}

/// The value under `k`.
pub open spec fn value_under<K, V>(es: Seq<(K, V)>, k: K) -> Option<V> {
    if has_entry(es, k) {
        Some(es[key_from(es, k, 0)].1)
    } else {
        None
    }
}

/// The entries once `v` has been put under `k`: in place, or at the end if there was none.
pub open spec fn put<K, V>(es: Seq<(K, V)>, k: K, v: V) -> Seq<(K, V)> {
    if has_entry(es, k) {
        es.update(key_from(es, k, 0), (k, v))
    } else {
        es.push((k, v))
    }
}

/// The entries without the one under `k`; the others keep their order.
pub open spec fn without<K, V>(es: Seq<(K, V)>, k: K) -> Seq<(K, V)> {
    if has_entry(es, k) {
        es.remove(key_from(es, k, 0))
    } else {
        es
    }
}

/// Whether no key stands twice.
pub open spec fn distinct_keys<K, V>(es: Seq<(K, V)>) -> bool {
    forall|i: int, j: int|
        0 <= i < es.len() && 0 <= j < es.len() && i != j ==> (#[trigger] es[i]).0 != (
        #[trigger] es[j]).0
}

/// The search for a key ends within the list, at an entry with that key or at the end.
pub proof fn lemma_key_from<K, V>(es: Seq<(K, V)>, k: K, i: int)
    requires
        0 <= i <= es.len(),
    ensures
        i <= key_from(es, k, i) <= es.len(),
        key_from(es, k, i) < es.len() ==> es[key_from(es, k, i)].0 == k,
        forall|j: int| i <= j < key_from(es, k, i) ==> (#[trigger] es[j]).0 != k,
    decreases es.len() - i,
{
    if i < es.len() && es[i].0 != k {
        lemma_key_from(es, k, i + 1);
    }
}

/// The first entry with a key is found.
pub proof fn lemma_key_at<K, V>(es: Seq<(K, V)>, k: K, i: int, at: int)
    requires
        0 <= i <= at <= es.len(),
        at < es.len() ==> es[at].0 == k,
        forall|j: int| i <= j < at ==> (#[trigger] es[j]).0 != k,
    ensures
        key_from(es, k, i) == at,
    decreases at - i,
{
    if i < at {
        lemma_key_at(es, k, i + 1, at);
    }
}

/// What was put under a key is found there, and every other key is as it was.
pub proof fn put_is_found<K, V>(es: Seq<(K, V)>, k: K, v: V, other: K)
    ensures
        value_under(put(es, k, v), k) == Some(v),
        other != k ==> value_under(put(es, k, v), other) == value_under(es, other),
{
    let p = put(es, k, v);
    lemma_key_from(es, k, 0);
    let at = key_from(es, k, 0);
    assert forall|j: int| 0 <= j < at implies (#[trigger] p[j]).0 != k by {
        assert(es[j].0 != k);
    }
    lemma_key_at(p, k, 0, at);
    if other != k {
        lemma_key_from(es, other, 0);
        let o = key_from(es, other, 0);
        assert forall|j: int| 0 <= j < o implies (#[trigger] p[j]).0 != other by {
            assert(es[j].0 != other);
        }
        if o < es.len() {
            lemma_key_at(p, other, 0, o);
        } else {
            assert forall|j: int| 0 <= j < p.len() implies (#[trigger] p[j]).0 != other by {
                if j < es.len() {
                    assert(es[j].0 != other);
                }
            }
            lemma_key_at(p, other, 0, p.len() as int);
        }
    }
}

/// Taking an entry out does not change what is found under another key.
pub proof fn without_keeps_others<K, V>(es: Seq<(K, V)>, k: K, other: K)
    requires
        other != k,
    ensures
        value_under(without(es, k), other) == value_under(es, other),
{
    lemma_key_from(es, k, 0);
    lemma_key_from(es, other, 0);
    let at = key_from(es, k, 0);
    let o = key_from(es, other, 0);
    if at < es.len() {
        let w = es.remove(at);
        let p = if o < at || o == es.len() {
            if o == es.len() {
                w.len() as int
            } else {
                o
            }
        } else {
            o - 1
        };
        assert forall|j: int| 0 <= j < p implies (#[trigger] w[j]).0 != other by {
            if j < at {
                assert(es[j].0 != other);
            } else {
                assert(es[j + 1].0 != other);
            }
        }
        lemma_key_at(w, other, 0, p);
    }
}

/// Where no key stands twice, a key that was taken out is gone, and still no key stands twice.
pub proof fn without_leaves_none<K, V>(es: Seq<(K, V)>, k: K)
    requires
        distinct_keys(es),
    ensures
        !has_entry(without(es, k), k),
        distinct_keys(without(es, k)),
{
    lemma_key_from(es, k, 0);
    let at = key_from(es, k, 0);
    if at < es.len() {
        let w = es.remove(at);
        assert forall|j: int| 0 <= j < w.len() implies (#[trigger] w[j]).0 != k by {
            let i = if j < at { j } else { j + 1 };
            assert(es[i].0 != es[at].0);
        }
        lemma_key_at(w, k, 0, w.len() as int);
        assert forall|i: int, j: int| 0 <= i < w.len() && 0 <= j < w.len() && i != j implies (
        #[trigger] w[i]).0 != (#[trigger] w[j]).0 by {
            let x = if i < at { i } else { i + 1 };
            let y = if j < at { j } else { j + 1 };
            assert(es[x].0 != es[y].0);
        }
    }
}

/// Putting a value under a key makes no key stand twice.
pub proof fn put_keeps_keys_distinct<K, V>(es: Seq<(K, V)>, k: K, v: V)
    requires
        distinct_keys(es),
    ensures
        distinct_keys(put(es, k, v)),
{
    lemma_key_from(es, k, 0);
    let p = put(es, k, v);
    let at = key_from(es, k, 0);
    assert forall|i: int, j: int| 0 <= i < p.len() && 0 <= j < p.len() && i != j implies (
    #[trigger] p[i]).0 != (#[trigger] p[j]).0 by {
        if i < es.len() && j < es.len() {
            assert(es[i].0 != es[j].0);
        } else if i < es.len() {
            assert(es[i].0 != k);
        } else {
            assert(es[j].0 != k);
        }
    }
}

/// Taking out what was put under a new key gives the entries back.
pub proof fn put_and_without_cancel<K, V>(es: Seq<(K, V)>, k: K, v: V)
    requires
        !has_entry(es, k),
    ensures
        has_entry(put(es, k, v), k),
        without(put(es, k, v), k) == es,
{
    let p = put(es, k, v);
    lemma_key_from(es, k, 0);
    assert forall|j: int| 0 <= j < es.len() implies (#[trigger] p[j]).0 != k by {
        assert(es[j].0 != k);
    }
    lemma_key_at(p, k, 0, es.len() as int);
    assert(p.remove(es.len() as int) == es);
}

/// Of two values put under one key the second counts, as if it were the only one.
pub proof fn put_twice<K, V>(es: Seq<(K, V)>, k: K, v: V, w: V)
    ensures
        put(put(es, k, v), k, w) == put(es, k, w),
{
    let p = put(es, k, v);
    lemma_key_from(es, k, 0);
    let at = key_from(es, k, 0);
    assert forall|j: int| 0 <= j < at implies (#[trigger] p[j]).0 != k by {
        assert(es[j].0 != k);
    }
    lemma_key_at(p, k, 0, at);
    assert(put(p, k, w) == put(es, k, w));
}

/// Putting what is already there changes nothing.
pub proof fn put_is_idempotent<K, V>(es: Seq<(K, V)>, k: K, v: V)
    requires
        value_under(es, k) == Some(v),
    ensures
        put(es, k, v) == es,
{
    lemma_key_from(es, k, 0);
    assert(put(es, k, v) == es);
}

} // verus!
