//! Association sequences: a `Seq<(K, V)>` whose keys are pairwise distinct,
//! read as a finite map. The caches keep their entries in vectors and state
//! their contracts over this map reading.

use vstd::prelude::*;

verus! {

/// No key occurs twice.
pub open spec fn keys_unique<K, V>(s: Seq<(K, V)>) -> bool {
    forall|i: int, j: int|
        0 <= i < s.len() && 0 <= j < s.len() && i != j ==> #[trigger] s[i].0 != #[trigger] s[j].0
}

/// `k` is the key of some element.
pub open spec fn has_key<K, V>(s: Seq<(K, V)>, k: K) -> bool {
    exists|i: int| 0 <= i < s.len() && #[trigger] s[i].0 == k
}

/// The map that an association sequence denotes.
pub open spec fn to_map<K, V>(s: Seq<(K, V)>) -> Map<K, V> {
    Map::new(
        |k: K| has_key(s, k),
        |k: K| s[choose|i: int| 0 <= i < s.len() && #[trigger] s[i].0 == k].1,
    )
}

pub proof fn lemma_to_map_index<K, V>(s: Seq<(K, V)>, i: int)
    requires
        keys_unique(s),
        0 <= i < s.len(),
    ensures
        to_map(s).contains_key(s[i].0),
        to_map(s)[s[i].0] == s[i].1,
{
    assert(has_key(s, s[i].0));
    let j = choose|j: int| 0 <= j < s.len() && #[trigger] s[j].0 == s[i].0;
    assert(j == i);
}

pub proof fn lemma_to_map_lookup<K, V>(s: Seq<(K, V)>, k: K) -> (i: int)
    requires
        keys_unique(s),
        has_key(s, k),
    ensures
        0 <= i < s.len(),
        s[i].0 == k,
        to_map(s)[k] == s[i].1,
{
    let i = choose|i: int| 0 <= i < s.len() && #[trigger] s[i].0 == k;
    lemma_to_map_index(s, i);
    i
}

pub proof fn lemma_to_map_empty<K, V>(s: Seq<(K, V)>)
    requires
        s.len() == 0,
    ensures
        keys_unique(s),
        to_map(s) == Map::<K, V>::empty(),
{
    assert(to_map(s) =~= Map::<K, V>::empty());
}

pub proof fn lemma_to_map_push<K, V>(s: Seq<(K, V)>, k: K, v: V)
    requires
        keys_unique(s),
        !has_key(s, k),
    ensures
        keys_unique(s.push((k, v))),
        to_map(s.push((k, v))) == to_map(s).insert(k, v),
{
    let t = s.push((k, v));
    assert(keys_unique(t)) by {
        assert forall|i: int, j: int|
            0 <= i < t.len() && 0 <= j < t.len() && i != j implies #[trigger] t[i].0
            != #[trigger] t[j].0 by {
            if i < s.len() && j < s.len() {
                assert(t[i] == s[i] && t[j] == s[j]);
            } else if i < s.len() {
                assert(t[i] == s[i]);
            } else {
                assert(t[j] == s[j]);
            }
        }
    }
    assert forall|q: K| #[trigger] to_map(t).contains_key(q) <==> to_map(s).insert(k, v).contains_key(q) by {
        if has_key(t, q) {
            let i = choose|i: int| 0 <= i < t.len() && #[trigger] t[i].0 == q;
            if i < s.len() {
                assert(s[i].0 == q);
            }
        }
        if has_key(s, q) {
            let i = choose|i: int| 0 <= i < s.len() && #[trigger] s[i].0 == q;
            assert(t[i].0 == q);
        }
        if q == k {
            assert(t[s.len() as int].0 == q);
        }
    }
    assert forall|q: K| #[trigger] to_map(t).contains_key(q) implies to_map(t)[q] == to_map(s).insert(k, v)[q] by {
        let i = lemma_to_map_lookup(t, q);
        if i < s.len() {
            assert(t[i] == s[i]);
            lemma_to_map_index(s, i);
        }
    }
    assert(to_map(t) =~= to_map(s).insert(k, v));
}

pub proof fn lemma_to_map_remove<K, V>(s: Seq<(K, V)>, i: int)
    requires
        keys_unique(s),
        0 <= i < s.len(),
    ensures
        keys_unique(s.remove(i)),
        to_map(s.remove(i)) == to_map(s).remove(s[i].0),
{
    let t = s.remove(i);
    let k = s[i].0;
    assert(forall|j: int| 0 <= j < t.len() ==> #[trigger] t[j] == if j < i { s[j] } else { s[j + 1] });
    assert(keys_unique(t)) by {
        assert forall|a: int, b: int|
            0 <= a < t.len() && 0 <= b < t.len() && a != b implies #[trigger] t[a].0
            != #[trigger] t[b].0 by {
            let a2 = if a < i { a } else { a + 1 };
            let b2 = if b < i { b } else { b + 1 };
            assert(t[a] == s[a2] && t[b] == s[b2]);
        }
    }
    assert forall|q: K| #[trigger] to_map(t).contains_key(q) <==> to_map(s).remove(k).contains_key(q) by {
        if has_key(t, q) {
            let j = choose|j: int| 0 <= j < t.len() && #[trigger] t[j].0 == q;
            let j2 = if j < i { j } else { j + 1 };
            assert(s[j2].0 == q);
            assert(j2 != i);
        }
        if has_key(s, q) && q != k {
            let j = choose|j: int| 0 <= j < s.len() && #[trigger] s[j].0 == q;
            assert(j != i);
            let j2 = if j < i { j } else { j - 1 };
            assert(t[j2].0 == q);
        }
    }
    assert forall|q: K| #[trigger] to_map(t).contains_key(q) implies to_map(t)[q] == to_map(s).remove(k)[q] by {
        let j = lemma_to_map_lookup(t, q);
        let j2 = if j < i { j } else { j + 1 };
        assert(t[j] == s[j2]);
        lemma_to_map_index(s, j2);
    }
    assert(to_map(t) =~= to_map(s).remove(k));
}

pub proof fn lemma_to_map_update<K, V>(s: Seq<(K, V)>, i: int, v: V)
    requires
        keys_unique(s),
        0 <= i < s.len(),
    ensures
        keys_unique(s.update(i, (s[i].0, v))),
        to_map(s.update(i, (s[i].0, v))) == to_map(s).insert(s[i].0, v),
{
    let t = s.update(i, (s[i].0, v));
    let k = s[i].0;
    assert(keys_unique(t)) by {
        assert forall|a: int, b: int|
            0 <= a < t.len() && 0 <= b < t.len() && a != b implies #[trigger] t[a].0
            != #[trigger] t[b].0 by {
            assert(t[a].0 == s[a].0 && t[b].0 == s[b].0);
        }
    }
    assert forall|q: K| #[trigger] to_map(t).contains_key(q) <==> to_map(s).insert(k, v).contains_key(q) by {
        if has_key(t, q) {
            let j = choose|j: int| 0 <= j < t.len() && #[trigger] t[j].0 == q;
            assert(s[j].0 == q);
        }
        if has_key(s, q) {
            let j = choose|j: int| 0 <= j < s.len() && #[trigger] s[j].0 == q;
            assert(t[j].0 == q);
        }
        if q == k {
            assert(t[i].0 == q);
        }
    }
    assert forall|q: K| #[trigger] to_map(t).contains_key(q) implies to_map(t)[q] == to_map(s).insert(k, v)[q] by {
        let j = lemma_to_map_lookup(t, q);
        if j != i {
            assert(t[j] == s[j]);
            lemma_to_map_index(s, j);
        }
    }
    assert(to_map(t) =~= to_map(s).insert(k, v));
}

/// Prefixes of a key-unique sequence are key-unique, and the next element's
/// key does not occur in the prefix.
pub proof fn lemma_take_unique<K, V>(s: Seq<(K, V)>, n: int)
    requires
        keys_unique(s),
        0 <= n < s.len(),
    ensures
        keys_unique(s.take(n)),
        !has_key(s.take(n), s[n].0),
        s.take(n + 1) == s.take(n).push(s[n]),
{
    assert(keys_unique(s.take(n)));
    if has_key(s.take(n), s[n].0) {
        let j = choose|j: int| 0 <= j < n && #[trigger] s.take(n)[j].0 == s[n].0;
        assert(s[j].0 == s[n].0);
    }
    assert(s.take(n + 1) =~= s.take(n).push(s[n]));
}

/// The part of `m` whose key/value pairs satisfy `p`.
pub open spec fn map_filter<K, V>(m: Map<K, V>, p: spec_fn(K, V) -> bool) -> Map<K, V> {
    Map::new(|k: K| m.contains_key(k) && p(k, m[k]), |k: K| m[k])
}

/// One step of a filtering loop: the prefix `s.take(n)` has been filtered
/// into `out`; the next element is either appended or skipped.
pub proof fn lemma_filter_step<K, V>(s: Seq<(K, V)>, n: int, out: Seq<(K, V)>, p: spec_fn(K, V) -> bool)
    requires
        keys_unique(s),
        0 <= n < s.len(),
        keys_unique(out),
        to_map(out) == map_filter(to_map(s.take(n)), p),
    ensures
        p(s[n].0, s[n].1) ==> keys_unique(out.push(s[n])) && to_map(out.push(s[n]))
            == map_filter(to_map(s.take(n + 1)), p),
        !p(s[n].0, s[n].1) ==> to_map(out) == map_filter(to_map(s.take(n + 1)), p),
{
    lemma_take_unique(s, n);
    let k = s[n].0;
    let v = s[n].1;
    lemma_to_map_push(s.take(n), k, v);
    let before = to_map(s.take(n));
    let after = to_map(s.take(n + 1));
    assert(after == before.insert(k, v));
    if p(k, v) {
        if has_key(out, k) {
            let i = choose|i: int| 0 <= i < out.len() && #[trigger] out[i].0 == k;
            lemma_to_map_index(out, i);
            assert(to_map(out).contains_key(k));
        }
        lemma_to_map_push(out, k, v);
        assert(to_map(out.push(s[n])) =~= map_filter(after, p));
    } else {
        assert(to_map(out) =~= map_filter(after, p));
    }
}

/// A key-unique sequence denotes a finite map with as many keys as elements.
pub proof fn lemma_to_map_len<K, V>(s: Seq<(K, V)>)
    requires
        keys_unique(s),
    ensures
        to_map(s).dom().finite(),
        to_map(s).dom().len() == s.len(),
    decreases s.len(),
{
    if s.len() == 0 {
        lemma_to_map_empty(s);
    } else {
        let n = s.len() - 1;
        lemma_take_unique(s, n);
        lemma_to_map_len(s.take(n));
        lemma_to_map_push(s.take(n), s[n].0, s[n].1);
        assert(s.take(n + 1) =~= s);
        assert(!to_map(s.take(n)).contains_key(s[n].0));
    }
}

/// Position of key `k` (meaningful when `has_key(s, k)`).
pub open spec fn key_index<K, V>(s: Seq<(K, V)>, k: K) -> int {
    choose|i: int| 0 <= i < s.len() && #[trigger] s[i].0 == k
}

/// `s` with its `i`-th element moved to the front.
pub open spec fn move_to_front<K, V>(s: Seq<(K, V)>, i: int) -> Seq<(K, V)> {
    seq![s[i]] + s.remove(i)
}

pub proof fn lemma_key_index<K, V>(s: Seq<(K, V)>, k: K)
    requires
        keys_unique(s),
        has_key(s, k),
    ensures
        0 <= key_index(s, k) < s.len(),
        s[key_index(s, k)].0 == k,
        forall|j: int| 0 <= j < s.len() && #[trigger] s[j].0 == k ==> j == key_index(s, k),
{
}

/// Keys of `s.remove(i)`: those of `s` except the removed one.
pub proof fn lemma_remove_keys<K, V>(s: Seq<(K, V)>, i: int)
    requires
        keys_unique(s),
        0 <= i < s.len(),
    ensures
        keys_unique(s.remove(i)),
        forall|k: K| #[trigger] has_key(s.remove(i), k) <==> (has_key(s, k) && k != s[i].0),
{
    lemma_to_map_remove(s, i);
    assert forall|k: K| #[trigger] has_key(s.remove(i), k) <==> (has_key(s, k) && k != s[i].0) by {
        if has_key(s.remove(i), k) {
            let j = choose|j: int| 0 <= j < s.remove(i).len() && #[trigger] s.remove(i)[j].0 == k;
            let j2 = if j < i { j } else { j + 1 };
            assert(s[j2].0 == k);
        }
        if has_key(s, k) && k != s[i].0 {
            let j = choose|j: int| 0 <= j < s.len() && #[trigger] s[j].0 == k;
            let j2 = if j < i { j } else { j - 1 };
            assert(s.remove(i)[j2].0 == k);
        }
    }
}

/// Putting an element with a fresh key in front keeps keys unique.
pub proof fn lemma_prepend_unique<K, V>(s: Seq<(K, V)>, x: (K, V))
    requires
        keys_unique(s),
        !has_key(s, x.0),
    ensures
        keys_unique(seq![x] + s),
        forall|k: K| #[trigger] has_key(seq![x] + s, k) <==> (has_key(s, k) || k == x.0),
{
    let t = seq![x] + s;
    assert forall|a: int, b: int| 0 <= a < t.len() && 0 <= b < t.len() && a != b implies #[trigger] t[a].0
        != #[trigger] t[b].0 by {
        if a == 0 {
            assert(t[b] == s[b - 1]);
        } else if b == 0 {
            assert(t[a] == s[a - 1]);
        } else {
            assert(t[a] == s[a - 1] && t[b] == s[b - 1]);
        }
    }
    assert forall|k: K| #[trigger] has_key(t, k) <==> (has_key(s, k) || k == x.0) by {
        if has_key(t, k) {
            let j = choose|j: int| 0 <= j < t.len() && #[trigger] t[j].0 == k;
            if j > 0 {
                assert(s[j - 1].0 == k);
            }
        }
        if has_key(s, k) {
            let j = choose|j: int| 0 <= j < s.len() && #[trigger] s[j].0 == k;
            assert(t[j + 1].0 == k);
        }
        if k == x.0 {
            assert(t[0].0 == k);
        }
    }
}

/// Dropping the last element keeps keys unique and removes its key.
pub proof fn lemma_drop_last_keys<K, V>(s: Seq<(K, V)>)
    requires
        keys_unique(s),
        s.len() > 0,
    ensures
        keys_unique(s.drop_last()),
        forall|k: K| #[trigger] has_key(s.drop_last(), k) <==> (has_key(s, k) && k != s.last().0),
{
    assert(s.drop_last() =~= s.remove(s.len() - 1));
    lemma_remove_keys(s, s.len() - 1);
}

} // verus!
