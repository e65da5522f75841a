//! Lookup in keyed sequences.
//!
//! The stores in this crate keep their documents in insertion order and
//! address them by a unique key.  This module gives the spec-level account of
//! that scheme: `find_key` locates the first element carrying a key, and
//! `kv_map` reads an association sequence as a finite map (the first entry
//! for a key wins, which coincides with the unique entry once keys are
//! distinct).

use vstd::prelude::*;

verus! {

/// Index of the first element of `keys` equal to `k`, or -1 if there is none.
pub open spec fn find_key<K>(keys: Seq<K>, k: K) -> int
    decreases keys.len(),
{
    if keys.len() == 0 {
        -1
    } else if keys[0] == k {
        0
    } else {
        let r = find_key(keys.drop_first(), k);
        if r < 0 {
            -1
        } else {
            r + 1
        }
    }
}

/// The finite map denoted by an association sequence; the first entry for a
/// key shadows any later ones.
pub open spec fn kv_map<K, V>(s: Seq<(K, V)>) -> Map<K, V>
    decreases s.len(),
{
    if s.len() == 0 {
        Map::<K, V>::empty()
    } else {
        kv_map(s.drop_first()).insert(s[0].0, s[0].1)
    }
}

/// The keys of an association sequence, in order.
pub open spec fn keys_of<K, V>(s: Seq<(K, V)>) -> Seq<K> {
    s.map_values(|p: (K, V)| p.0)
}

/// `find_key` returns -1 exactly when the key is absent, and otherwise the
/// position of its first occurrence.
pub proof fn lemma_find_key<K>(keys: Seq<K>, k: K)
    ensures
        -1 <= find_key(keys, k) < keys.len(),
        find_key(keys, k) >= 0 ==> keys[find_key(keys, k)] == k,
        forall|j: int| 0 <= j < keys.len() && j < find_key(keys, k) ==> keys[j] != k,
        find_key(keys, k) == -1 ==> forall|j: int| 0 <= j < keys.len() ==> keys[j] != k,
    decreases keys.len(),
{
    if keys.len() > 0 && keys[0] != k {
        lemma_find_key(keys.drop_first(), k);
        assert(forall|j: int| 0 < j < keys.len() ==> keys[j] == keys.drop_first()[j - 1]);
    }
}

/// A first occurrence determines the value of `find_key`.
pub proof fn lemma_find_key_first<K>(keys: Seq<K>, k: K, i: int)
    requires
        0 <= i < keys.len(),
        keys[i] == k,
        forall|j: int| 0 <= j < i ==> keys[j] != k,
    ensures
        find_key(keys, k) == i,
    decreases keys.len(),
{
    if i > 0 {
        lemma_find_key_first(keys.drop_first(), k, i - 1);
    }
}

/// Membership and values of `kv_map`, in terms of `find_key`.
pub proof fn lemma_kv_map<K, V>(s: Seq<(K, V)>, k: K)
    ensures
        kv_map(s).contains_key(k) <==> find_key(keys_of(s), k) >= 0,
        find_key(keys_of(s), k) >= 0 ==> kv_map(s)[k] == s[find_key(keys_of(s), k)].1,
    decreases s.len(),
{
    if s.len() > 0 {
        lemma_kv_map(s.drop_first(), k);
        assert(keys_of(s).drop_first() =~= keys_of(s.drop_first()));
        lemma_find_key(keys_of(s), k);
    }
}

/// Overwriting the entry at the first occurrence of a key updates the map at
/// that key alone.
pub proof fn lemma_kv_map_update<K, V>(s: Seq<(K, V)>, i: int, v: V)
    requires
        0 <= i < s.len(),
        i == find_key(keys_of(s), s[i].0),
    ensures
        kv_map(s.update(i, (s[i].0, v))) =~= kv_map(s).insert(s[i].0, v),
    decreases s.len(),
{
    if i == 0 {
        assert(s.update(0, (s[0].0, v)).drop_first() =~= s.drop_first());
    } else {
        assert(keys_of(s).drop_first() =~= keys_of(s.drop_first()));
        lemma_kv_map_update(s.drop_first(), i - 1, v);
        assert(s.update(i, (s[i].0, v)).drop_first() =~= s.drop_first().update(
            i - 1,
            (s[i].0, v),
        ));
        assert(s.update(i, (s[i].0, v))[0] == s[0]);
        lemma_kv_map(s, s[i].0);
    }
}

/// Appending an entry for a fresh key inserts it into the map.
pub proof fn lemma_kv_map_push<K, V>(s: Seq<(K, V)>, k: K, v: V)
    requires
        find_key(keys_of(s), k) == -1,
    ensures
        kv_map(s.push((k, v))) =~= kv_map(s).insert(k, v),
    decreases s.len(),
{
    if s.len() == 0 {
        assert(s.push((k, v)).drop_first() =~= Seq::<(K, V)>::empty());
        assert(s.push((k, v))[0] == (k, v));
        assert(kv_map(s.push((k, v))) == kv_map(s.push((k, v)).drop_first()).insert(k, v));
        assert(kv_map(s.push((k, v))) =~= kv_map(s).insert(k, v));
    } else {
        assert(keys_of(s)[0] == s[0].0);
        lemma_find_key(keys_of(s), k);
        assert(keys_of(s).drop_first() =~= keys_of(s.drop_first()));
        lemma_kv_map_push(s.drop_first(), k, v);
        assert(s.push((k, v)).drop_first() =~= s.drop_first().push((k, v)));
        assert(s.push((k, v))[0] == s[0]);
        assert(kv_map(s.push((k, v))) == kv_map(s.drop_first()).insert(k, v).insert(
            s[0].0,
            s[0].1,
        ));
        assert(s[0].0 != k);
        assert(kv_map(s) == kv_map(s.drop_first()).insert(s[0].0, s[0].1));
        assert(kv_map(s.push((k, v))) =~= kv_map(s).insert(k, v));
    }
}

/// Removing the only entry for a key removes it from the map, provided the
/// keys are distinct.
pub proof fn lemma_kv_map_remove<K, V>(s: Seq<(K, V)>, i: int)
    requires
        0 <= i < s.len(),
        keys_of(s).no_duplicates(),
        i == find_key(keys_of(s), s[i].0),
    ensures
        kv_map(s.remove(i)) =~= kv_map(s).remove(s[i].0),
    decreases s.len(),
{
    if i == 0 {
        assert(s.remove(0) =~= s.drop_first());
        assert forall|j: int| 0 <= j < s.drop_first().len() implies keys_of(s.drop_first())[j]
            != s[0].0 by {
            assert(keys_of(s.drop_first())[j] == keys_of(s)[j + 1]);
            assert(keys_of(s)[0] == s[0].0);
        }
        lemma_kv_map_absent(s.drop_first(), s[0].0);
    } else {
        assert(keys_of(s).drop_first() =~= keys_of(s.drop_first()));
        lemma_kv_map_remove(s.drop_first(), i - 1);
        assert(s.remove(i).drop_first() =~= s.drop_first().remove(i - 1));
        assert(s.remove(i)[0] == s[0]);
    }
}

/// A key that does not occur is not in the map.
pub proof fn lemma_kv_map_absent<K, V>(s: Seq<(K, V)>, k: K)
    requires
        forall|j: int| 0 <= j < s.len() ==> keys_of(s)[j] != k,
    ensures
        !kv_map(s).contains_key(k),
{
    lemma_kv_map(s, k);
    lemma_find_key(keys_of(s), k);
}

/// Appending a fresh key keeps a key sequence duplicate-free.
pub proof fn lemma_no_dup_push<K>(keys: Seq<K>, k: K)
    requires
        keys.no_duplicates(),
        forall|j: int| 0 <= j < keys.len() ==> keys[j] != k,
    ensures
        keys.push(k).no_duplicates(),
{
    assert forall|x: int, y: int|
        0 <= x < keys.push(k).len() && 0 <= y < keys.push(k).len() && x != y implies keys.push(
        k,
    )[x] != keys.push(k)[y] by {
        if x < keys.len() && y < keys.len() {
            assert(keys[x] != keys[y]);
        }
    }
}

/// Removing an element keeps a key sequence duplicate-free.
pub proof fn lemma_no_dup_remove<K>(keys: Seq<K>, i: int)
    requires
        keys.no_duplicates(),
        0 <= i < keys.len(),
    ensures
        keys.remove(i).no_duplicates(),
{
    let r = keys.remove(i);
    assert forall|x: int, y: int| 0 <= x < r.len() && 0 <= y < r.len() && x != y implies r[x]
        != r[y] by {
        let xo = if x < i { x } else { x + 1 };
        let yo = if y < i { y } else { y + 1 };
        assert(r[x] == keys[xo]);
        assert(r[y] == keys[yo]);
    }
}

} // verus!
