//! Maps described by a sequence of key/value entries, later entries winning.
use vstd::prelude::*;

verus! {

/// The map that results from inserting the entries of `s` in order.
pub open spec fn keyed<K, V>(s: Seq<(K, V)>) -> Map<K, V>
    decreases s.len(),
{
    if s.len() == 0 {
        Map::empty()
    } else {
        keyed(s.drop_last()).insert(s.last().0, s.last().1)
    }
}

/// No two entries of `s` share a key.
pub open spec fn unique_keys<K, V>(s: Seq<(K, V)>) -> bool {
    forall|i: int, j: int| 0 <= i < s.len() && 0 <= j < s.len() && i != j ==> s[i].0 != s[j].0
}

/// Some entry of `s` has key `k`.
pub open spec fn has_key<K, V>(s: Seq<(K, V)>, k: K) -> bool {
    exists|i: int| 0 <= i < s.len() && s[i].0 == k
}

pub proof fn lemma_keyed_push<K, V>(s: Seq<(K, V)>, e: (K, V))
    ensures
        keyed(s.push(e)) == keyed(s).insert(e.0, e.1),
{
    assert(s.push(e).drop_last() =~= s);
}

/// The keys of the map are exactly the keys of the entries.
pub proof fn lemma_keyed_domain<K, V>(s: Seq<(K, V)>, k: K)
    ensures
        keyed(s).contains_key(k) <==> has_key(s, k),
    decreases s.len(),
{
    if s.len() > 0 {
        let t = s.drop_last();
        lemma_keyed_domain(t, k);
        if has_key(t, k) {
            let i = choose|i: int| 0 <= i < t.len() && t[i].0 == k;
            assert(s[i].0 == k);
        }
        if has_key(s, k) && s.last().0 != k {
            let i = choose|i: int| 0 <= i < s.len() && s[i].0 == k;
            assert(i != s.len() - 1);
            assert(t[i].0 == k);
        }
    }
}

/// With unique keys, each entry's key maps to that entry's value.
pub proof fn lemma_keyed_value<K, V>(s: Seq<(K, V)>, i: int)
    requires
        unique_keys(s),
        0 <= i < s.len(),
    ensures
        keyed(s).contains_key(s[i].0),
        keyed(s)[s[i].0] == s[i].1,
    decreases s.len(),
{
    let t = s.drop_last();
    if i < s.len() - 1 {
        assert(unique_keys(t));
        assert(t[i] == s[i]);
        lemma_keyed_value(t, i);
        assert(s.last().0 != s[i].0);
    }
}

/// With unique keys, giving an entry a new value sets that key in the map.
pub proof fn lemma_keyed_update<K, V>(s: Seq<(K, V)>, i: int, v: V)
    requires
        unique_keys(s),
        0 <= i < s.len(),
    ensures
        unique_keys(s.update(i, (s[i].0, v))),
        keyed(s.update(i, (s[i].0, v))) == keyed(s).insert(s[i].0, v),
    decreases s.len(),
{
    let u = s.update(i, (s[i].0, v));
    let t = s.drop_last();
    assert(unique_keys(u));
    if i == s.len() - 1 {
        assert(u.drop_last() =~= t);
        assert(keyed(u) =~= keyed(s).insert(s[i].0, v));
    } else {
        assert(unique_keys(t));
        lemma_keyed_update(t, i, v);
        assert(u.drop_last() =~= t.update(i, (t[i].0, v)));
        assert(s.last().0 != s[i].0);
        assert(keyed(u) =~= keyed(s).insert(s[i].0, v));
    }
}

/// Appending an entry whose key is new keeps the keys unique.
pub proof fn lemma_unique_push<K, V>(s: Seq<(K, V)>, e: (K, V))
    requires
        unique_keys(s),
        !has_key(s, e.0),
    ensures
        unique_keys(s.push(e)),
{
    let u = s.push(e);
    assert forall|i: int, j: int| 0 <= i < u.len() && 0 <= j < u.len() && i != j implies u[i].0
        != u[j].0 by {
        if i == s.len() {
            assert(s[j] == u[j]);
        } else if j == s.len() {
            assert(s[i] == u[i]);
        }
    }
}

/// Two entry lists with unique keys and the same entries, in any order,
/// describe the same map.
pub proof fn lemma_keyed_same_entries<K, V>(s: Seq<(K, V)>, t: Seq<(K, V)>)
    requires
        unique_keys(s),
        unique_keys(t),
        s.to_set() == t.to_set(),
    ensures
        keyed(s) == keyed(t),
{
    assert forall|k: K| #[trigger] keyed(s).contains_key(k) == keyed(t).contains_key(k) by {
        lemma_keyed_domain(s, k);
        lemma_keyed_domain(t, k);
        if has_key(s, k) {
            let i = choose|i: int| 0 <= i < s.len() && s[i].0 == k;
            assert(s.to_set().contains(s[i]));
            assert(t.contains(s[i]));
        }
        if has_key(t, k) {
            let j = choose|j: int| 0 <= j < t.len() && t[j].0 == k;
            assert(t.to_set().contains(t[j]));
            assert(s.contains(t[j]));
        }
    }
    assert forall|k: K| #[trigger] keyed(s).contains_key(k) implies keyed(s)[k] == keyed(t)[k] by {
        lemma_keyed_domain(s, k);
        let i = choose|i: int| 0 <= i < s.len() && s[i].0 == k;
        assert(s.to_set().contains(s[i]));
        assert(t.contains(s[i]));
        let j = choose|j: int| 0 <= j < t.len() && t[j] == s[i];
        lemma_keyed_value(s, i);
        lemma_keyed_value(t, j);
    }
    assert(keyed(s) =~= keyed(t));
}

} // verus!
