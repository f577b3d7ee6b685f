use vstd::prelude::*;

verus! {

/// The map an association list stands for: each pair inserted in turn, so
/// a later pair wins over an earlier one with the same key.
pub open spec fn assoc_map<K, V>(s: Seq<(K, V)>) -> Map<K, V>
    decreases s.len(),
{
    if s.len() == 0 {
        Map::empty()
    } else {
        assoc_map(s.drop_last()).insert(s.last().0, s.last().1)
    }
}

/// No key occurs twice.
pub open spec fn keys_unique<K, V>(s: Seq<(K, V)>) -> bool {
    forall|i: int, j: int| 0 <= i < j < s.len() ==> #[trigger] s[i].0 != #[trigger] s[j].0
}

/// The keys of an association list are the keys of its map.
pub proof fn lemma_assoc_dom<K, V>(s: Seq<(K, V)>, k: K)
    ensures
        assoc_map(s).contains_key(k) <==> exists|i: int| 0 <= i < s.len() && #[trigger] s[i].0 == k,
    decreases s.len(),
{
    if s.len() > 0 {
        lemma_assoc_dom(s.drop_last(), k);
        if assoc_map(s.drop_last()).contains_key(k) {
            let i = choose|i: int| 0 <= i < s.drop_last().len() && #[trigger] s.drop_last()[i].0 == k;
            assert(s[i].0 == k);
        }
        if exists|i: int| 0 <= i < s.len() && #[trigger] s[i].0 == k {
            let i = choose|i: int| 0 <= i < s.len() && #[trigger] s[i].0 == k;
            if i < s.len() - 1 {
                assert(s.drop_last()[i].0 == k);
            }
        }
    }
}

/// With unique keys, the map holds each pair.
pub proof fn lemma_assoc_get<K, V>(s: Seq<(K, V)>, i: int)
    requires
        keys_unique(s),
        0 <= i < s.len(),
    ensures
        assoc_map(s).contains_key(s[i].0),
        assoc_map(s)[s[i].0] == s[i].1,
    decreases s.len(),
{
    if i < s.len() - 1 {
        assert(s.drop_last()[i] == s[i]);
        assert forall|a: int, b: int| 0 <= a < b < s.drop_last().len() implies #[trigger] s.drop_last()[a].0
            != #[trigger] s.drop_last()[b].0 by {
            assert(s.drop_last()[a] == s[a]);
            assert(s.drop_last()[b] == s[b]);
        }
        lemma_assoc_get(s.drop_last(), i);
        assert(s[i].0 != s.last().0);
    }
}

/// Pushing a pair inserts it.
pub proof fn lemma_assoc_push<K, V>(s: Seq<(K, V)>, k: K, v: V)
    ensures
        assoc_map(s.push((k, v))) == assoc_map(s).insert(k, v),
{
    assert(s.push((k, v)).drop_last() =~= s);
}

/// Replacing the value of a present key with unique keys updates the map.
pub proof fn lemma_assoc_update<K, V>(s: Seq<(K, V)>, j: int, v: V)
    requires
        keys_unique(s),
        0 <= j < s.len(),
    ensures
        keys_unique(s.update(j, (s[j].0, v))),
        assoc_map(s.update(j, (s[j].0, v))) == assoc_map(s).insert(s[j].0, v),
    decreases s.len(),
{
    let t = s.update(j, (s[j].0, v));
    assert forall|a: int, b: int| 0 <= a < b < t.len() implies #[trigger] t[a].0 != #[trigger] t[b].0 by {
        assert(t[a].0 == s[a].0);
        assert(t[b].0 == s[b].0);
    }
    let k = s[j].0;
    if j == s.len() - 1 {
        assert(t.drop_last() =~= s.drop_last());
        assert(assoc_map(t) =~= assoc_map(s).insert(k, v));
    } else {
        let d = s.drop_last();
        assert forall|a: int, b: int| 0 <= a < b < d.len() implies #[trigger] d[a].0 != #[trigger] d[b].0 by {
            assert(d[a] == s[a]);
            assert(d[b] == s[b]);
        }
        assert(d[j] == s[j]);
        lemma_assoc_update(d, j, v);
        assert(t.drop_last() =~= d.update(j, (k, v)));
        assert(t.last() == s.last());
        assert(s.last().0 != k);
        assert(assoc_map(t) =~= assoc_map(s).insert(k, v));
    }
}

/// Inserting a pair with a fresh key anywhere inserts it into the map.
pub proof fn lemma_assoc_insert<K, V>(s: Seq<(K, V)>, j: int, k: K, v: V)
    requires
        keys_unique(s),
        0 <= j <= s.len(),
        forall|i: int| 0 <= i < s.len() ==> #[trigger] s[i].0 != k,
    ensures
        keys_unique(s.insert(j, (k, v))),
        assoc_map(s.insert(j, (k, v))) == assoc_map(s).insert(k, v),
    decreases s.len(),
{
    let t = s.insert(j, (k, v));
    assert forall|a: int, b: int| 0 <= a < b < t.len() implies #[trigger] t[a].0 != #[trigger] t[b].0 by {
        if a < j {
            assert(t[a] == s[a]);
        } else if a > j {
            assert(t[a] == s[a - 1]);
        }
        if b < j {
            assert(t[b] == s[b]);
        } else if b > j {
            assert(t[b] == s[b - 1]);
        }
    }
    if j == s.len() {
        assert(t =~= s.push((k, v)));
        lemma_assoc_push(s, k, v);
    } else {
        let d = s.drop_last();
        assert forall|a: int, b: int| 0 <= a < b < d.len() implies #[trigger] d[a].0 != #[trigger] d[b].0 by {
            assert(d[a] == s[a]);
            assert(d[b] == s[b]);
        }
        assert forall|i: int| 0 <= i < d.len() implies #[trigger] d[i].0 != k by {
            assert(d[i] == s[i]);
        }
        lemma_assoc_insert(d, j, k, v);
        assert(t.drop_last() =~= d.insert(j, (k, v)));
        assert(t.last() == s.last());
        assert(s.last().0 != k);
        assert(assoc_map(t) =~= assoc_map(s).insert(k, v));
    }
}

/// Removing the pair at `j` with unique keys removes its key from the map.
pub proof fn lemma_assoc_remove<K, V>(s: Seq<(K, V)>, j: int)
    requires
        keys_unique(s),
        0 <= j < s.len(),
    ensures
        keys_unique(s.remove(j)),
        assoc_map(s.remove(j)) == assoc_map(s).remove(s[j].0),
    decreases s.len(),
{
    let t = s.remove(j);
    let k = s[j].0;
    assert forall|a: int, b: int| 0 <= a < b < t.len() implies #[trigger] t[a].0 != #[trigger] t[b].0 by {
        if a < j {
            assert(t[a] == s[a]);
        } else {
            assert(t[a] == s[a + 1]);
        }
        if b < j {
            assert(t[b] == s[b]);
        } else {
            assert(t[b] == s[b + 1]);
        }
    }
    if j == s.len() - 1 {
        assert(t =~= s.drop_last());
        assert forall|i: int| 0 <= i < t.len() implies #[trigger] t[i].0 != k by {
            assert(t[i] == s[i]);
        }
        lemma_assoc_dom(t, k);
        assert(assoc_map(t) =~= assoc_map(s).remove(k));
    } else {
        let d = s.drop_last();
        assert forall|a: int, b: int| 0 <= a < b < d.len() implies #[trigger] d[a].0 != #[trigger] d[b].0 by {
            assert(d[a] == s[a]);
            assert(d[b] == s[b]);
        }
        assert(d[j] == s[j]);
        lemma_assoc_remove(d, j);
        assert(t.drop_last() =~= d.remove(j));
        assert(t.last() == s.last());
        assert(s.last().0 != k);
        assert(assoc_map(t) =~= assoc_map(s).remove(k));
    }
}

} // verus!
