//! Association lists, keyed by strings, seen as maps: the spec-level
//! bridge between a vector of entries and the `Map` it stands for.

use vstd::prelude::*;

verus! {

/// The map an entry list stands for; a later entry wins over an earlier
/// one, though well-formed lists never hold a key twice.
pub open spec fn amap<V>(s: Seq<(Seq<char>, V)>) -> Map<Seq<char>, V>
    decreases s.len(),
{
    if s.len() == 0 {
        Map::empty()
    } else {
        amap(s.drop_last()).insert(s.last().0, s.last().1)
    }
}

/// No key appears in two entries.
pub open spec fn keys_unique<V>(s: Seq<(Seq<char>, V)>) -> bool {
    forall|i: int, j: int| 0 <= i < j < s.len() ==> (#[trigger] s[i]).0 != (#[trigger] s[j]).0
}

/// A key is in the map exactly when some entry holds it.
pub proof fn lemma_amap_contains<V>(s: Seq<(Seq<char>, V)>, k: Seq<char>)
    ensures
        amap(s).contains_key(k) <==> exists|i: int| 0 <= i < s.len() && (#[trigger] s[i]).0 == k,
    decreases s.len(),
{
    if s.len() > 0 {
        lemma_amap_contains(s.drop_last(), k);
        if s.last().0 == k {
            assert(s[s.len() - 1].0 == k);
        } else if amap(s).contains_key(k) {
            let i = choose|i: int| 0 <= i < s.drop_last().len() && (#[trigger] s.drop_last()[i]).0 == k;
            assert(s[i].0 == k);
        } else {
            assert forall|i: int| 0 <= i < s.len() implies (#[trigger] s[i]).0 != k by {
                if i < s.len() - 1 {
                    assert(s.drop_last()[i] == s[i]);
                }
            }
        }
    }
}

/// With unique keys, the entry at `i` gives the value of its key.
pub proof fn lemma_amap_index<V>(s: Seq<(Seq<char>, V)>, i: int)
    requires
        keys_unique(s),
        0 <= i < s.len(),
    ensures
        amap(s).contains_key(s[i].0),
        amap(s)[s[i].0] == s[i].1,
    decreases s.len(),
{
    if i == s.len() - 1 {
        assert(s.last() == s[i]);
    } else {
        assert(keys_unique(s.drop_last())) by {
            assert(forall|x: int, y: int|
                0 <= x < y < s.drop_last().len() ==> (#[trigger] s.drop_last()[x]) == s[x]
                    && (#[trigger] s.drop_last()[y]) == s[y]);
        }
        lemma_amap_index(s.drop_last(), i);
        assert(s.drop_last()[i] == s[i]);
        assert(s[i].0 != s.last().0);
    }
}

/// Replacing the value of the entry at `i` updates exactly that key.
pub proof fn lemma_amap_update<V>(s: Seq<(Seq<char>, V)>, i: int, v: V)
    requires
        keys_unique(s),
        0 <= i < s.len(),
    ensures
        amap(s.update(i, (s[i].0, v))) == amap(s).insert(s[i].0, v),
        keys_unique(s.update(i, (s[i].0, v))),
    decreases s.len(),
{
    let t = s.update(i, (s[i].0, v));
    assert(keys_unique(t)) by {
        assert(forall|x: int| 0 <= x < t.len() ==> (#[trigger] t[x]).0 == s[x].0);
    }
    if i == s.len() - 1 {
        assert(t.drop_last() =~= s.drop_last());
        assert(t.last() == (s[i].0, v));
        assert(amap(t) == amap(s.drop_last()).insert(s[i].0, v));
        assert(amap(s) == amap(s.drop_last()).insert(s.last().0, s.last().1));
        assert(amap(s).insert(s[i].0, v) =~= amap(s.drop_last()).insert(s[i].0, v));
    } else {
        assert(keys_unique(s.drop_last())) by {
            assert(forall|x: int, y: int|
                0 <= x < y < s.drop_last().len() ==> (#[trigger] s.drop_last()[x]) == s[x]
                    && (#[trigger] s.drop_last()[y]) == s[y]);
        }
        lemma_amap_update(s.drop_last(), i, v);
        assert(t.drop_last() =~= s.drop_last().update(i, (s[i].0, v)));
        assert(t.last() == s.last());
        assert(s[i].0 != s.last().0);
        assert(amap(t) == amap(s.drop_last()).insert(s[i].0, v).insert(s.last().0, s.last().1));
        assert(amap(s.drop_last()).insert(s[i].0, v).insert(s.last().0, s.last().1) =~= amap(
            s.drop_last(),
        ).insert(s.last().0, s.last().1).insert(s[i].0, v));
    }
}

/// Removing the entry at `i` removes exactly that key.
pub proof fn lemma_amap_remove<V>(s: Seq<(Seq<char>, V)>, i: int)
    requires
        keys_unique(s),
        0 <= i < s.len(),
    ensures
        amap(s.remove(i)) == amap(s).remove(s[i].0),
        keys_unique(s.remove(i)),
    decreases s.len(),
{
    let t = s.remove(i);
    assert(keys_unique(t)) by {
        assert(forall|x: int|
            0 <= x < t.len() ==> (#[trigger] t[x]) == (if x < i {
                s[x]
            } else {
                s[x + 1]
            }));
    }
    if i == s.len() - 1 {
        assert(t =~= s.drop_last());
        lemma_amap_not_contains_last(s);
        assert(amap(s).remove(s[i].0) =~= amap(s.drop_last()));
    } else {
        assert(keys_unique(s.drop_last())) by {
            assert(forall|x: int, y: int|
                0 <= x < y < s.drop_last().len() ==> (#[trigger] s.drop_last()[x]) == s[x]
                    && (#[trigger] s.drop_last()[y]) == s[y]);
        }
        lemma_amap_remove(s.drop_last(), i);
        assert(t.drop_last() =~= s.drop_last().remove(i));
        assert(t.last() == s.last());
        assert(s[i].0 != s.last().0);
        assert(s.drop_last()[i] == s[i]);
        assert(amap(t) == amap(s.drop_last()).remove(s[i].0).insert(s.last().0, s.last().1));
        assert(amap(s.drop_last()).remove(s[i].0).insert(s.last().0, s.last().1) =~= amap(
            s.drop_last(),
        ).insert(s.last().0, s.last().1).remove(s[i].0));
    }
}

/// The key of the last entry is absent from the rest of a unique list.
proof fn lemma_amap_not_contains_last<V>(s: Seq<(Seq<char>, V)>)
    requires
        keys_unique(s),
        s.len() > 0,
    ensures
        !amap(s.drop_last()).contains_key(s.last().0),
{
    lemma_amap_contains(s.drop_last(), s.last().0);
    assert forall|i: int| 0 <= i < s.drop_last().len() implies (#[trigger] s.drop_last()[i]).0
        != s.last().0 by {
        assert(s.drop_last()[i] == s[i]);
        assert(s[i].0 != s[s.len() - 1].0);
    }
}

/// Appending an entry with a fresh key inserts exactly that key.
pub proof fn lemma_amap_push<V>(s: Seq<(Seq<char>, V)>, k: Seq<char>, v: V)
    requires
        keys_unique(s),
        !amap(s).contains_key(k),
    ensures
        amap(s.push((k, v))) == amap(s).insert(k, v),
        keys_unique(s.push((k, v))),
{
    assert(s.push((k, v)).drop_last() =~= s);
    assert(s.push((k, v)).last() == (k, v));
    lemma_amap_contains(s, k);
    assert(keys_unique(s.push((k, v)))) by {
        let t = s.push((k, v));
        assert(forall|x: int| 0 <= x < s.len() ==> (#[trigger] t[x]) == s[x]);
    }
}

} // verus!
