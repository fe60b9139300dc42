use vstd::prelude::*;

verus! {

/// The map that a list of key-value pairs stands for; a later pair for a key hides an
/// earlier one.
pub open spec fn keyed_map<V>(pairs: Seq<(Seq<char>, V)>) -> Map<Seq<char>, V>
    decreases pairs.len(),
{
    if pairs.len() == 0 {
        Map::empty()
    } else {
        keyed_map(pairs.drop_last()).insert(pairs.last().0, pairs.last().1)
    }
}

/// No key occurs twice in the list.
pub open spec fn keys_distinct<V>(pairs: Seq<(Seq<char>, V)>) -> bool {
    forall|i: int, j: int| 0 <= i < j < pairs.len() ==> pairs[i].0 != pairs[j].0
}

/// The keys of the list, in list order.
pub open spec fn keys_of<V>(pairs: Seq<(Seq<char>, V)>) -> Seq<Seq<char>> {
    pairs.map_values(|p: (Seq<char>, V)| p.0)
}

/// Where pair `i` is the last one for its key, the map gives that pair's value.
pub proof fn lemma_keyed_last<V>(pairs: Seq<(Seq<char>, V)>, i: int)
    requires
        0 <= i < pairs.len(),
        forall|j: int| i < j < pairs.len() ==> pairs[j].0 != pairs[i].0,
    ensures
        keyed_map(pairs).contains_key(pairs[i].0),
        keyed_map(pairs)[pairs[i].0] == pairs[i].1,
    decreases pairs.len(),
{
    if i < pairs.len() - 1 {
        let init = pairs.drop_last();
        assert(init[i] == pairs[i]);
        lemma_keyed_last(init, i);
    }
}

/// A key that no pair holds is not in the map.
pub proof fn lemma_keyed_absent<V>(pairs: Seq<(Seq<char>, V)>, key: Seq<char>)
    requires
        forall|j: int| 0 <= j < pairs.len() ==> pairs[j].0 != key,
    ensures
        !keyed_map(pairs).contains_key(key),
    decreases pairs.len(),
{
    if pairs.len() > 0 {
        lemma_keyed_absent(pairs.drop_last(), key);
    }
}

/// The map's keys are exactly the keys of the list.
pub proof fn lemma_keyed_dom<V>(pairs: Seq<(Seq<char>, V)>)
    ensures
        keyed_map(pairs).dom() == keys_of(pairs).to_set(),
    decreases pairs.len(),
{
    if pairs.len() > 0 {
        let init = pairs.drop_last();
        lemma_keyed_dom(init);
        assert(keys_of(pairs) =~= keys_of(init).push(pairs.last().0));
        assert(keys_of(pairs).to_set() =~= keys_of(init).to_set().insert(pairs.last().0)) by {
            assert forall|k: Seq<char>| keys_of(pairs).contains(k) <==> (keys_of(init).contains(k)
                || k == pairs.last().0) by {
                if keys_of(pairs).contains(k) {
                    let j = choose|j: int| 0 <= j < keys_of(pairs).len() && keys_of(pairs)[j] == k;
                    if j < init.len() {
                        assert(keys_of(init)[j] == k);
                    }
                }
                if keys_of(init).contains(k) {
                    let j = choose|j: int| 0 <= j < keys_of(init).len() && keys_of(init)[j] == k;
                    assert(keys_of(pairs)[j] == k);
                }
                if k == pairs.last().0 {
                    assert(keys_of(pairs)[pairs.len() - 1] == k);
                }
            }
        }
        assert(keyed_map(pairs).dom() =~= keys_of(pairs).to_set());
    } else {
        assert(keys_of(pairs).to_set() =~= Set::empty());
        assert(keyed_map(pairs).dom() =~= Set::empty());
    }
}

/// Replacing the value of the last pair for a key replaces that key's value and nothing else.
pub proof fn lemma_keyed_update<V>(pairs: Seq<(Seq<char>, V)>, i: int, v: V)
    requires
        0 <= i < pairs.len(),
        forall|j: int| i < j < pairs.len() ==> pairs[j].0 != pairs[i].0,
    ensures
        keyed_map(pairs.update(i, (pairs[i].0, v))) == keyed_map(pairs).insert(pairs[i].0, v),
    decreases pairs.len(),
{
    let updated = pairs.update(i, (pairs[i].0, v));
    if i == pairs.len() - 1 {
        assert(updated.drop_last() =~= pairs.drop_last());
    } else {
        let init = pairs.drop_last();
        lemma_keyed_update(init, i, v);
        assert(updated.drop_last() =~= init.update(i, (init[i].0, v)));
    }
    assert(keyed_map(updated) =~= keyed_map(pairs).insert(pairs[i].0, v));
}

/// Dropping the only pair for a key drops that key from the map and nothing else.
pub proof fn lemma_keyed_remove<V>(pairs: Seq<(Seq<char>, V)>, i: int)
    requires
        0 <= i < pairs.len(),
        keys_distinct(pairs),
    ensures
        keyed_map(pairs.remove(i)) == keyed_map(pairs).remove(pairs[i].0),
    decreases pairs.len(),
{
    let removed = pairs.remove(i);
    let init = pairs.drop_last();
    if i == pairs.len() - 1 {
        assert(removed =~= init);
        assert forall|j: int| 0 <= j < init.len() implies init[j].0 != pairs[i].0 by {
            assert(pairs[j] == init[j]);
        }
        lemma_keyed_absent(init, pairs[i].0);
        assert(keyed_map(removed) =~= keyed_map(pairs).remove(pairs[i].0));
    } else {
        lemma_keyed_remove(init, i);
        assert(removed.drop_last() =~= init.remove(i));
        assert(removed.last() == pairs.last());
        assert(pairs.last().0 != pairs[i].0);
        assert(keyed_map(removed) =~= keyed_map(pairs).remove(pairs[i].0));
    }
}

} // verus!
