//! Spec-level view of an association list as a `vstd` map, with the lemmas
//! the index and the turn-slot table need.

use vstd::prelude::*;

verus! {

/// The keys of an association list, in order.
pub open spec fn assoc_keys<V>(s: Seq<(u64, V)>) -> Seq<u64> {
    s.map_values(|e: (u64, V)| e.0)
}

/// The map an association list denotes; a later entry wins over an earlier
/// one with the same key.
pub open spec fn assoc_map<V>(s: Seq<(u64, V)>) -> Map<u64, V>
    decreases s.len(),
{
    if s.len() == 0 {
        Map::empty()
    } else {
        assoc_map(s.drop_last()).insert(s.last().0, s.last().1)
    }
}

/// A key is in the map exactly when some entry carries it.
pub proof fn lemma_assoc_map_membership<V>(s: Seq<(u64, V)>)
    ensures
        forall|k: u64| assoc_map(s).contains_key(k) <==> assoc_keys(s).contains(k),
        assoc_map(s).dom().finite(),
    decreases s.len(),
{
    if s.len() == 0 {
    } else {
        lemma_assoc_map_membership(s.drop_last());
        assert(assoc_keys(s.drop_last()) =~= assoc_keys(s).drop_last());
        assert forall|k: u64| assoc_map(s).contains_key(k) <==> assoc_keys(s).contains(k) by {
            if assoc_map(s).contains_key(k) {
                if k == s.last().0 {
                    assert(assoc_keys(s)[s.len() - 1] == k);
                } else {
                    assert(assoc_map(s.drop_last()).contains_key(k));
                    assert(assoc_keys(s.drop_last()).contains(k));
                    let i = choose|i: int|
                        0 <= i < assoc_keys(s.drop_last()).len() && assoc_keys(s.drop_last())[i]
                            == k;
                    assert(assoc_keys(s)[i] == k);
                }
            }
            if assoc_keys(s).contains(k) {
                let i = choose|i: int| 0 <= i < assoc_keys(s).len() && assoc_keys(s)[i] == k;
                if i < s.len() - 1 {
                    assert(assoc_keys(s.drop_last())[i] == k);
                    assert(assoc_keys(s.drop_last()).contains(k));
                    assert(assoc_map(s.drop_last()).contains_key(k));
                } else {
                    assert(k == s.last().0);
                }
            }
        }
    }
}

/// With distinct keys, each entry's key maps to that entry's value.
pub proof fn lemma_assoc_map_values<V>(s: Seq<(u64, V)>)
    requires
        assoc_keys(s).no_duplicates(),
    ensures
        forall|i: int| 0 <= i < s.len() ==> {
            &&& assoc_map(s).contains_key((#[trigger] s[i]).0)
            &&& assoc_map(s)[s[i].0] == s[i].1
        },
    decreases s.len(),
{
    if s.len() == 0 {
    } else {
        assert(assoc_keys(s.drop_last()) =~= assoc_keys(s).drop_last());
        lemma_assoc_map_values(s.drop_last());
        assert forall|i: int| 0 <= i < s.len() implies {
            &&& assoc_map(s).contains_key((#[trigger] s[i]).0)
            &&& assoc_map(s)[s[i].0] == s[i].1
        } by {
            if i < s.len() - 1 {
                assert(assoc_keys(s)[i] == s[i].0);
                assert(assoc_keys(s)[s.len() - 1] == s.last().0);
                assert(s[i].0 != s.last().0);
                assert(s.drop_last()[i] == s[i]);
            }
        }
    }
}

/// With distinct keys, the map is exactly as large as the list.
pub proof fn lemma_assoc_map_len<V>(s: Seq<(u64, V)>)
    requires
        assoc_keys(s).no_duplicates(),
    ensures
        assoc_map(s).dom().finite(),
        assoc_map(s).len() == s.len(),
{
    lemma_assoc_map_membership(s);
    assert(assoc_map(s).dom() =~= assoc_keys(s).to_set());
    assoc_keys(s).unique_seq_to_set();
    assert(assoc_keys(s).len() == s.len());
}

/// Appending an entry inserts it into the map.
pub proof fn lemma_assoc_map_push<V>(s: Seq<(u64, V)>, e: (u64, V))
    ensures
        assoc_map(s.push(e)) == assoc_map(s).insert(e.0, e.1),
{
    assert(s.push(e).drop_last() =~= s);
    assert(s.push(e).last() == e);
}

/// Removing the entry at a position removes its key from the map, provided
/// the keys are distinct.
pub proof fn lemma_assoc_map_remove<V>(s: Seq<(u64, V)>, i: int)
    requires
        assoc_keys(s).no_duplicates(),
        0 <= i < s.len(),
    ensures
        assoc_map(s.remove(i)) == assoc_map(s).remove(s[i].0),
        assoc_keys(s.remove(i)).no_duplicates(),
    decreases s.len(),
{
    assert(assoc_keys(s.remove(i)) =~= assoc_keys(s).remove(i));
    assert(assoc_keys(s).remove(i).no_duplicates()) by {
        let keys = assoc_keys(s);
        assert forall|p: int, q: int|
            0 <= p < keys.remove(i).len() && 0 <= q < keys.remove(i).len() && p != q implies keys
            .remove(i)[p] != keys.remove(i)[q] by {
            let p0: int = if p < i { p } else { p + 1 };
            let q0: int = if q < i { q } else { q + 1 };
            assert(keys.remove(i)[p] == keys[p0]);
            assert(keys.remove(i)[q] == keys[q0]);
        }
    }
    lemma_assoc_map_membership(s.drop_last());
    if i == s.len() - 1 {
        assert(s.remove(i) =~= s.drop_last());
        assert(assoc_keys(s.drop_last()) =~= assoc_keys(s).drop_last());
        assert(!assoc_keys(s.drop_last()).contains(s.last().0)) by {
            if assoc_keys(s.drop_last()).contains(s.last().0) {
                let j = choose|j: int|
                    0 <= j < assoc_keys(s.drop_last()).len() && assoc_keys(s.drop_last())[j]
                        == s.last().0;
                assert(assoc_keys(s)[j] == s.last().0);
                assert(assoc_keys(s)[s.len() - 1] == s.last().0);
            }
        }
        assert(!assoc_map(s.drop_last()).contains_key(s.last().0));
        assert(assoc_map(s.drop_last()).insert(s.last().0, s.last().1).remove(s.last().0)
            =~= assoc_map(s.drop_last()));
    } else {
        assert(assoc_keys(s.drop_last()) =~= assoc_keys(s).drop_last());
        assert(assoc_keys(s.drop_last()).no_duplicates()) by {
            let keys = assoc_keys(s);
            assert forall|p: int, q: int|
                0 <= p < keys.drop_last().len() && 0 <= q < keys.drop_last().len() && p
                    != q implies keys.drop_last()[p] != keys.drop_last()[q] by {
                assert(keys.drop_last()[p] == keys[p]);
                assert(keys.drop_last()[q] == keys[q]);
            }
        }
        lemma_assoc_map_remove(s.drop_last(), i);
        assert(s.remove(i).drop_last() =~= s.drop_last().remove(i));
        assert(s.remove(i).last() == s.last());
        assert(s.drop_last()[i] == s[i]);
        assert(s[i].0 != s.last().0) by {
            assert(assoc_keys(s)[i] == s[i].0);
            assert(assoc_keys(s)[s.len() - 1] == s.last().0);
        }
        assert(assoc_map(s.remove(i)) == assoc_map(s.drop_last().remove(i)).insert(
            s.last().0,
            s.last().1,
        ));
        assert(assoc_map(s.drop_last()).remove(s[i].0).insert(s.last().0, s.last().1)
            =~= assoc_map(s.drop_last()).insert(s.last().0, s.last().1).remove(s[i].0));
    }
}

} // verus!
