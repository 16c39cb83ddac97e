//! The finite-map model of a string-keyed association list, shared by the
//! configuration store and the game registry. The exec containers keep a
//! `Vec` of pairs with pairwise-distinct keys; their contracts speak of the
//! `Map` that the list denotes.

use vstd::prelude::*;

verus! {

/// Whether the keys of an association list are pairwise distinct.
pub open spec fn keys_distinct<T>(pairs: Seq<(String, T)>) -> bool {
    forall|i: int, j: int|
        0 <= i < j < pairs.len() ==> (#[trigger] pairs[i]).0@ != (#[trigger] pairs[j]).0@
}

/// The finite map denoted by an association list; a later pair with the
/// same key overrides an earlier one.
pub open spec fn as_map<T: View>(pairs: Seq<(String, T)>) -> Map<Seq<char>, T::V>
    decreases pairs.len(),
{
    if pairs.len() == 0 {
        Map::empty()
    } else {
        as_map(pairs.drop_last()).insert(pairs.last().0@, pairs.last().1@)
    }
}

/// A key is in the denoted map exactly when some pair carries it.
pub proof fn lemma_as_map_dom<T: View>(pairs: Seq<(String, T)>)
    ensures
        forall|k: Seq<char>|
            #[trigger] as_map(pairs).dom().contains(k) <==> (exists|i: int|
                0 <= i < pairs.len() && (#[trigger] pairs[i]).0@ == k),
    decreases pairs.len(),
{
    if pairs.len() > 0 {
        let dl = pairs.drop_last();
        lemma_as_map_dom(dl);
        assert forall|k: Seq<char>|
            #[trigger] as_map(pairs).dom().contains(k) <==> (exists|i: int|
                0 <= i < pairs.len() && (#[trigger] pairs[i]).0@ == k) by {
            if as_map(pairs).dom().contains(k) {
                if k == pairs.last().0@ {
                    assert((pairs[pairs.len() - 1]).0@ == k);
                } else {
                    assert(as_map(pairs) == as_map(dl).insert(pairs.last().0@, pairs.last().1@));
                    assert(as_map(dl).dom().contains(k));
                    let i = choose|i: int| 0 <= i < dl.len() && (#[trigger] dl[i]).0@ == k;
                    assert(0 <= i < dl.len());
                    assert(dl[i] == pairs[i]);
                    assert((pairs[i]).0@ == k);
                }
            }
            if exists|i: int| 0 <= i < pairs.len() && (#[trigger] pairs[i]).0@ == k {
                let i = choose|i: int| 0 <= i < pairs.len() && (#[trigger] pairs[i]).0@ == k;
                if i == pairs.len() - 1 {
                    assert(as_map(pairs).dom().contains(k));
                } else {
                    assert(dl[i] == pairs[i]);
                    assert(as_map(dl).dom().contains(k));
                }
            }
        }
    }
}

/// Under distinct keys, the denoted map sends each pair's key to its value.
pub proof fn lemma_as_map_get<T: View>(pairs: Seq<(String, T)>, i: int)
    requires
        keys_distinct(pairs),
        0 <= i < pairs.len(),
    ensures
        as_map(pairs).dom().contains(pairs[i].0@),
        as_map(pairs)[pairs[i].0@] == pairs[i].1@,
    decreases pairs.len(),
{
    let dl = pairs.drop_last();
    if i == pairs.len() - 1 {
    } else {
        assert(keys_distinct(dl)) by {
            assert(forall|a: int, b: int|
                0 <= a < b < dl.len() ==> dl[a] == pairs[a] && dl[b] == pairs[b]);
        }
        assert(dl[i] == pairs[i]);
        lemma_as_map_get(dl, i);
        assert(pairs[i].0@ != pairs.last().0@);
    }
}

/// Removing the pair at `i` removes exactly its key from the denoted map.
pub proof fn lemma_as_map_remove<T: View>(pairs: Seq<(String, T)>, i: int)
    requires
        keys_distinct(pairs),
        0 <= i < pairs.len(),
    ensures
        as_map(pairs.remove(i)) == as_map(pairs).remove(pairs[i].0@),
        keys_distinct(pairs.remove(i)),
        forall|j: int|
            0 <= j < pairs.remove(i).len() ==> (#[trigger] pairs.remove(i)[j]).0@ != pairs[i].0@,
    decreases pairs.len(),
{
    let r = pairs.remove(i);
    let k = pairs[i].0@;
    assert(keys_distinct(r)) by {
        assert(forall|j: int|
            0 <= j < r.len() ==> r[j] == (if j < i {
                pairs[j]
            } else {
                pairs[j + 1]
            }));
    }
    assert(forall|j: int| 0 <= j < r.len() ==> (#[trigger] r[j]).0@ != k) by {
        assert(forall|j: int|
            0 <= j < r.len() ==> r[j] == (if j < i {
                pairs[j]
            } else {
                pairs[j + 1]
            }));
    }
    if i == pairs.len() - 1 {
        assert(r =~= pairs.drop_last());
        lemma_as_map_dom(pairs.drop_last());
        assert(!as_map(pairs.drop_last()).dom().contains(k)) by {
            if as_map(pairs.drop_last()).dom().contains(k) {
                let j = choose|j: int|
                    0 <= j < pairs.drop_last().len() && (#[trigger] pairs.drop_last()[j]).0@ == k;
                assert(pairs.drop_last()[j] == pairs[j]);
            }
        }
        assert(as_map(r) =~= as_map(pairs).remove(k));
    } else {
        let dl = pairs.drop_last();
        assert(keys_distinct(dl)) by {
            assert(forall|a: int, b: int|
                0 <= a < b < dl.len() ==> dl[a] == pairs[a] && dl[b] == pairs[b]);
        }
        assert(dl[i] == pairs[i]);
        lemma_as_map_remove(dl, i);
        assert(r.drop_last() =~= dl.remove(i));
        assert(r.last() == pairs.last());
        assert(as_map(r) == as_map(dl.remove(i)).insert(pairs.last().0@, pairs.last().1@));
        assert(pairs.last().0@ != k);
        assert(as_map(r) =~= as_map(pairs).remove(k));
    }
}

/// Appending a pair inserts its key into the denoted map, and keeps the
/// keys distinct when the key is fresh.
pub proof fn lemma_as_map_push<T: View>(pairs: Seq<(String, T)>, p: (String, T))
    requires
        forall|j: int| 0 <= j < pairs.len() ==> (#[trigger] pairs[j]).0@ != p.0@,
        keys_distinct(pairs),
    ensures
        as_map(pairs.push(p)) == as_map(pairs).insert(p.0@, p.1@),
        keys_distinct(pairs.push(p)),
{
    let q = pairs.push(p);
    assert(q.drop_last() =~= pairs);
    assert(q.last() == p);
    assert(keys_distinct(q)) by {
        assert(forall|j: int| 0 <= j < pairs.len() ==> q[j] == pairs[j]);
    }
}

} // verus!
