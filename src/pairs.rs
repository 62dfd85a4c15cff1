use vstd::prelude::*;

verus! {

// Association lists: a sequence of (key, value) pairs with distinct keys,
// read as the finite map they describe.

/// Builds the map of a list of (key, balance) pairs whose keys are distinct.
pub open spec fn map_of_pairs<K, V>(pairs: Seq<(K, V)>) -> Map<K, V> {
    Map::new(
        |k: K| exists|i: int| 0 <= i < pairs.len() && #[trigger] pairs[i].0 == k,
        |k: K| pairs[choose|i: int| 0 <= i < pairs.len() && #[trigger] pairs[i].0 == k].1,
    )
}

pub open spec fn keys_distinct<K, V>(pairs: Seq<(K, V)>) -> bool {
    forall|i: int, j: int|
        0 <= i < pairs.len() && 0 <= j < pairs.len() && i != j ==> #[trigger] pairs[i].0
            != #[trigger] pairs[j].0
}

pub proof fn lemma_map_of_pairs_at<K, V>(pairs: Seq<(K, V)>, i: int)
    requires
        keys_distinct(pairs),
        0 <= i < pairs.len(),
    ensures
        map_of_pairs(pairs).contains_key(pairs[i].0),
        map_of_pairs(pairs)[pairs[i].0] == pairs[i].1,
{
    let k = pairs[i].0;
    assert(exists|j: int| 0 <= j < pairs.len() && #[trigger] pairs[j].0 == k);
    let c = choose|j: int| 0 <= j < pairs.len() && #[trigger] pairs[j].0 == k;
    if c != i {
        assert(pairs[c].0 != pairs[i].0);
    }
}

pub proof fn lemma_map_of_pairs_update<K, V>(pairs: Seq<(K, V)>, i: int, v: V)
    requires
        keys_distinct(pairs),
        0 <= i < pairs.len(),
    ensures
        keys_distinct(pairs.update(i, (pairs[i].0, v))),
        map_of_pairs(pairs.update(i, (pairs[i].0, v))) == map_of_pairs(pairs).insert(
            pairs[i].0,
            v,
        ),
{
    let np = pairs.update(i, (pairs[i].0, v));
    let old_m = map_of_pairs(pairs);
    let new_m = map_of_pairs(np);
    assert forall|a: int, b: int|
        0 <= a < np.len() && 0 <= b < np.len() && a != b implies #[trigger] np[a].0
        != #[trigger] np[b].0 by {
        assert(np[a].0 == pairs[a].0);
        assert(np[b].0 == pairs[b].0);
    }
    assert forall|k: K| #[trigger] new_m.contains_key(k) <==> old_m.insert(
        pairs[i].0,
        v,
    ).contains_key(k) by {
        if new_m.contains_key(k) {
            let j = choose|j: int| 0 <= j < np.len() && #[trigger] np[j].0 == k;
            assert(pairs[j].0 == k);
        }
        if old_m.contains_key(k) {
            let j = choose|j: int| 0 <= j < pairs.len() && #[trigger] pairs[j].0 == k;
            assert(np[j].0 == k);
        }
        if k == pairs[i].0 {
            assert(np[i].0 == k);
        }
    }
    assert forall|k: K| #[trigger] new_m.contains_key(k) implies new_m[k] == old_m.insert(
        pairs[i].0,
        v,
    )[k] by {
        let j = choose|j: int| 0 <= j < np.len() && #[trigger] np[j].0 == k;
        lemma_map_of_pairs_at(np, j);
        if j != i {
            lemma_map_of_pairs_at(pairs, j);
        }
    }
    assert(new_m =~= old_m.insert(pairs[i].0, v));
}

pub proof fn lemma_map_of_pairs_push<K, V>(pairs: Seq<(K, V)>, k: K, v: V)
    requires
        keys_distinct(pairs),
        !map_of_pairs(pairs).contains_key(k),
    ensures
        keys_distinct(pairs.push((k, v))),
        map_of_pairs(pairs.push((k, v))) == map_of_pairs(pairs).insert(k, v),
{
    let np = pairs.push((k, v));
    let old_m = map_of_pairs(pairs);
    let new_m = map_of_pairs(np);
    assert forall|a: int, b: int|
        0 <= a < np.len() && 0 <= b < np.len() && a != b implies #[trigger] np[a].0
        != #[trigger] np[b].0 by {
        if a == pairs.len() {
            assert(pairs[b].0 == np[b].0);
        } else if b == pairs.len() {
            assert(pairs[a].0 == np[a].0);
        } else {
            assert(pairs[a].0 == np[a].0);
            assert(pairs[b].0 == np[b].0);
        }
    }
    assert forall|q: K| #[trigger] new_m.contains_key(q) <==> old_m.insert(
        k,
        v,
    ).contains_key(q) by {
        if new_m.contains_key(q) && q != k {
            let j = choose|j: int| 0 <= j < np.len() && #[trigger] np[j].0 == q;
            assert(pairs[j].0 == q);
        }
        if old_m.contains_key(q) {
            let j = choose|j: int| 0 <= j < pairs.len() && #[trigger] pairs[j].0 == q;
            assert(np[j].0 == q);
        }
        if q == k {
            assert(np[pairs.len() as int].0 == k);
        }
    }
    assert forall|q: K| #[trigger] new_m.contains_key(q) implies new_m[q] == old_m.insert(
        k,
        v,
    )[q] by {
        let j = choose|j: int| 0 <= j < np.len() && #[trigger] np[j].0 == q;
        lemma_map_of_pairs_at(np, j);
        if j != pairs.len() {
            lemma_map_of_pairs_at(pairs, j);
        }
    }
    assert(new_m =~= old_m.insert(k, v));
}

pub proof fn lemma_map_of_pairs_remove<K, V>(pairs: Seq<(K, V)>, i: int)
    requires
        keys_distinct(pairs),
        0 <= i < pairs.len(),
    ensures
        keys_distinct(pairs.remove(i)),
        map_of_pairs(pairs.remove(i)) == map_of_pairs(pairs).remove(pairs[i].0),
{
    let np = pairs.remove(i);
    let old_m = map_of_pairs(pairs);
    let new_m = map_of_pairs(np);
    let k = pairs[i].0;
    assert forall|a: int| 0 <= a < np.len() implies #[trigger] np[a] == pairs[if a < i {
        a
    } else {
        a + 1
    }] by {}
    assert forall|a: int, b: int|
        0 <= a < np.len() && 0 <= b < np.len() && a != b implies #[trigger] np[a].0
        != #[trigger] np[b].0 by {
        let a1 = if a < i { a } else { a + 1 };
        let b1 = if b < i { b } else { b + 1 };
        assert(np[a] == pairs[a1]);
        assert(np[b] == pairs[b1]);
    }
    assert forall|q: K| #[trigger] new_m.contains_key(q) <==> old_m.remove(k).contains_key(q) by {
        if new_m.contains_key(q) {
            let j = choose|j: int| 0 <= j < np.len() && #[trigger] np[j].0 == q;
            let j1 = if j < i { j } else { j + 1 };
            assert(np[j] == pairs[j1]);
            assert(pairs[j1].0 == q);
            assert(q != k);
        }
        if old_m.contains_key(q) && q != k {
            let j = choose|j: int| 0 <= j < pairs.len() && #[trigger] pairs[j].0 == q;
            assert(j != i);
            let j0 = if j < i { j } else { j - 1 };
            assert(np[j0] == pairs[j]);
            assert(np[j0].0 == q);
        }
    }
    assert forall|q: K| #[trigger] new_m.contains_key(q) implies new_m[q] == old_m.remove(k)[q] by {
        let j = choose|j: int| 0 <= j < np.len() && #[trigger] np[j].0 == q;
        let j1 = if j < i { j } else { j + 1 };
        assert(np[j] == pairs[j1]);
        lemma_map_of_pairs_at(np, j);
        lemma_map_of_pairs_at(pairs, j1);
    }
    assert(new_m =~= old_m.remove(k));
}

} // verus!
