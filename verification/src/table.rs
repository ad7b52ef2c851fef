//! Lists of keys with values, read as maps.

use vstd::prelude::*;

verus! {

/// The map that a list of keys and values stands for; a later value replaces an earlier
/// one.
pub open spec fn pairs_map<K, V>(pairs: Seq<(K, V)>) -> Map<K, V>
    decreases pairs.len(),
{
    if pairs.len() == 0 {
        Map::empty()
    } else {
        pairs_map(pairs.drop_last()).insert(pairs.last().0, pairs.last().1)
    }
}

/// No key is listed twice.
pub open spec fn distinct_keys<K, V>(pairs: Seq<(K, V)>) -> bool {
    forall|i: int, j: int|
        0 <= i < j < pairs.len() ==> (#[trigger] pairs[i]).0 != (#[trigger] pairs[j]).0
}

/// The entries of a map that pass a test.
pub open spec fn entries_where<K, V>(m: Map<K, V>, keep: spec_fn(K, V) -> bool) -> Map<K, V> {
    m.restrict(Set::new(|k: K| m.contains_key(k) && keep(k, m[k])))
}

proof fn lemma_distinct_front<K, V>(pairs: Seq<(K, V)>)
    requires
        distinct_keys(pairs),
        pairs.len() > 0,
    ensures
        distinct_keys(pairs.drop_last()),
{
    let front = pairs.drop_last();
    assert forall|i: int, j: int| 0 <= i < j < front.len() implies (#[trigger] front[i]).0 != (
    #[trigger] front[j]).0 by {
        assert(pairs[i].0 != pairs[j].0);
    }
}

/// A listed key has its value in the map.
pub proof fn lemma_pairs_at<K, V>(pairs: Seq<(K, V)>, i: int)
    requires
        distinct_keys(pairs),
        0 <= i < pairs.len(),
    ensures
        pairs_map(pairs).contains_key(pairs[i].0),
        pairs_map(pairs)[pairs[i].0] == pairs[i].1,
    decreases pairs.len(),
{
    if i < pairs.len() - 1 {
        lemma_distinct_front(pairs);
        lemma_pairs_at(pairs.drop_last(), i);
        assert(pairs[i].0 != pairs[pairs.len() - 1].0);
    }
}

/// A key of the map is listed.
pub proof fn lemma_pairs_key<K, V>(pairs: Seq<(K, V)>, key: K)
    requires
        pairs_map(pairs).contains_key(key),
    ensures
        exists|i: int| 0 <= i < pairs.len() && (#[trigger] pairs[i]).0 == key,
    decreases pairs.len(),
{
    if pairs.last().0 != key {
        lemma_pairs_key(pairs.drop_last(), key);
        let i = choose|i: int|
            0 <= i < pairs.drop_last().len() && (#[trigger] pairs.drop_last()[i]).0 == key;
        assert(pairs[i].0 == key);
    } else {
        assert(pairs[pairs.len() - 1].0 == key);
    }
}

/// Adding a key that is not listed yet.
pub proof fn lemma_pairs_push<K, V>(pairs: Seq<(K, V)>, key: K, value: V)
    requires
        distinct_keys(pairs),
        forall|i: int| 0 <= i < pairs.len() ==> (#[trigger] pairs[i]).0 != key,
    ensures
        distinct_keys(pairs.push((key, value))),
        !pairs_map(pairs).contains_key(key),
        pairs_map(pairs.push((key, value))) == pairs_map(pairs).insert(key, value),
{
    let after = pairs.push((key, value));
    assert(after.drop_last() =~= pairs);
    if pairs_map(pairs).contains_key(key) {
        lemma_pairs_key(pairs, key);
    }
    assert forall|i: int, j: int| 0 <= i < j < after.len() implies (#[trigger] after[i]).0 != (
    #[trigger] after[j]).0 by {
        assert(pairs[i].0 == after[i].0);
        if j < pairs.len() {
            assert(pairs[j].0 == after[j].0);
        }
    }
}

/// Giving a listed key another value.
pub proof fn lemma_pairs_set<K, V>(pairs: Seq<(K, V)>, i: int, value: V)
    requires
        distinct_keys(pairs),
        0 <= i < pairs.len(),
    ensures
        distinct_keys(pairs.update(i, (pairs[i].0, value))),
        pairs_map(pairs.update(i, (pairs[i].0, value))) == pairs_map(pairs).insert(
            pairs[i].0,
            value,
        ),
    decreases pairs.len(),
{
    let after = pairs.update(i, (pairs[i].0, value));
    let front = pairs.drop_last();
    assert forall|a: int, b: int| 0 <= a < b < after.len() implies (#[trigger] after[a]).0 != (
    #[trigger] after[b]).0 by {
        assert(pairs[a].0 != pairs[b].0);
    }
    if i == pairs.len() - 1 {
        assert(after.drop_last() =~= front);
    } else {
        lemma_distinct_front(pairs);
        lemma_pairs_set(front, i, value);
        assert(after.drop_last() =~= front.update(i, (front[i].0, value)));
        assert(pairs[i].0 != pairs[pairs.len() - 1].0);
    }
    assert(pairs_map(after) =~= pairs_map(pairs).insert(pairs[i].0, value));
}

/// Keeping the listed entries that pass a test.
pub proof fn lemma_pairs_filter<K, V>(pairs: Seq<(K, V)>, keep: spec_fn((K, V)) -> bool)
    requires
        distinct_keys(pairs),
    ensures
        distinct_keys(pairs.filter(keep)),
        pairs_map(pairs.filter(keep)) == entries_where(pairs_map(pairs), |k: K, v: V| keep((k, v))),
    decreases pairs.len(),
{
    reveal(Seq::filter);
    let kept = pairs.filter(keep);
    let test = |k: K, v: V| keep((k, v));
    if pairs.len() == 0 {
        assert(pairs_map(kept) =~= entries_where(pairs_map(pairs), test));
    } else {
        let front = pairs.drop_last();
        let (key, value) = pairs.last();
        lemma_distinct_front(pairs);
        lemma_pairs_filter(front, keep);
        let fewer = front.filter(keep);
        assert(!pairs_map(front).contains_key(key)) by {
            if pairs_map(front).contains_key(key) {
                lemma_pairs_key(front, key);
                let i = choose|i: int| 0 <= i < front.len() && (#[trigger] front[i]).0 == key;
                assert(pairs[i].0 != pairs[pairs.len() - 1].0);
            }
        }
        if keep((key, value)) {
            assert forall|i: int| 0 <= i < fewer.len() implies (#[trigger] fewer[i]).0 != key by {
                lemma_pairs_at(fewer, i);
            }
            lemma_pairs_push(fewer, key, value);
            assert(kept == fewer.push((key, value)));
        }
        assert(pairs_map(kept) =~= entries_where(pairs_map(pairs), test));
    }
}

} // verus!
