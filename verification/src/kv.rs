//! Key–value lists and the maps they denote.
//!
//! Both the header table and the per-method routing tables are stored as
//! vectors of entries with pairwise-distinct keys; their contracts speak of
//! the `Map` such a list denotes.

use vstd::prelude::*;

verus! {

/// The mapping a key–value list denotes; a later entry would win, though the
/// containers of this crate keep their keys distinct.
pub open spec fn assoc_map<V>(es: Seq<(Seq<char>, V)>) -> Map<Seq<char>, V>
    decreases es.len(),
{
    if es.len() == 0 {
        Map::empty()
    } else {
        assoc_map(es.drop_last()).insert(es.last().0, es.last().1)
    }
}

/// No two entries share a key.
pub open spec fn distinct_keys<V>(es: Seq<(Seq<char>, V)>) -> bool {
    forall|i: int, j: int| 0 <= i < j < es.len() ==> es[i].0 != es[j].0
}

/// A key is in the denoted map exactly when some entry carries it.
pub proof fn lemma_assoc_map_domain<V>(es: Seq<(Seq<char>, V)>)
    ensures
        forall|k: Seq<char>|
            #[trigger] assoc_map(es).contains_key(k) <==> exists|i: int|
                0 <= i < es.len() && #[trigger] es[i].0 == k,
    decreases es.len(),
{
    if es.len() > 0 {
        lemma_assoc_map_domain(es.drop_last());
        assert forall|k: Seq<char>| #[trigger] assoc_map(es).contains_key(k) implies exists|i: int|
            0 <= i < es.len() && #[trigger] es[i].0 == k by {
            if k == es.last().0 {
                assert(es[es.len() - 1].0 == k);
            } else {
                assert(assoc_map(es.drop_last()).contains_key(k));
                let i = choose|i: int| 0 <= i < es.drop_last().len() && #[trigger] es.drop_last()[i].0
                    == k;
                assert(es.drop_last()[i] == es[i]);
                assert(es[i].0 == k);
            }
        }
        assert forall|k: Seq<char>|
            exists|i: int| 0 <= i < es.len() && #[trigger] es[i].0 == k implies #[trigger] assoc_map(
            es,
        ).contains_key(k) by {
            let i = choose|i: int| 0 <= i < es.len() && #[trigger] es[i].0 == k;
            if i < es.len() - 1 {
                assert(es.drop_last()[i] == es[i]);
                assert(es.drop_last()[i].0 == k);
                assert(assoc_map(es.drop_last()).contains_key(k));
            } else {
                assert(k == es.last().0);
            }
        }
    }
}

/// With distinct keys, the entry at index `i` is what the map holds at its key.
pub proof fn lemma_assoc_map_at<V>(es: Seq<(Seq<char>, V)>, i: int)
    requires
        distinct_keys(es),
        0 <= i < es.len(),
    ensures
        assoc_map(es).contains_key(es[i].0),
        assoc_map(es)[es[i].0] == es[i].1,
    decreases es.len(),
{
    if i < es.len() - 1 {
        assert(distinct_keys(es.drop_last()));
        lemma_assoc_map_at(es.drop_last(), i);
        assert(es.drop_last()[i] == es[i]);
        assert(es[es.len() - 1].0 != es[i].0);
    }
}

/// Replacing the value at index `i` denotes an insert at that entry's key.
pub proof fn lemma_assoc_map_update<V>(es: Seq<(Seq<char>, V)>, i: int, v: V)
    requires
        distinct_keys(es),
        0 <= i < es.len(),
    ensures
        assoc_map(es.update(i, (es[i].0, v))) == assoc_map(es).insert(es[i].0, v),
        distinct_keys(es.update(i, (es[i].0, v))),
    decreases es.len(),
{
    let k = es[i].0;
    let up = es.update(i, (k, v));
    assert(distinct_keys(up));
    if i == es.len() - 1 {
        assert(up.drop_last() =~= es.drop_last());
        assert(up.last() == (k, v));
        assert(assoc_map(es.drop_last()).insert(k, es.last().1).insert(k, v) =~= assoc_map(
            es.drop_last(),
        ).insert(k, v));
    } else {
        assert(distinct_keys(es.drop_last()));
        lemma_assoc_map_update(es.drop_last(), i, v);
        assert(es.drop_last()[i] == es[i]);
        assert(up.drop_last() =~= es.drop_last().update(i, (k, v)));
        assert(up.last() == es.last());
        let lk = es.last().0;
        let lv = es.last().1;
        assert(es[es.len() - 1].0 != es[i].0);
        assert(assoc_map(es.drop_last()).insert(k, v).insert(lk, lv) =~= assoc_map(
            es.drop_last(),
        ).insert(lk, lv).insert(k, v));
    }
}

/// Appending a fresh entry denotes an insert, and keeps the keys distinct.
pub proof fn lemma_assoc_map_push<V>(es: Seq<(Seq<char>, V)>, k: Seq<char>, v: V)
    ensures
        assoc_map(es.push((k, v))) == assoc_map(es).insert(k, v),
        (distinct_keys(es) && (forall|i: int| 0 <= i < es.len() ==> #[trigger] es[i].0 != k))
            ==> distinct_keys(es.push((k, v))),
{
    assert(es.push((k, v)).drop_last() =~= es);
    assert(es.push((k, v)).last() == (k, v));
    if distinct_keys(es) && (forall|i: int| 0 <= i < es.len() ==> #[trigger] es[i].0 != k) {
        let pushed = es.push((k, v));
        assert forall|i: int, j: int| 0 <= i < j < pushed.len() implies pushed[i].0
            != pushed[j].0 by {
            if j < es.len() {
                assert(es[i].0 != es[j].0);
            } else {
                assert(es[i].0 != k);
            }
        }
    }
}

} // verus!
