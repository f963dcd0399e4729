//! The mathematical model of a sequence of `(name, flag)` entries.
//!
//! A sequence of entries denotes the map obtained by inserting the entries in
//! order, so a later entry overrides an earlier one with the same name.

use vstd::prelude::*;

verus! {

/// The map denoted by a sequence of entries (a later entry wins).
pub open spec fn map_of_entries(e: Seq<(Seq<char>, bool)>) -> Map<Seq<char>, bool>
    decreases e.len(),
{
    if e.len() == 0 {
        Map::empty()
    } else {
        map_of_entries(e.drop_last()).insert(e.last().0, e.last().1)
    }
}

/// No two entries share a name.
pub open spec fn distinct_keys(e: Seq<(Seq<char>, bool)>) -> bool {
    forall|i: int, j: int| 0 <= i < e.len() && 0 <= j < e.len() && i != j ==> e[i].0 != e[j].0
}

/// Every entry has a non-empty name.
pub open spec fn named_keys(e: Seq<(Seq<char>, bool)>) -> bool {
    forall|i: int| 0 <= i < e.len() ==> (#[trigger] e[i]).0.len() > 0
}

/// The entries with a non-empty name, in their order.
pub open spec fn named_entries(e: Seq<(Seq<char>, bool)>) -> Seq<(Seq<char>, bool)>
    decreases e.len(),
{
    if e.len() == 0 {
        Seq::empty()
    } else if e.last().0.len() > 0 {
        named_entries(e.drop_last()).push(e.last())
    } else {
        named_entries(e.drop_last())
    }
}

/// Where every name is non-empty, no entry is dropped.
pub proof fn lemma_named_entries_all(e: Seq<(Seq<char>, bool)>)
    requires
        named_keys(e),
    ensures
        named_entries(e) == e,
    decreases e.len(),
{
    if e.len() > 0 {
        let p = e.drop_last();
        assert(e[e.len() - 1] == e.last());
        assert(named_keys(p)) by {
            assert forall|i: int| 0 <= i < p.len() implies (#[trigger] p[i]).0.len() > 0 by {
                assert(p[i] == e[i]);
            }
        }
        lemma_named_entries_all(p);
        assert(p.push(e.last()) =~= e);
    }
}

/// Some entry carries the name `k`.
pub open spec fn has_key(e: Seq<(Seq<char>, bool)>, k: Seq<char>) -> bool {
    exists|i: int| 0 <= i < e.len() && e[i].0 == k
}

/// The names that a map sends to `flag`.
pub open spec fn keys_with(m: Map<Seq<char>, bool>, flag: bool) -> Set<Seq<char>> {
    m.dom().filter(|k: Seq<char>| m[k] == flag)
}

/// A name is in the map exactly when some entry carries it.
pub proof fn lemma_entries_dom(e: Seq<(Seq<char>, bool)>, k: Seq<char>)
    ensures
        map_of_entries(e).contains_key(k) == has_key(e, k),
    decreases e.len(),
{
    if e.len() > 0 {
        let p = e.drop_last();
        lemma_entries_dom(p, k);
        if has_key(p, k) {
            let i = choose|i: int| 0 <= i < p.len() && p[i].0 == k;
            assert(e[i].0 == k);
        }
        if has_key(e, k) && e.last().0 != k {
            let i = choose|i: int| 0 <= i < e.len() && e[i].0 == k;
            assert(p[i].0 == k);
        }
    }
}

/// Every pair of the map stands among the entries.
pub proof fn lemma_entries_value(e: Seq<(Seq<char>, bool)>, k: Seq<char>)
    requires
        map_of_entries(e).contains_key(k),
    ensures
        exists|i: int| 0 <= i < e.len() && e[i] == (k, map_of_entries(e)[k]),
    decreases e.len(),
{
    let p = e.drop_last();
    if e.last().0 == k {
        assert(e[e.len() - 1] == (k, map_of_entries(e)[k]));
    } else {
        lemma_entries_value(p, k);
        let i = choose|i: int| 0 <= i < p.len() && p[i] == (k, map_of_entries(p)[k]);
        assert(e[i] == (k, map_of_entries(e)[k]));
    }
}

/// With distinct names, each entry gives the value of its name.
pub proof fn lemma_entries_distinct_value(e: Seq<(Seq<char>, bool)>, i: int)
    requires
        distinct_keys(e),
        0 <= i < e.len(),
    ensures
        map_of_entries(e).contains_key(e[i].0),
        map_of_entries(e)[e[i].0] == e[i].1,
{
    lemma_entries_dom(e, e[i].0);
    lemma_entries_value(e, e[i].0);
}

/// With distinct names, the map has one pair per entry.
pub proof fn lemma_entries_len(e: Seq<(Seq<char>, bool)>)
    requires
        distinct_keys(e),
    ensures
        map_of_entries(e).dom().finite(),
        map_of_entries(e).len() == e.len(),
    decreases e.len(),
{
    if e.len() > 0 {
        let p = e.drop_last();
        assert(distinct_keys(p));
        lemma_entries_len(p);
        lemma_entries_dom(p, e.last().0);
        if has_key(p, e.last().0) {
            let i = choose|i: int| 0 <= i < p.len() && p[i].0 == e.last().0;
            assert(e[i].0 == e[e.len() - 1].0);
        }
    }
}

/// Two sequences with the same entries, the first with distinct names,
/// denote the same map, whatever their order.
pub proof fn lemma_entries_same_set(e1: Seq<(Seq<char>, bool)>, e2: Seq<(Seq<char>, bool)>)
    requires
        distinct_keys(e1),
        e1.to_set() == e2.to_set(),
    ensures
        map_of_entries(e1) == map_of_entries(e2),
{
    let m1 = map_of_entries(e1);
    let m2 = map_of_entries(e2);
    assert forall|k: Seq<char>| #[trigger] m1.contains_key(k) == m2.contains_key(k) by {
        lemma_entries_dom(e1, k);
        lemma_entries_dom(e2, k);
        if has_key(e1, k) {
            let i = choose|i: int| 0 <= i < e1.len() && e1[i].0 == k;
            assert(e1.to_set().contains(e1[i]));
            let j = choose|j: int| 0 <= j < e2.len() && e2[j] == e1[i];
            assert(e2[j].0 == k);
        }
        if has_key(e2, k) {
            let j = choose|j: int| 0 <= j < e2.len() && e2[j].0 == k;
            assert(e2.to_set().contains(e2[j]));
            let i = choose|i: int| 0 <= i < e1.len() && e1[i] == e2[j];
            assert(e1[i].0 == k);
        }
    }
    assert forall|k: Seq<char>| m1.contains_key(k) implies #[trigger] m1[k] == m2[k] by {
        lemma_entries_value(e2, k);
        let j = choose|j: int| 0 <= j < e2.len() && e2[j] == (k, m2[k]);
        assert(e2.to_set().contains(e2[j]));
        let i = choose|i: int| 0 <= i < e1.len() && e1[i] == e2[j];
        lemma_entries_distinct_value(e1, i);
    }
    assert(m1 =~= m2);
}

} // verus!
