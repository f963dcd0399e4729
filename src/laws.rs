//! Laws that relate the store's operations to one another.

use vstd::prelude::*;
use crate::entries::{keys_with, lemma_entries_len};
use crate::store::{added, lists, TodoList};

verus! {

/// After `add(k)` the task `k` is in the store.
pub proof fn law_add_makes_present(m: Map<Seq<char>, bool>, k: Seq<char>)
    ensures
        added(m, k).contains_key(k),
{
}

/// Adding the same name a second time changes nothing: neither its flag nor
/// the number of tasks.
pub proof fn law_add_idempotent(m: Map<Seq<char>, bool>, k: Seq<char>)
    ensures
        added(added(m, k), k) == added(m, k),
        added(added(m, k), k)[k] == added(m, k)[k],
        added(added(m, k), k).len() == added(m, k).len(),
{
}

/// Adding a name that is already there never overwrites its flag; in
/// particular a task marked done stays done.
pub proof fn law_add_keeps_flag(m: Map<Seq<char>, bool>, k: Seq<char>)
    requires
        m.contains_key(k),
    ensures
        added(m, k) == m,
        added(m, k)[k] == m[k],
{
}

/// Marking a present task sets its flag to exactly the value given, and of
/// two marks in a row the last one decides.
pub proof fn law_mark_last_wins(m: Map<Seq<char>, bool>, k: Seq<char>, v1: bool, v2: bool)
    requires
        m.contains_key(k),
    ensures
        m.insert(k, v1)[k] == v1,
        m.insert(k, v1).insert(k, v2) == m.insert(k, v2),
        m.insert(k, v1).insert(k, v2)[k] == v2,
{
    assert(m.insert(k, v1).insert(k, v2) =~= m.insert(k, v2));
}

/// The two name lists of `list` split the tasks: no name is in both, every
/// task is in one, and their lengths add up to the number of tasks.
pub proof fn law_list_partition(store: &TodoList, open: Seq<Seq<char>>, done: Seq<Seq<char>>)
    requires
        store.wf(),
        lists(store@, true, open),
        lists(store@, false, done),
    ensures
        open.to_set().disjoint(done.to_set()),
        open.to_set() + done.to_set() == store@.dom(),
        open.len() + done.len() == store@.len(),
{
    let m = store@;
    lemma_entries_len(store.entries());
    m.dom().lemma_len_filter(|k: Seq<char>| m[k] == true);
    m.dom().lemma_len_filter(|k: Seq<char>| m[k] == false);
    open.unique_seq_to_set();
    done.unique_seq_to_set();
    assert(open.to_set() + done.to_set() =~= m.dom());
    vstd::set_lib::lemma_set_disjoint_lens(keys_with(m, true), keys_with(m, false));
}

/// A cleared store lists no task at all.
pub proof fn law_cleared_lists_nothing(open: Seq<Seq<char>>, done: Seq<Seq<char>>)
    requires
        lists(Map::empty(), true, open),
        lists(Map::empty(), false, done),
    ensures
        open.len() == 0,
        done.len() == 0,
{
    assert(keys_with(Map::empty(), true) =~= Set::empty());
    assert(keys_with(Map::empty(), false) =~= Set::empty());
    open.unique_seq_to_set();
    done.unique_seq_to_set();
}

} // verus!
