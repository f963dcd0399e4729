//! The task store: a map from task name to its flag.
//!
//! The flag is `true` while a task is open (still to do) and `false` once it
//! is done: `add` opens a task and marking it done writes `false`.

use vstd::prelude::*;
use crate::entries::{
    distinct_keys, has_key, named_keys, keys_with, lemma_entries_distinct_value, lemma_entries_dom,
    lemma_entries_len, lemma_entries_value, map_of_entries,
};

verus! {

/// The names of a sequence of strings.
pub open spec fn names(v: Seq<String>) -> Seq<Seq<char>> {
    v.map_values(|s: String| s@)
}

/// The entries of a sequence of stored pairs, as plain values.
pub open spec fn entries_view(v: Seq<(String, bool)>) -> Seq<(Seq<char>, bool)> {
    v.map_values(|e: (String, bool)| (e.0@, e.1))
}

/// `names` holds, once each, the names that `m` sends to `flag`.
pub open spec fn lists(m: Map<Seq<char>, bool>, flag: bool, names: Seq<Seq<char>>) -> bool {
    names.no_duplicates() && names.to_set() == keys_with(m, flag)
}

/// The store `m` after adding `k`: an absent name is opened, a present one
/// keeps its flag.
pub open spec fn added(m: Map<Seq<char>, bool>, k: Seq<char>) -> Map<Seq<char>, bool> {
    if m.contains_key(k) {
        m
    } else {
        m.insert(k, true)
    }
}

/// Some entry before position `n` is `(x, flag)`.
spec fn seen(e: Seq<(Seq<char>, bool)>, n: int, x: Seq<char>, flag: bool) -> bool {
    exists|j: int| 0 <= j < n && e[j] == (x, flag)
}

/// A set of tasks, each identified by its name and carrying one flag.
pub struct TodoList {
    pub(crate) items: Vec<(String, bool)>,
}

impl View for TodoList {
    type V = Map<Seq<char>, bool>;

    open(crate) spec fn view(&self) -> Map<Seq<char>, bool> {
        map_of_entries(entries_view(self.items@))
    }
}

impl TodoList {
    /// The stored entries, as plain values.
    pub open(crate) spec fn entries(&self) -> Seq<(Seq<char>, bool)> {
        entries_view(self.items@)
    }

    /// No name is stored twice, and no name is empty.
    pub open(crate) spec fn wf(&self) -> bool {
        distinct_keys(self.entries()) && named_keys(self.entries())
    }

    /// An empty store.
    pub fn new() -> (r: TodoList)
        ensures
            r.wf(),
            r@ == Map::<Seq<char>, bool>::empty(),
    {
        let r = TodoList { items: Vec::new() };
        assert(r.entries() =~= Seq::<(Seq<char>, bool)>::empty());
        r
    }

    /// The stored entries.
    pub(crate) fn entry_list(&self) -> (r: &Vec<(String, bool)>)
        ensures
            entries_view(r@) == self.entries(),
    {
        &self.items
    }

    /// The position of the entry named `key`, if any.
    fn find(&self, key: &String) -> (r: Option<usize>)
        ensures
            match r {
                Some(i) => i < self.items@.len() && self.items@[i as int].0@ == key@,
                None => !has_key(self.entries(), key@),
            },
    {
        let mut i: usize = 0;
        while i < self.items.len()
            invariant
                i <= self.items@.len(),
                forall|j: int| 0 <= j < i ==> self.items@[j].0@ != key@,
            decreases self.items@.len() - i,
        {
            if self.items[i].0 == *key {
                return Some(i);
            }
            i = i + 1;
        }
        assert(!has_key(self.entries(), key@));
        None
    }

    /// The flag of the task named `key`, or `None` where there is none.
    pub fn get(&self, key: &str) -> (r: Option<bool>)
        requires
            self.wf(),
        ensures
            r == (if self@.contains_key(key@) { Some(self@[key@]) } else { None::<bool> }),
    {
        let k = key.to_owned();
        proof {
            lemma_entries_dom(self.entries(), key@);
        }
        match self.find(&k) {
            Some(i) => {
                proof {
                    lemma_entries_distinct_value(self.entries(), i as int);
                }
                Some(self.items[i].1)
            },
            None => None,
        }
    }

    /// The number of tasks.
    pub fn len(&self) -> (r: usize)
        requires
            self.wf(),
        ensures
            r == self@.len(),
    {
        proof {
            lemma_entries_len(self.entries());
        }
        self.items.len()
    }

    /// Whether the store holds no task.
    pub fn is_empty(&self) -> (r: bool)
        requires
            self.wf(),
        ensures
            r == (self@ == Map::<Seq<char>, bool>::empty()),
    {
        proof {
            lemma_entries_len(self.entries());
            if self.items@.len() > 0 {
                lemma_entries_distinct_value(self.entries(), 0);
                assert(!Map::<Seq<char>, bool>::empty().contains_key(self.entries()[0].0));
            }
        }
        self.items.len() == 0
    }

    /// Opens a task named `key` unless one is already there; an existing task
    /// keeps its flag.
    pub fn add(&mut self, key: String)
        requires
            old(self).wf(),
            key@.len() > 0,
        ensures
            final(self).wf(),
            final(self)@ == added(old(self)@, key@),
    {
        proof {
            lemma_entries_dom(self.entries(), key@);
        }
        match self.find(&key) {
            Some(i) => {
                assert(self.entries()[i as int].0 == key@);
            },
            None => {
                let ghost before = self.entries();
                self.items.push((key, true));
                proof {
                    let after = self.entries();
                    assert(after =~= before.push((key@, true)));
                    assert(after.drop_last() =~= before);
                    assert forall|i: int, j: int|
                        0 <= i < after.len() && 0 <= j < after.len() && i != j implies
                        #[trigger] after[i].0 != #[trigger] after[j].0 by {
                        if i == after.len() - 1 {
                            assert(before[j].0 != key@);
                        } else if j == after.len() - 1 {
                            assert(before[i].0 != key@);
                        }
                    }
                    assert forall|i: int| 0 <= i < after.len() implies (#[trigger] after[i]).0.len()
                        > 0 by {
                        if i < before.len() {
                            assert(after[i] == before[i]);
                        }
                    }
                }
            },
        }
    }

    /// Sets the flag of the task named `key` to `value`; fails with the name
    /// where there is no such task, and then changes nothing.
    pub fn mark(&mut self, key: String, value: bool) -> (r: Result<(), String>)
        requires
            old(self).wf(),
        ensures
            final(self).wf(),
            old(self)@.contains_key(key@) ==> r is Ok && final(self)@ == old(self)@.insert(
                key@,
                value,
            ),
            !old(self)@.contains_key(key@) ==> r == Err::<(), String>(key) && final(self)@
                == old(self)@,
    {
        proof {
            lemma_entries_dom(self.entries(), key@);
        }
        match self.find(&key) {
            Some(i) => {
                let ghost before = self.entries();
                let ghost old_map = self@;
                self.items.set(i, (key, value));
                proof {
                    let after = self.entries();
                    assert(after =~= before.update(i as int, (before[i as int].0, value)));
                    assert(distinct_keys(after));
                    assert forall|j: int| 0 <= j < after.len() implies (#[trigger] after[j]).0.len()
                        > 0 by {
                        if j != i {
                            assert(after[j] == before[j]);
                        }
                    }
                    let m = self@;
                    assert forall|k: Seq<char>| #[trigger]
                        m.contains_key(k) == old_map.insert(key@, value).contains_key(k) by {
                        lemma_entries_dom(after, k);
                        lemma_entries_dom(before, k);
                        if has_key(before, k) {
                            let j = choose|j: int| 0 <= j < before.len() && before[j].0 == k;
                            assert(after[j].0 == k);
                        }
                        if has_key(after, k) {
                            let j = choose|j: int| 0 <= j < after.len() && after[j].0 == k;
                            assert(before[j].0 == k);
                        }
                    }
                    assert forall|k: Seq<char>| m.contains_key(k) implies #[trigger] m[k]
                        == old_map.insert(key@, value)[k] by {
                        lemma_entries_value(after, k);
                        let j = choose|j: int| 0 <= j < after.len() && after[j] == (k, m[k]);
                        lemma_entries_distinct_value(after, j);
                        if j != i {
                            lemma_entries_distinct_value(before, j);
                        }
                    }
                    assert(m =~= old_map.insert(key@, value));
                }
                Ok(())
            },
            None => Err(key),
        }
    }

    /// The names of the open tasks and those of the done tasks, each once,
    /// in no particular order.
    pub fn list(&self) -> (r: (Vec<String>, Vec<String>))
        requires
            self.wf(),
        ensures
            lists(self@, true, names(r.0@)),
            lists(self@, false, names(r.1@)),
    {
        let mut open: Vec<String> = Vec::new();
        let mut done: Vec<String> = Vec::new();
        let ghost e = self.entries();
        let mut i: usize = 0;
        while i < self.items.len()
            invariant
                i <= self.items@.len(),
                e == self.entries(),
                distinct_keys(e),
                names(open@).no_duplicates(),
                names(done@).no_duplicates(),
                forall|x: Seq<char>| #[trigger] names(open@).contains(x) == seen(e, i as int, x, true),
                forall|x: Seq<char>| #[trigger] names(done@).contains(x) == seen(e, i as int, x, false),
            decreases self.items@.len() - i,
        {
            let name = self.items[i].0.clone();
            let ghost x = e[i as int].0;
            let ghost prev_open = names(open@);
            let ghost prev_done = names(done@);
            assert(e[i as int] == (x, self.items@[i as int].1));
            if self.items[i].1 {
                open.push(name);
                assert(names(open@) =~= prev_open.push(x));
                assert(!prev_open.contains(x));
            } else {
                done.push(name);
                assert(names(done@) =~= prev_done.push(x));
                assert(!prev_done.contains(x));
            }
            proof {
                assert forall|y: Seq<char>, f: bool| #[trigger] seen(e, i + 1, y, f) == (seen(e, i as int, y, f) || e[i as int] == (y, f)) by {
                    if seen(e, i + 1, y, f) && e[i as int] != (y, f) {
                        let j = choose|j: int| 0 <= j < i + 1 && e[j] == (y, f);
                        assert(j < i);
                    }
                }
                assert forall|y: Seq<char>| #[trigger] names(open@).contains(y) == seen(e, i + 1, y, true) by {
                    vstd::seq_lib::lemma_seq_contains_after_push(prev_open, x, y);
                    assert(seen(e, i + 1, y, true) == (seen(e, i as int, y, true) || e[i as int] == (y, true)));
                }
                assert forall|y: Seq<char>| #[trigger] names(done@).contains(y) == seen(e, i + 1, y, false) by {
                    vstd::seq_lib::lemma_seq_contains_after_push(prev_done, x, y);
                    assert(seen(e, i + 1, y, false) == (seen(e, i as int, y, false) || e[i as int] == (y, false)));
                }
            }
            i = i + 1;
        }
        proof {
            let m = self@;
            assert forall|x: Seq<char>, f: bool| m.contains_key(x) && m[x] == f <==> seen(e, e.len() as int, x, f) by {
                lemma_entries_dom(e, x);
                if m.contains_key(x) {
                    lemma_entries_value(e, x);
                }
                if seen(e, e.len() as int, x, f) {
                    let j = choose|j: int| 0 <= j < e.len() && e[j] == (x, f);
                    lemma_entries_distinct_value(e, j);
                }
            }
            assert(names(open@).to_set() =~= keys_with(m, true));
            assert(names(done@).to_set() =~= keys_with(m, false));
        }
        (open, done)
    }

    /// Sets the flag of `key` to `value`, adding the task where it is absent.
    pub(crate) fn put(&mut self, key: String, value: bool)
        requires
            old(self).wf(),
            key@.len() > 0,
        ensures
            final(self).wf(),
            final(self)@ == old(self)@.insert(key@, value),
    {
        let name = key.clone();
        self.add(key);
        let _ = self.mark(name, value);
        assert(self@ =~= old(self)@.insert(key@, value));
    }

    /// Removes every task.
    pub fn clear(&mut self)
        ensures
            final(self).wf(),
            final(self)@ == Map::<Seq<char>, bool>::empty(),
    {
        self.items.clear();
        assert(self.entries() =~= Seq::<(Seq<char>, bool)>::empty());
    }
}

} // verus!
