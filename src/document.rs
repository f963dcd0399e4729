//! The persisted form of a store: a JSON object whose field `items` maps
//! each task name to its flag.

use vstd::prelude::*;
use crate::entries::{
    lemma_entries_same_set, lemma_named_entries_all, map_of_entries, named_entries, named_keys,
};
use crate::store::{entries_view, TodoList};

verus! {

/// An object of objects of flags, as plain values: a field name and the
/// entries of its object, per field.
pub type DocumentView = Seq<(Seq<char>, Seq<(Seq<char>, bool)>)>;

/// The plain value of a document.
pub open spec fn doc_view(d: Seq<(String, Vec<(String, bool)>)>) -> DocumentView {
    d.map_values(|f: (String, Vec<(String, bool)>)| (f.0@, entries_view(f.1@)))
}

/// The name of the field that holds the tasks.
pub open spec fn items_field() -> Seq<char> {
    "items"@
}

/// The document that holds the entries `e`.
pub open spec fn document_of(e: Seq<(Seq<char>, bool)>) -> DocumentView {
    seq![(items_field(), e)]
}

/// The entries of the last `items` field of a document, or none.
pub open spec fn items_of_document(d: DocumentView) -> Seq<(Seq<char>, bool)>
    decreases d.len(),
{
    if d.len() == 0 {
        Seq::empty()
    } else if d.last().0 == items_field() {
        d.last().1
    } else {
        items_of_document(d.drop_last())
    }
}

/// The store that a document describes; an entry with an empty name names
/// no task and is left out.
pub open spec fn store_of_document(d: DocumentView) -> Map<Seq<char>, bool> {
    map_of_entries(named_entries(items_of_document(d)))
}

/// The pretty-printed JSON text of a document.
pub uninterp spec fn pretty_json_of(d: DocumentView) -> Seq<char>;

/// The document that a JSON text parses to, where it parses as one.
pub uninterp spec fn json_document_of(text: Seq<char>) -> Option<DocumentView>;

#[verifier::external_type_specification]
#[verifier::external_body]
pub struct ExJsonError(serde_json::Error);

/// Relies on serde_json::to_string_pretty, applied to the document as a
/// `BTreeMap` of `BTreeMap`s: its text depends on the document alone, and it
/// does not fail, as it fails only on a map key that is not a string or on a
/// value whose own serialisation fails, and string keys and booleans are
/// neither.
#[verifier::external_body]
fn to_pretty_json(doc: &Vec<(String, Vec<(String, bool)>)>) -> (r: Result<String, serde_json::Error>)
    ensures
        r is Ok,
        r matches Ok(t) ==> t@ == pretty_json_of(doc_view(doc@)),
{
    let m: std::collections::BTreeMap<&str, std::collections::BTreeMap<&str, bool>> = doc.iter().map(
        |f| (f.0.as_str(), f.1.iter().map(|e| (e.0.as_str(), e.1)).collect()),
    ).collect();
    serde_json::to_string_pretty(&m)
}

/// Relies on serde_json::from_str, reading a `BTreeMap` of `BTreeMap`s of
/// booleans: whether it succeeds, and what it reads, depend on the text alone.
#[verifier::external_body]
fn parse_json(text: &str) -> (r: Result<Vec<(String, Vec<(String, bool)>)>, serde_json::Error>)
    ensures
        (r is Ok) == (json_document_of(text@) is Some),
        r matches Ok(d) ==> doc_view(d@) == json_document_of(text@)->Some_0,
{
    serde_json::from_str::<
        std::collections::BTreeMap<String, std::collections::BTreeMap<String, bool>>,
    >(text).map(|m| m.into_iter().map(|f| (f.0, f.1.into_iter().collect())).collect())
}

/// Why a store could not be turned into its persisted text.
#[derive(Debug, PartialEq, Eq, Structural)]
pub enum PersistError {
    /// The JSON encoder refused the document.
    Encode,
}

/// The position of the last `items` field of a document, if any; the fields
/// before it give the same entries.
fn last_items_field(doc: &Vec<(String, Vec<(String, bool)>)>) -> (r: Option<usize>)
    ensures
        match r {
            Some(k) => k < doc@.len() && doc@[k as int].0@ == items_field()
                && items_of_document(doc_view(doc@)) == items_of_document(
                doc_view(doc@).subrange(0, k + 1),
            ),
            None => items_of_document(doc_view(doc@)) == items_of_document(
                doc_view(doc@).subrange(0, 0),
            ),
        },
{
    let field = "items".to_owned();
    let ghost d = doc_view(doc@);
    let mut i: usize = doc.len();
    assert(d.subrange(0, i as int) =~= d);
    while i > 0
        invariant
            i <= doc@.len(),
            d == doc_view(doc@),
            field@ == items_field(),
            items_of_document(d) == items_of_document(d.subrange(0, i as int)),
        decreases i,
    {
        if doc[i - 1].0 == field {
            return Some(i - 1);
        }
        assert(d.subrange(0, i - 1) =~= d.subrange(0, i as int).drop_last());
        i = i - 1;
    }
    None
}

impl TodoList {
    /// The document that holds this store's tasks.
    pub fn to_document(&self) -> (r: Vec<(String, Vec<(String, bool)>)>)
        requires
            self.wf(),
        ensures
            doc_view(r@) == document_of(self.entries()),
            store_of_document(doc_view(r@)) == self@,
    {
        let items = self.entry_list();
        let mut copy: Vec<(String, bool)> = Vec::new();
        let mut i: usize = 0;
        while i < items.len()
            invariant
                i <= items@.len(),
                entries_view(copy@) == entries_view(items@).subrange(0, i as int),
            decreases items@.len() - i,
        {
            let name = items[i].0.clone();
            let ghost before = copy@;
            copy.push((name, items[i].1));
            proof {
                assert(copy@ == before.push(items@[i as int]));
                assert(entries_view(copy@) =~= entries_view(before).push(entries_view(items@)[i as int]));
                assert(entries_view(copy@) =~= entries_view(items@).subrange(0, i + 1));
            }
            i = i + 1;
        }
        assert(entries_view(copy@) =~= entries_view(items@));
        let r = vec![("items".to_owned(), copy)];
        assert(doc_view(r@) =~= document_of(self.entries()));
        proof {
            lemma_named_entries_all(self.entries());
        }
        r
    }

    /// The store that a document describes: the entries of its last `items`
    /// field that have a non-empty name, a later entry winning over an earlier
    /// one of the same name.
    pub fn from_document(doc: &Vec<(String, Vec<(String, bool)>)>) -> (r: TodoList)
        ensures
            r.wf(),
            r@ == store_of_document(doc_view(doc@)),
    {
        let ghost d = doc_view(doc@);
        let found = last_items_field(doc);
        let mut r = TodoList::new();
        if let Some(k) = found {
            let entries = &doc[k].1;
            let ghost e = entries_view(entries@);
            proof {
                assert(d.subrange(0, k + 1).last() == d[k as int]);
                assert(items_of_document(d) == e);
            }
            let mut j: usize = 0;
            while j < entries.len()
                invariant
                    j <= entries@.len(),
                    e == entries_view(entries@),
                    r.wf(),
                    r@ == map_of_entries(named_entries(e.subrange(0, j as int))),
                decreases entries@.len() - j,
            {
                assert(e.subrange(0, j + 1).drop_last() =~= e.subrange(0, j as int));
                assert(e.subrange(0, j + 1).last() == e[j as int]);
                if !entries[j].0.as_str().is_empty() {
                    let name = entries[j].0.clone();
                    r.put(name, entries[j].1);
                    assert(named_entries(e.subrange(0, j + 1)).drop_last() =~= named_entries(
                        e.subrange(0, j as int),
                    ));
                }
                j = j + 1;
            }
            assert(e.subrange(0, entries@.len() as int) =~= e);
        } else {
            assert(Seq::<(Seq<char>, Seq<(Seq<char>, bool)>)>::empty() =~= d.subrange(0, 0));
        }
        r
    }

    /// The persisted JSON text of this store.
    pub fn save(&self) -> (r: Result<String, PersistError>)
        requires
            self.wf(),
        ensures
            r is Ok,
            r matches Ok(t) ==> t@ == pretty_json_of(document_of(self.entries())),
    {
        let doc = self.to_document();
        match to_pretty_json(&doc) {
            Ok(t) => Ok(t),
            Err(_) => Err(PersistError::Encode),
        }
    }

    /// The store that a persisted JSON text describes; a text that does not
    /// parse gives an empty store.
    pub fn load(text: &str) -> (r: TodoList)
        ensures
            r.wf(),
            r@ == match json_document_of(text@) {
                Some(d) => store_of_document(d),
                None => Map::<Seq<char>, bool>::empty(),
            },
    {
        match parse_json(text) {
            Ok(doc) => TodoList::from_document(&doc),
            Err(_) => TodoList::new(),
        }
    }
}

/// The store's own document describes the store, and so does any document
/// whose `items` field holds the store's entries in another order. This is
/// the part of a save-then-load round trip that this library owns: that the
/// JSON text parses back to such a document rests on serde_json.
pub proof fn law_document_round_trip(store: &TodoList, decoded: DocumentView)
    requires
        store.wf(),
        items_of_document(decoded).to_set() == store.entries().to_set(),
    ensures
        store_of_document(document_of(store.entries())) == store@,
        store_of_document(decoded) == store@,
{
    let e = store.entries();
    let x = items_of_document(decoded);
    assert(document_of(e).last().0 == items_field());
    lemma_named_entries_all(e);
    assert(named_keys(x)) by {
        assert forall|i: int| 0 <= i < x.len() implies (#[trigger] x[i]).0.len() > 0 by {
            assert(x.to_set().contains(x[i]));
            let j = choose|j: int| 0 <= j < e.len() && e[j] == x[i];
        }
    }
    lemma_named_entries_all(x);
    lemma_entries_same_set(e, x);
}

} // verus!
