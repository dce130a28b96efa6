//! The documents that an editing session holds open, by their identifiers.
//!
//! Every write puts a whole new state in the place of the old one, so that a
//! reader holds either the state before a change or the state after it.

use std::collections::hash_map::RandomState;
use std::sync::Arc;

use vstd::prelude::*;

use dashmap::DashMap;

use crate::document::{
    change_views, changed, opened, replaced, DocumentModel, DocumentState, TextChange,
};

verus! {

#[verifier::external_type_specification]
#[verifier::external_body]
#[verifier::reject_recursive_types(K)]
#[verifier::reject_recursive_types(V)]
#[verifier::reject_recursive_types(S)]
pub struct ExDashMap<K, V, S>(DashMap<K, V, S>);

/// The documents that a map holds: the state of each under its identifier.
pub uninterp spec fn held_documents(
    map: DashMap<String, Arc<DocumentState>, RandomState>,
) -> Map<Seq<char>, DocumentModel>;

/// `DashMap::new` of dashmap: a map that holds nothing.
#[verifier::external_body]
fn documents_new() -> (documents: DashMap<String, Arc<DocumentState>, RandomState>)
    ensures
        held_documents(documents) =~= Map::empty(),
{
    DashMap::new()
}

/// `DashMap::insert` of dashmap: puts a state under an identifier and returns
/// the state that was there before, if there was one.
#[verifier::external_body]
fn documents_insert(
    map: &mut DashMap<String, Arc<DocumentState>, RandomState>,
    uri: String,
    state: Arc<DocumentState>,
) -> (previous: Option<Arc<DocumentState>>)
    ensures
        held_documents(*final(map)) == held_documents(*old(map)).insert(uri@, (*state)@),
        previous is Some <==> held_documents(*old(map)).contains_key(uri@),
        previous matches Some(before) ==> (*before)@ == held_documents(*old(map))[uri@],
{
    map.insert(uri, state)
}

/// `DashMap::get` of dashmap: the state under an identifier, if there is
/// one. The state is shared, not copied.
#[verifier::external_body]
fn documents_get(map: &DashMap<String, Arc<DocumentState>, RandomState>, uri: &str) -> (found:
    Option<Arc<DocumentState>>)
    ensures
        found is Some <==> held_documents(*map).contains_key(uri@),
        found matches Some(state) ==> (*state)@ == held_documents(*map)[uri@],
{
    map.get(uri).map(|entry| Arc::clone(entry.value()))
}

/// `DashMap::remove` of dashmap: takes the state under an identifier out of
/// the map and returns it with its identifier, if there was one.
#[verifier::external_body]
fn documents_remove(map: &mut DashMap<String, Arc<DocumentState>, RandomState>, uri: &str) -> (taken:
    Option<(String, Arc<DocumentState>)>)
    ensures
        held_documents(*final(map)) == held_documents(*old(map)).remove(uri@),
        taken is Some <==> held_documents(*old(map)).contains_key(uri@),
        taken matches Some((key, state)) ==> key@ == uri@ && (*state)@ == held_documents(
            *old(map),
        )[uri@],
{
    map.remove(uri)
}

/// The open documents of a session.
pub struct DocumentStore {
    documents: DashMap<String, Arc<DocumentState>, RandomState>,
}

impl View for DocumentStore {
    type V = Map<Seq<char>, DocumentModel>;

    closed spec fn view(&self) -> Map<Seq<char>, DocumentModel> {
        held_documents(self.documents)
    }
}

impl DocumentStore {
    /// A store with no document open.
    pub fn new() -> (store: DocumentStore)
        ensures
            store@ == Map::<Seq<char>, DocumentModel>::empty(),
    {
        DocumentStore { documents: documents_new() }
    }

    /// Opens a document with its full text. A document that was open under
    /// the same identifier gives way to the new one.
    pub fn open(&mut self, uri: &str, text: &str)
        ensures
            final(self)@ == old(self)@.insert(uri@, opened(text@)),
    {
        let state = DocumentState::open(text);
        documents_insert(&mut self.documents, uri.to_owned(), Arc::new(state));
    }

    /// Applies a list of changes to an open document, in order, and parses
    /// its text anew. Returns whether the document was open; nothing happens
    /// to a store that does not hold it.
    pub fn change(&mut self, uri: &str, changes: &Vec<TextChange>) -> (known: bool)
        ensures
            known == old(self)@.contains_key(uri@),
            known ==> final(self)@ == old(self)@.insert(
                uri@,
                changed(old(self)@[uri@], change_views(changes@)),
            ),
            !known ==> final(self)@ == old(self)@,
    {
        match documents_get(&self.documents, uri) {
            Some(state) => {
                let next = state.apply_changes(changes);
                documents_insert(&mut self.documents, uri.to_owned(), Arc::new(next));
                true
            },
            None => false,
        }
    }

    /// Takes note that a document was saved. Where the saved text comes
    /// along, it replaces the text of the document, as a change of the whole
    /// text does. Returns whether the document was open.
    pub fn save(&mut self, uri: &str, text: Option<&str>) -> (known: bool)
        ensures
            known == old(self)@.contains_key(uri@),
            known ==> final(self)@ == match text {
                Some(saved) => old(self)@.insert(uri@, replaced(old(self)@[uri@], saved@)),
                None => old(self)@,
            },
            !known ==> final(self)@ == old(self)@,
    {
        match documents_get(&self.documents, uri) {
            Some(state) => {
                match text {
                    Some(saved) => {
                        let next = state.replace_text(saved);
                        documents_insert(&mut self.documents, uri.to_owned(), Arc::new(next));
                    },
                    None => {},
                }
                true
            },
            None => false,
        }
    }

    /// Closes a document. Returns whether it was open.
    pub fn close(&mut self, uri: &str) -> (known: bool)
        ensures
            known == old(self)@.contains_key(uri@),
            final(self)@ == old(self)@.remove(uri@),
    {
        match documents_remove(&mut self.documents, uri) {
            Some(_) => true,
            None => false,
        }
    }

    /// The state of an open document, as it stands now.
    pub fn get(&self, uri: &str) -> (found: Option<Arc<DocumentState>>)
        ensures
            found is Some <==> self@.contains_key(uri@),
            found matches Some(state) ==> (*state)@ == self@[uri@],
    {
        documents_get(&self.documents, uri)
    }
}

} // verus!
