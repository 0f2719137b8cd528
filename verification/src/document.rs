//! The documents that the store keeps.

use crate::ident::{is_random_id, random_id, unix_seconds};
use std::collections::HashMap;
use vstd::prelude::*;
use vstd::std_specs::hash::hash_map_deep_view_impl;

verus! {

/// A stored document. Its identity is `id`: storing another document with
/// the same `id` replaces it.
#[derive(Debug)]
pub struct ReviewDocument {
    pub id: u128,
    pub content: String,
    pub metadata: HashMap<String, String>,
    pub timestamp: u64,
}

/// What a document is, as plain mathematical values.
pub struct DocumentView {
    pub id: u128,
    pub content: Seq<char>,
    pub metadata: Map<Seq<char>, Seq<char>>,
    pub timestamp: u64,
}

impl View for ReviewDocument {
    type V = DocumentView;

    open spec fn view(&self) -> DocumentView {
        DocumentView {
            id: self.id,
            content: self.content@,
            metadata: self.metadata.deep_view(),
            timestamp: self.timestamp,
        }
    }
}

/// Two maps with the same entries have the same keys and values as text.
pub proof fn lemma_same_entries_same_text(a: HashMap<String, String>, b: HashMap<String, String>)
    requires
        a@ == b@,
    ensures
        a.deep_view() == b.deep_view(),
{
    reveal(hash_map_deep_view_impl);
    assert(a.deep_view() =~= b.deep_view());
}

impl Clone for ReviewDocument {
    fn clone(&self) -> (copy: Self)
        ensures
            copy@ == self@,
    {
        let metadata = self.metadata.clone();
        proof {
            lemma_same_entries_same_text(metadata, self.metadata);
        }
        ReviewDocument {
            id: self.id,
            content: self.content.clone(),
            metadata,
            timestamp: self.timestamp,
        }
    }
}

impl ReviewDocument {
    /// A document made of the given parts.
    pub fn from_parts(
        id: u128,
        content: String,
        metadata: HashMap<String, String>,
        timestamp: u64,
    ) -> (doc: Self)
        ensures
            doc.id == id,
            doc.content == content,
            doc.metadata == metadata,
            doc.timestamp == timestamp,
    {
        ReviewDocument { id, content, metadata, timestamp }
    }

    /// A new document with a fresh random identifier, stamped with the
    /// present time in seconds since the Unix epoch (zero where the clock
    /// stands before the epoch).
    pub fn new(content: String, metadata: HashMap<String, String>) -> (doc: Self)
        ensures
            doc.content == content,
            doc.metadata == metadata,
            is_random_id(doc.id),
    {
        let id = random_id();
        let timestamp = unix_seconds();
        Self::from_parts(id, content, metadata, timestamp)
    }
}

} // verus!
