//! Named collections of document identifiers.

use crate::ident::{is_random_id, random_id, unix_seconds};
use vstd::prelude::*;

verus! {

/// A named, ordered collection of document identifiers in which no
/// identifier stands twice.
#[derive(Debug)]
pub struct Index {
    pub id: u128,
    pub name: String,
    pub documents: Vec<u128>,
    pub created_at: u64,
}

/// What an index is, as plain mathematical values.
pub struct IndexView {
    pub id: u128,
    pub name: Seq<char>,
    pub documents: Seq<u128>,
    pub created_at: u64,
}

impl IndexView {
    /// No identifier stands twice among the documents.
    pub open spec fn wf(self) -> bool {
        self.documents.no_duplicates()
    }
}

impl View for Index {
    type V = IndexView;

    open spec fn view(&self) -> IndexView {
        IndexView {
            id: self.id,
            name: self.name@,
            documents: self.documents@,
            created_at: self.created_at,
        }
    }
}

/// The documents of an index after `doc_id` was added: unchanged where it
/// already stands among them, else with `doc_id` at the end.
pub open spec fn with_document(documents: Seq<u128>, doc_id: u128) -> Seq<u128> {
    if documents.contains(doc_id) {
        documents
    } else {
        documents.push(doc_id)
    }
}

/// Adding keeps the documents free of duplicates and makes the added one a
/// member.
pub proof fn lemma_with_document_is_set_like(documents: Seq<u128>, doc_id: u128)
    requires
        documents.no_duplicates(),
    ensures
        with_document(documents, doc_id).no_duplicates(),
        with_document(documents, doc_id).contains(doc_id),
        forall|other: u128|
            with_document(documents, doc_id).contains(other) <==> (other == doc_id
                || documents.contains(other)),
{
    let after = with_document(documents, doc_id);
    if documents.contains(doc_id) {
    } else {
        assert(after.last() == doc_id);
        assert forall|i: int, j: int| 0 <= i < after.len() && 0 <= j < after.len() && i != j implies after[i]
            != after[j] by {
            if i < documents.len() {
                assert(documents.contains(after[i]));
            }
            if j < documents.len() {
                assert(documents.contains(after[j]));
            }
        }
        assert forall|other: u128| after.contains(other) implies (other == doc_id
            || documents.contains(other)) by {
            let i = choose|i: int| 0 <= i < after.len() && after[i] == other;
            if i < documents.len() {
                assert(documents[i] == other);
            }
        }
        assert forall|other: u128| documents.contains(other) implies after.contains(other) by {
            let i = choose|i: int| 0 <= i < documents.len() && documents[i] == other;
            assert(after[i] == other);
        }
    }
}

/// Adding the same identifier a second time changes nothing: the length
/// stays, and the identifier stands among the documents exactly once.
pub proof fn lemma_add_document_idempotent(documents: Seq<u128>, doc_id: u128)
    requires
        documents.no_duplicates(),
    ensures
        with_document(with_document(documents, doc_id), doc_id) == with_document(
            documents,
            doc_id,
        ),
        with_document(with_document(documents, doc_id), doc_id).len() == with_document(
            documents,
            doc_id,
        ).len(),
        with_document(documents, doc_id).filter(|d: u128| d == doc_id).len() == 1,
{
    let once = with_document(documents, doc_id);
    lemma_with_document_is_set_like(documents, doc_id);
    lemma_single_copy(once, doc_id);
}

/// In a sequence without duplicates a member stands exactly once.
pub proof fn lemma_single_copy(documents: Seq<u128>, doc_id: u128)
    requires
        documents.no_duplicates(),
        documents.contains(doc_id),
    ensures
        documents.filter(|d: u128| d == doc_id).len() == 1,
    decreases documents.len(),
{
    let is_it = |d: u128| d == doc_id;
    reveal(Seq::filter);
    if documents.last() == doc_id {
        let front = documents.drop_last();
        assert(!front.contains(doc_id)) by {
            if front.contains(doc_id) {
                let i = choose|i: int| 0 <= i < front.len() && front[i] == doc_id;
                assert(documents[i] == documents[documents.len() - 1]);
            }
        }
        lemma_no_copy(front, doc_id);
    } else {
        let front = documents.drop_last();
        let i = choose|i: int| 0 <= i < documents.len() && documents[i] == doc_id;
        assert(front[i] == doc_id);
        lemma_single_copy(front, doc_id);
    }
}

/// What is no member stands zero times.
pub proof fn lemma_no_copy(documents: Seq<u128>, doc_id: u128)
    requires
        !documents.contains(doc_id),
    ensures
        documents.filter(|d: u128| d == doc_id).len() == 0,
    decreases documents.len(),
{
    reveal(Seq::filter);
    if documents.len() > 0 {
        let front = documents.drop_last();
        assert(documents[documents.len() - 1] != doc_id);
        assert(!front.contains(doc_id)) by {
            if front.contains(doc_id) {
                let i = choose|i: int| 0 <= i < front.len() && front[i] == doc_id;
                assert(documents[i] == doc_id);
            }
        }
        lemma_no_copy(front, doc_id);
    }
}

impl Clone for Index {
    fn clone(&self) -> (copy: Self)
        ensures
            copy@ == self@,
    {
        Index {
            id: self.id,
            name: self.name.clone(),
            documents: self.documents.clone(),
            created_at: self.created_at,
        }
    }
}

impl Index {
    /// An index made of the given parts.
    pub fn from_parts(id: u128, name: String, documents: Vec<u128>, created_at: u64) -> (index:
        Self)
        ensures
            index.id == id,
            index.name == name,
            index.documents == documents,
            index.created_at == created_at,
    {
        Index { id, name, documents, created_at }
    }

    /// A new, empty index with a fresh random identifier, stamped with the
    /// present time in seconds since the Unix epoch (zero where the clock
    /// stands before the epoch).
    pub fn new(name: String) -> (index: Self)
        ensures
            index.name == name,
            index.documents@ == Seq::<u128>::empty(),
            index@.wf(),
            is_random_id(index.id),
    {
        let id = random_id();
        let created_at = unix_seconds();
        Self::from_parts(id, name, Vec::new(), created_at)
    }

    /// Whether `doc_id` stands among the documents.
    pub fn contains_document(&self, doc_id: u128) -> (found: bool)
        ensures
            found == self.documents@.contains(doc_id),
    {
        let mut i: usize = 0;
        while i < self.documents.len()
            invariant
                i <= self.documents@.len(),
                forall|j: int| 0 <= j < i ==> self.documents@[j] != doc_id,
            decreases self.documents@.len() - i,
        {
            if self.documents[i] == doc_id {
                return true;
            }
            i += 1;
        }
        false
    }

    /// Adds `doc_id` at the end of the documents, unless it is there already.
    pub fn add_document(&mut self, doc_id: u128)
        ensures
            final(self).documents@ == with_document(old(self).documents@, doc_id),
            final(self).id == old(self).id,
            final(self).name == old(self).name,
            final(self).created_at == old(self).created_at,
            old(self)@.wf() ==> final(self)@.wf(),
    {
        proof {
            if self@.wf() {
                lemma_with_document_is_set_like(self.documents@, doc_id);
            }
        }
        if !self.contains_document(doc_id) {
            self.documents.push(doc_id);
        }
    }
}

} // verus!
