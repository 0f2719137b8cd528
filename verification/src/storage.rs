//! The storage engine: the live documents and indices in memory, and the log
//! that they are the replay of. Every mutation is logged first and applied
//! after; a mutation that cannot be logged changes nothing.

use crate::codec::{decoded_entry, encode_entry, loggable, EntryView, WalEntry};
use crate::document::{DocumentView, ReviewDocument};
use crate::error::StorageError;
use crate::framing::{complete_len, frame, is_whole};
use crate::index::{Index, IndexView};
use crate::model::{
    appended, apply_entry, empty_store, found, found_index, keyed_by_id, lemma_appended_entries,
    lemma_recovered_keyed_by_id, lemma_trimmed_log_recovers, listed, log_entries, recovered,
    removed, replay, stored, stored_index, StoreView,
};
use crate::wal::{entry_views, LogView, WriteAheadLog};
use std::collections::HashMap;
use vstd::prelude::*;
use vstd::std_specs::hash::{group_hash_axioms, spec_keys_iter};
use vstd::std_specs::iter::IteratorSpec;

verus! {

broadcast use group_hash_axioms;

/// The view of a document that may be absent.
pub open spec fn document_option_view(doc: Option<ReviewDocument>) -> Option<DocumentView> {
    match doc {
        Some(d) => Some(d@),
        None => None,
    }
}

/// The view of an index that may be absent.
pub open spec fn index_option_view(index: Option<Index>) -> Option<IndexView> {
    match index {
        Some(i) => Some(i@),
        None => None,
    }
}

/// The documents of a map, as mathematical values.
pub open spec fn document_views(documents: Map<u128, ReviewDocument>) -> Map<u128, DocumentView> {
    documents.map_values(|d: ReviewDocument| d@)
}

/// The indices of a map, as mathematical values.
pub open spec fn index_views(indices: Map<u128, Index>) -> Map<u128, IndexView> {
    indices.map_values(|i: Index| i@)
}

/// Whether `listing` holds the indices of `indices`, each once and as it
/// stands there, in any order.
pub open spec fn lists_indices(listing: Seq<Index>, indices: Map<u128, IndexView>) -> bool {
    &&& listing.len() == indices.dom().len()
    &&& forall|i: int|
        0 <= i < listing.len() ==> indices.contains_key((#[trigger] listing[i]).id)
            && indices[listing[i].id] == listing[i]@
    &&& forall|i: int, j: int|
        0 <= i < listing.len() && 0 <= j < listing.len() && i != j ==> (#[trigger] listing[i]).id
            != (#[trigger] listing[j]).id
}

/// The keys of a map, each once, in the order in which the map hands them
/// out.
pub fn keys_of<V>(map: &HashMap<u128, V>) -> (ids: Vec<u128>)
    ensures
        ids@.no_duplicates(),
        ids@.to_set() == map@.dom(),
        ids@.len() == map@.dom().len(),
{
    let ghost all = spec_keys_iter(map).remaining();
    let mut ids: Vec<u128> = Vec::new();
    for id in it: map.keys()
        invariant
            it.seq() == all,
            ids@ == all.take(it.index()).unref(),
    {
        ids.push(*id);
        assert(ids@ =~= all.take(it.index() + 1).unref());
    }
    proof {
        assert(ids@ =~= all.unref());
        assert forall|i: int, j: int| 0 <= i < ids@.len() && 0 <= j < ids@.len() && i != j implies ids@[i]
            != ids@[j] by {
            assert(all[i] != all[j]);
        }
    }
    ids
}

/// A store of documents by identifier.
pub trait StorageEngine {
    /// Whether the engine is in a state that its own operations leave it in.
    spec fn valid(&self) -> bool;

    /// The live documents.
    spec fn live_documents(&self) -> Map<u128, DocumentView>;

    /// Stores `doc` under its identifier, in place of any document that
    /// stood there. On failure nothing has changed.
    fn store_document(&mut self, doc: &ReviewDocument) -> (r: Result<(), StorageError>)
        requires
            old(self).valid(),
        ensures
            final(self).valid(),
            r is Ok ==> final(self).live_documents() == stored(
                old(self).live_documents(),
                doc@,
            ),
            r is Err ==> final(self).live_documents() == old(self).live_documents(),
    ;

    /// The document under `id`, or none. Never fails.
    fn get_document(&self, id: &u128) -> (r: Result<Option<ReviewDocument>, StorageError>)
        requires
            self.valid(),
        ensures
            r is Ok,
            document_option_view(r->Ok_0) == found(self.live_documents(), *id),
    ;

    /// Deletes the document under `id` and says whether there was one. On
    /// failure nothing has changed.
    fn delete_document(&mut self, id: &u128) -> (r: Result<bool, StorageError>)
        requires
            old(self).valid(),
        ensures
            final(self).valid(),
            r matches Ok(existed) ==> existed == old(self).live_documents().contains_key(*id)
                && final(self).live_documents() == removed(old(self).live_documents(), *id),
            r is Err ==> final(self).live_documents() == old(self).live_documents(),
    ;

    /// The identifiers of the live documents, each once, in any order.
    /// Never fails.
    fn list_documents(&self) -> (r: Result<Vec<u128>, StorageError>)
        requires
            self.valid(),
        ensures
            r is Ok,
            r->Ok_0@.no_duplicates(),
            r->Ok_0@.to_set() == listed(self.live_documents()),
    ;
}

/// A store of indices by identifier.
pub trait IndexStorage {
    /// Whether the engine is in a state that its own operations leave it in.
    spec fn valid_indices(&self) -> bool;

    /// The live indices.
    spec fn live_indices(&self) -> Map<u128, IndexView>;

    /// Stores `index` under its identifier, in place of any index that stood
    /// there. On failure nothing has changed.
    fn store_index(&mut self, index: &Index) -> (r: Result<(), StorageError>)
        requires
            old(self).valid_indices(),
        ensures
            final(self).valid_indices(),
            r is Ok ==> final(self).live_indices() == stored_index(
                old(self).live_indices(),
                index@,
            ),
            r is Err ==> final(self).live_indices() == old(self).live_indices(),
    ;

    /// The index under `id`, or none. Never fails.
    fn get_index(&self, id: &u128) -> (r: Result<Option<Index>, StorageError>)
        requires
            self.valid_indices(),
        ensures
            r is Ok,
            index_option_view(r->Ok_0) == found_index(self.live_indices(), *id),
    ;

    /// The live indices, each once, in any order. Never fails.
    fn list_indices(&self) -> (r: Result<Vec<Index>, StorageError>)
        requires
            self.valid_indices(),
        ensures
            r is Ok,
            lists_indices(r->Ok_0@, self.live_indices()),
    ;
}

/// Whether the identifier that `entry` speaks of is in use in `store`: that
/// of a document for a stored or deleted document, that of an index for a
/// stored index.
pub open spec fn in_use(store: StoreView, entry: EntryView) -> bool {
    match entry {
        EntryView::Document(doc) => store.documents.contains_key(doc.id),
        EntryView::Delete(id) => store.documents.contains_key(id),
        EntryView::Index(index) => store.indices.contains_key(index.id),
    }
}

/// Whether every live document and every live index can be logged.
pub open spec fn all_loggable(store: StoreView) -> bool {
    &&& forall|id: u128|
        store.documents.contains_key(id) ==> loggable(
            EntryView::Document(#[trigger] store.documents[id]),
        )
    &&& forall|id: u128|
        store.indices.contains_key(id) ==> loggable(EntryView::Index(#[trigger] store.indices[id]))
}

/// The engine: two maps in memory and the write-ahead log behind them.
pub struct MmapStorage {
    documents: HashMap<u128, ReviewDocument>,
    indices: HashMap<u128, Index>,
    wal: WriteAheadLog,
}

/// What an engine is: the live documents and indices, and its log.
pub struct StorageView {
    pub store: StoreView,
    pub log: LogView,
}

impl StorageView {
    /// The log has no torn tail and is not spoilt, and the live documents
    /// and indices are exactly what a restart over the log comes up with.
    pub open spec fn wf(self) -> bool {
        &&& is_whole(self.log.image)
        &&& 0 <= self.log.synced <= self.log.image.len()
        &&& recovered(self.log.image) == Some(self.store)
    }

    /// Whether `self` is `before` after one logged mutation: the log has
    /// gained the record of `entry`, the entry has taken effect, and the
    /// mark of what is on stable storage has stayed.
    pub open spec fn follows(self, before: StorageView, entry: EntryView) -> bool {
        &&& appended(before.log.image, self.log.image, entry)
        &&& self.store == apply_entry(before.store, entry)
        &&& self.log.synced == before.log.synced
    }
}

impl View for MmapStorage {
    type V = StorageView;

    closed spec fn view(&self) -> StorageView {
        StorageView {
            store: StoreView {
                documents: document_views(self.documents@),
                indices: index_views(self.indices@),
            },
            log: self.wal@,
        }
    }
}

impl MmapStorage {
    /// Opens an engine over the log image that was found on storage, and
    /// rebuilds the live documents and indices by replaying it. A torn tail
    /// is cut off. A whole record that stands for no entry is corruption:
    /// recovery stops with an error.
    pub fn new(image: &[u8]) -> (r: Result<Self, StorageError>)
        ensures
            match r {
                Ok(engine) => {
                    &&& engine@.wf()
                    &&& recovered(image@) == Some(engine@.store)
                    &&& engine@.log.image == image@.take(complete_len(image@))
                    &&& engine@.log.synced == engine@.log.image.len()
                },
                Err(e) => e == StorageError::CorruptLog && recovered(image@) is None,
            },
    {
        let wal = WriteAheadLog::new(image);
        proof {
            lemma_trimmed_log_recovers(image@);
        }
        let entries = match wal.entries() {
            Ok(entries) => entries,
            Err(e) => {
                return Err(e);
            },
        };
        let mut documents: HashMap<u128, ReviewDocument> = HashMap::new();
        let mut indices: HashMap<u128, Index> = HashMap::new();
        let ghost all = entry_views(entries@);
        let mut i: usize = 0;
        assert(all.take(0) =~= Seq::<EntryView>::empty());
        assert(document_views(documents@) =~= empty_store().documents);
        assert(index_views(indices@) =~= empty_store().indices);
        while i < entries.len()
            invariant
                i <= entries@.len(),
                all == entry_views(entries@),
                replay(all.take(i as int)) == (StoreView {
                    documents: document_views(documents@),
                    indices: index_views(indices@),
                }),
            decreases entries@.len() - i,
        {
            let ghost before = replay(all.take(i as int));
            assert(all.take(i + 1).drop_last() =~= all.take(i as int));
            assert(all.take(i + 1).last() == entries@[i as int]@);
            match &entries[i] {
                WalEntry::Document(doc) => {
                    documents.insert(doc.id, doc.clone());
                    assert(document_views(documents@) =~= stored(before.documents, doc@));
                },
                WalEntry::Delete(id) => {
                    documents.remove(id);
                    assert(document_views(documents@) =~= removed(before.documents, *id));
                },
                WalEntry::Index(index) => {
                    indices.insert(index.id, index.clone());
                    assert(index_views(indices@) =~= stored_index(before.indices, index@));
                },
            }
            i += 1;
        }
        assert(all.take(i as int) =~= all);
        Ok(MmapStorage { documents, indices, wal })
    }

    /// Logs one mutation and applies it, given what the encoder made of it.
    /// Where the encoder gave a payload that fits a record, the record is
    /// appended, the mutation takes effect, and the answer says whether
    /// the identifier was in use before. Where the payload is too long, or
    /// the encoder gave an error, the call fails with a serialization error
    /// or the encoder's own, and nothing has changed.
    pub fn commit(&mut self, entry: WalEntry, encoded: Result<Vec<u8>, StorageError>) -> (r: Result<
        bool,
        StorageError,
    >)
        requires
            old(self)@.wf(),
            encoded matches Ok(payload) ==> decoded_entry(payload@) == Some(entry@),
        ensures
            final(self)@.wf(),
            match encoded {
                Ok(payload) => if payload@.len() <= u32::MAX {
                    &&& r == Ok::<bool, StorageError>(in_use(old(self)@.store, entry@))
                    &&& final(self)@.store == apply_entry(old(self)@.store, entry@)
                    &&& final(self)@.log.image == old(self)@.log.image + frame(payload@)
                    &&& final(self)@.log.synced == old(self)@.log.synced
                } else {
                    &&& r == Err::<bool, StorageError>(StorageError::Serialization)
                    &&& final(self)@ == old(self)@
                },
                Err(e) => r == Err::<bool, StorageError>(e) && final(self)@ == old(self)@,
            },
    {
        let ghost before = self@;
        let payload = match encoded {
            Ok(payload) => payload,
            Err(e) => {
                return Err(e);
            },
        };
        match self.wal.append_payload(payload.as_slice()) {
            Ok(()) => {},
            Err(e) => {
                return Err(e);
            },
        }
        proof {
            assert(appended(before.log.image, self@.log.image, entry@));
            lemma_appended_entries(before.log.image, self@.log.image, entry@);
        }
        let existed = match entry {
            WalEntry::Document(doc) => {
                let replaced = self.documents.insert(doc.id, doc);
                assert(document_views(self.documents@) =~= stored(before.store.documents, doc@));
                replaced.is_some()
            },
            WalEntry::Delete(id) => {
                let removed_doc = self.documents.remove(&id);
                assert(document_views(self.documents@) =~= removed(before.store.documents, id));
                removed_doc.is_some()
            },
            WalEntry::Index(index) => {
                let replaced = self.indices.insert(index.id, index);
                assert(index_views(self.indices@) =~= stored_index(before.store.indices, index@));
                replaced.is_some()
            },
        };
        Ok(existed)
    }

    /// Records that the whole log has reached stable storage.
    pub fn flush(&mut self) -> (r: Result<(), StorageError>)
        requires
            old(self)@.wf(),
        ensures
            r is Ok,
            final(self)@.wf(),
            final(self)@.store == old(self)@.store,
            final(self)@.log.image == old(self)@.log.image,
            final(self)@.log.synced == old(self)@.log.image.len(),
    {
        self.wal.sync()
    }

    /// Rewrites the log as a snapshot: one record for each live document
    /// and each live index, and nothing of the history before. The store
    /// stays as it is, and a restart over the new log comes up with it.
    /// Nothing of the new log counts as being on stable storage yet. It
    /// succeeds exactly where every live document and every live index can
    /// be logged; on failure nothing has changed.
    pub fn compact(&mut self) -> (r: Result<(), StorageError>)
        requires
            old(self)@.wf(),
        ensures
            final(self)@.wf(),
            final(self)@.store == old(self)@.store,
            r is Ok <==> all_loggable(old(self)@.store),
            match r {
                Ok(()) => {
                    &&& final(self)@.log.synced == 0
                    &&& log_entries(final(self)@.log.image).unwrap().len() == old(
                        self,
                    )@.store.documents.dom().len() + old(self)@.store.indices.dom().len()
                },
                Err(e) => e == StorageError::Serialization && final(self)@ == old(self)@,
            },
    {
        let ghost start = self@;
        let ghost store = self@.store;
        proof {
            lemma_recovered_keyed_by_id(self@.log.image);
            lemma_trimmed_log_recovers(Seq::<u8>::empty());
        }
        let mut fresh = WriteAheadLog::new(&[]);
        assert(fresh@.image =~= Seq::<u8>::empty());
        assert(log_entries(fresh@.image).unwrap() =~= Seq::<EntryView>::empty());

        let doc_ids = keys_of(&self.documents);
        assert(store.documents.dom() =~= self.documents@.dom());
        let mut i: usize = 0;
        assert(doc_ids@.take(0).to_set() =~= Set::<u128>::empty());
        assert(store.documents.restrict(Set::<u128>::empty()) =~= Map::<
            u128,
            DocumentView,
        >::empty());
        while i < doc_ids.len()
            invariant
                i <= doc_ids@.len(),
                self@ == start,
                start.wf(),
                store == start.store,
                keyed_by_id(store),
                doc_ids@.to_set() == store.documents.dom(),
                forall|k: int|
                    0 <= k < i ==> loggable(
                        EntryView::Document(store.documents[#[trigger] doc_ids@[k]]),
                    ),
                fresh.wf(),
                fresh@.synced == 0,
                log_entries(fresh@.image) is Some,
                log_entries(fresh@.image).unwrap().len() == i,
                recovered(fresh@.image) == Some(
                    StoreView {
                        documents: store.documents.restrict(doc_ids@.take(i as int).to_set()),
                        indices: Map::empty(),
                    },
                ),
            decreases doc_ids@.len() - i,
        {
            let id = doc_ids[i];
            assert(doc_ids@.to_set().contains(id));
            let ghost before = fresh@.image;
            let ghost done = doc_ids@.take(i as int).to_set();
            match self.documents.get(&id) {
                Some(doc) => {
                    assert(store.documents.contains_key(id));
                    assert(doc@ == store.documents[id]);
                    match fresh.write_document_entry(doc) {
                        Ok(()) => {
                            proof {
                                lemma_appended_entries(
                                    before,
                                    fresh@.image,
                                    EntryView::Document(doc@),
                                );
                                assert(doc_ids@.take(i + 1) =~= doc_ids@.take(i as int).push(id));
                                doc_ids@.take(i as int).lemma_push_to_set_commute(id);
                                assert(stored(store.documents.restrict(done), doc@)
                                    =~= store.documents.restrict(done.insert(id)));
                            }
                        },
                        Err(e) => {
                            return Err(e);
                        },
                    }
                },
                None => {
                    assert(false);
                },
            }
            i += 1;
        }
        assert(doc_ids@.take(i as int) =~= doc_ids@);
        assert(store.documents.restrict(store.documents.dom()) =~= store.documents);
        assert forall|id: u128| store.documents.contains_key(id) implies loggable(
            EntryView::Document(#[trigger] store.documents[id]),
        ) by {
            assert(doc_ids@.to_set().contains(id));
            let k = choose|k: int| 0 <= k < doc_ids@.len() && doc_ids@[k] == id;
            assert(doc_ids@[k] == id);
        }

        let index_ids = keys_of(&self.indices);
        assert(store.indices.dom() =~= self.indices@.dom());
        let mut j: usize = 0;
        assert(index_ids@.take(0).to_set() =~= Set::<u128>::empty());
        assert(store.indices.restrict(Set::<u128>::empty()) =~= Map::<u128, IndexView>::empty());
        while j < index_ids.len()
            invariant
                j <= index_ids@.len(),
                self@ == start,
                start.wf(),
                store == start.store,
                keyed_by_id(store),
                index_ids@.to_set() == store.indices.dom(),
                forall|id: u128|
                    store.documents.contains_key(id) ==> loggable(
                        EntryView::Document(#[trigger] store.documents[id]),
                    ),
                forall|k: int|
                    0 <= k < j ==> loggable(
                        EntryView::Index(store.indices[#[trigger] index_ids@[k]]),
                    ),
                fresh.wf(),
                fresh@.synced == 0,
                log_entries(fresh@.image) is Some,
                log_entries(fresh@.image).unwrap().len() == doc_ids@.len() + j,
                recovered(fresh@.image) == Some(
                    StoreView {
                        documents: store.documents,
                        indices: store.indices.restrict(index_ids@.take(j as int).to_set()),
                    },
                ),
            decreases index_ids@.len() - j,
        {
            let id = index_ids[j];
            assert(index_ids@.to_set().contains(id));
            let ghost before = fresh@.image;
            let ghost done = index_ids@.take(j as int).to_set();
            match self.indices.get(&id) {
                Some(index) => {
                    assert(store.indices.contains_key(id));
                    assert(index@ == store.indices[id]);
                    match fresh.write_index_entry(index) {
                        Ok(()) => {
                            proof {
                                lemma_appended_entries(
                                    before,
                                    fresh@.image,
                                    EntryView::Index(index@),
                                );
                                assert(index_ids@.take(j + 1) =~= index_ids@.take(j as int).push(
                                    id,
                                ));
                                index_ids@.take(j as int).lemma_push_to_set_commute(id);
                                assert(stored_index(store.indices.restrict(done), index@)
                                    =~= store.indices.restrict(done.insert(id)));
                            }
                        },
                        Err(e) => {
                            return Err(e);
                        },
                    }
                },
                None => {
                    assert(false);
                },
            }
            j += 1;
        }
        assert(index_ids@.take(j as int) =~= index_ids@);
        assert(store.indices.restrict(store.indices.dom()) =~= store.indices);
        assert forall|id: u128| store.indices.contains_key(id) implies loggable(
            EntryView::Index(#[trigger] store.indices[id]),
        ) by {
            assert(index_ids@.to_set().contains(id));
            let k = choose|k: int| 0 <= k < index_ids@.len() && index_ids@[k] == id;
            assert(index_ids@[k] == id);
        }
        self.wal = fresh;
        Ok(())
    }

    /// The log behind the engine.
    pub fn wal(&self) -> (log: &WriteAheadLog)
        ensures
            log@ == self@.log,
    {
        &self.wal
    }

    /// The image of the log, as it has to stand on storage.
    pub fn log_image(&self) -> (bytes: &[u8])
        ensures
            bytes@ == self@.log.image,
    {
        self.wal.image()
    }
}

impl StorageEngine for MmapStorage {
    open spec fn valid(&self) -> bool {
        self@.wf()
    }

    open spec fn live_documents(&self) -> Map<u128, DocumentView> {
        self@.store.documents
    }

    fn store_document(&mut self, doc: &ReviewDocument) -> (r: Result<(), StorageError>)
        ensures
            r is Ok <==> loggable(EntryView::Document(doc@)),
            r is Ok ==> final(self)@.follows(old(self)@, EntryView::Document(doc@)),
            r matches Err(e) ==> e == StorageError::Serialization && final(self)@ == old(self)@,
    {
        let entry = WalEntry::Document(doc.clone());
        let encoded = encode_entry(&entry);
        match self.commit(entry, encoded) {
            Ok(_) => Ok(()),
            Err(e) => Err(e),
        }
    }

    fn get_document(&self, id: &u128) -> (r: Result<Option<ReviewDocument>, StorageError>) {
        match self.documents.get(id) {
            Some(doc) => Ok(Some(doc.clone())),
            None => Ok(None),
        }
    }

    fn delete_document(&mut self, id: &u128) -> (r: Result<bool, StorageError>)
        ensures
            r is Ok <==> loggable(EntryView::Delete(*id)),
            r is Ok ==> final(self)@.follows(old(self)@, EntryView::Delete(*id)),
            r matches Err(e) ==> e == StorageError::Serialization && final(self)@ == old(self)@,
    {
        let entry = WalEntry::Delete(*id);
        let encoded = encode_entry(&entry);
        self.commit(entry, encoded)
    }

    fn list_documents(&self) -> (r: Result<Vec<u128>, StorageError>) {
        let ids = keys_of(&self.documents);
        assert(document_views(self.documents@).dom() =~= self.documents@.dom());
        Ok(ids)
    }
}

impl IndexStorage for MmapStorage {
    open spec fn valid_indices(&self) -> bool {
        self@.wf()
    }

    open spec fn live_indices(&self) -> Map<u128, IndexView> {
        self@.store.indices
    }

    fn store_index(&mut self, index: &Index) -> (r: Result<(), StorageError>)
        ensures
            r is Ok <==> loggable(EntryView::Index(index@)),
            r is Ok ==> final(self)@.follows(old(self)@, EntryView::Index(index@)),
            r matches Err(e) ==> e == StorageError::Serialization && final(self)@ == old(self)@,
    {
        let entry = WalEntry::Index(index.clone());
        let encoded = encode_entry(&entry);
        match self.commit(entry, encoded) {
            Ok(_) => Ok(()),
            Err(e) => Err(e),
        }
    }

    fn get_index(&self, id: &u128) -> (r: Result<Option<Index>, StorageError>) {
        match self.indices.get(id) {
            Some(index) => Ok(Some(index.clone())),
            None => Ok(None),
        }
    }

    fn list_indices(&self) -> (r: Result<Vec<Index>, StorageError>) {
        let ids = keys_of(&self.indices);
        assert(index_views(self.indices@).dom() =~= self.indices@.dom());
        proof {
            lemma_recovered_keyed_by_id(self@.log.image);
        }
        let mut listing: Vec<Index> = Vec::new();
        let mut i: usize = 0;
        while i < ids.len()
            invariant
                i <= ids@.len(),
                ids@.no_duplicates(),
                ids@.to_set() == self.indices@.dom(),
                keyed_by_id(self@.store),
                listing@.len() == i,
                forall|j: int|
                    0 <= j < i ==> (#[trigger] listing@[j]).id == ids@[j]
                        && index_views(self.indices@).contains_key(ids@[j]) && index_views(
                        self.indices@,
                    )[ids@[j]] == listing@[j]@,
            decreases ids@.len() - i,
        {
            assert(ids@.to_set().contains(ids@[i as int]));
            match self.indices.get(&ids[i]) {
                Some(index) => {
                    assert(self@.store.indices.contains_key(ids@[i as int]));
                    assert(self@.store.indices[ids@[i as int]] == index@);
                    listing.push(index.clone());
                },
                None => {
                    assert(false);
                },
            }
            i += 1;
        }
        Ok(listing)
    }
}

} // verus!
