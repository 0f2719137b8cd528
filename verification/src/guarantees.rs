//! What the store promises, stated over its mathematical model and proved
//! from the definitions that the contracts of the engine use.

use crate::codec::EntryView;
use crate::document::DocumentView;
use crate::framing::{frames, lemma_records_of_frames, records};
use crate::model::{
    apply_entry, decode_all, empty_store, found, lemma_appended_entries, lemma_prefix_recovers,
    listed, log_entries, recovered, removed, replay, stored,
};
use crate::storage::StorageView;
use vstd::prelude::*;

verus! {

/// A document that was stored is the one that a lookup under its
/// identifier finds.
pub proof fn lemma_store_then_get(documents: Map<u128, DocumentView>, doc: DocumentView)
    ensures
        found(stored(documents, doc), doc.id) == Some(doc),
        listed(stored(documents, doc)).contains(doc.id),
{
}

/// Storing a document leaves every other document as it was.
pub proof fn lemma_store_keeps_others(
    documents: Map<u128, DocumentView>,
    doc: DocumentView,
    other: u128,
)
    requires
        other != doc.id,
    ensures
        found(stored(documents, doc), other) == found(documents, other),
{
}

/// Whether no entry of the log stores a document under `id`.
pub open spec fn never_stored(entries: Seq<EntryView>, id: u128) -> bool {
    forall|i: int|
        0 <= i < entries.len() ==> !(#[trigger] entries[i] matches EntryView::Document(doc)
            && doc.id == id)
}

/// An identifier under which nothing was ever stored finds no document, and
/// is no key of the live documents, so that deleting it reports that nothing
/// was there.
pub proof fn lemma_never_stored_is_absent(entries: Seq<EntryView>, id: u128)
    requires
        never_stored(entries, id),
    ensures
        found(replay(entries).documents, id) is None,
        !replay(entries).documents.contains_key(id),
        removed(replay(entries).documents, id) == replay(entries).documents,
    decreases entries.len(),
{
    if entries.len() > 0 {
        let front = entries.drop_last();
        assert forall|i: int| 0 <= i < front.len() implies !(#[trigger] front[i] matches EntryView::Document(
            doc,
        ) && doc.id == id) by {
            assert(front[i] == entries[i]);
        }
        lemma_never_stored_is_absent(front, id);
        assert(entries.last() == entries[entries.len() - 1]);
    }
    assert(removed(replay(entries).documents, id) =~= replay(entries).documents);
}

/// In a store that was just opened over an empty log nothing is found.
pub proof fn lemma_fresh_store_is_empty(id: u128)
    ensures
        recovered(Seq::<u8>::empty()) == Some(empty_store()),
        found(empty_store().documents, id) is None,
        !empty_store().documents.contains_key(id),
{
    assert(records(Seq::<u8>::empty()) =~= Seq::<Seq<u8>>::empty());
    assert(decode_all(Seq::<Seq<u8>>::empty()).unwrap() =~= Seq::<EntryView>::empty());
}

/// A deleted document is no longer listed and no longer found; the others
/// stay.
pub proof fn lemma_delete_then_get(documents: Map<u128, DocumentView>, id: u128, other: u128)
    ensures
        !listed(removed(documents, id)).contains(id),
        found(removed(documents, id), id) is None,
        other != id ==> found(removed(documents, id), other) == found(documents, other),
        documents.dom().finite() && documents.contains_key(id) ==> listed(
            removed(documents, id),
        ).len() == listed(documents).len() - 1,
{
}

/// Storing under an identifier that is already in use replaces the document
/// that stood there and adds none: the identifiers listed are the same, and
/// as many.
pub proof fn lemma_store_replaces(documents: Map<u128, DocumentView>, doc: DocumentView)
    requires
        documents.contains_key(doc.id),
    ensures
        found(stored(documents, doc), doc.id) == Some(doc),
        listed(stored(documents, doc)) == listed(documents),
        listed(stored(documents, doc)).len() == listed(documents).len(),
{
    assert(listed(stored(documents, doc)) =~= listed(documents));
}

/// Whatever was stored last under an identifier is what the store holds
/// there.
pub proof fn lemma_last_write_wins(
    documents: Map<u128, DocumentView>,
    first: DocumentView,
    second: DocumentView,
)
    requires
        first.id == second.id,
    ensures
        stored(stored(documents, first), second) == stored(documents, second),
{
    assert(stored(stored(documents, first), second) =~= stored(documents, second));
}

/// The order of the log is the order of the writes: a log written record by
/// record holds the entries that the payloads stand for, the first written
/// first.
pub proof fn lemma_entries_in_write_order(payloads: Seq<Seq<u8>>)
    requires
        forall|i: int| 0 <= i < payloads.len() ==> (#[trigger] payloads[i]).len() <= u32::MAX,
    ensures
        log_entries(frames(payloads)) == decode_all(payloads),
{
    lemma_records_of_frames(payloads);
}

/// A restart over the log of a sound engine comes up with exactly the
/// documents and indices that the engine held.
pub proof fn lemma_restart_restores_state(engine: StorageView)
    requires
        engine.wf(),
    ensures
        recovered(engine.log.image) == Some(engine.store),
{
}

/// After a crash the storage holds a front part of the log that reaches at
/// least to the mark of what was synced. A restart over it does not fail;
/// the history that it replays is a front part of the engine's history, and
/// loses nothing of what was synced.
pub proof fn lemma_crash_keeps_synced_history(engine: StorageView, cut: int)
    requires
        engine.wf(),
        engine.log.synced <= cut <= engine.log.image.len(),
    ensures
        recovered(engine.log.image.take(cut)) is Some,
        log_entries(engine.log.image.take(cut)).unwrap().is_prefix_of(
            log_entries(engine.log.image).unwrap(),
        ),
        log_entries(engine.log.image.take(engine.log.synced)) is Some,
        log_entries(engine.log.image.take(engine.log.synced)).unwrap().is_prefix_of(
            log_entries(engine.log.image.take(cut)).unwrap(),
        ),
{
    let image = engine.log.image;
    let mark = engine.log.synced;
    lemma_prefix_recovers(image, cut);
    lemma_prefix_recovers(image.take(cut), mark);
    assert(image.take(cut).take(mark) =~= image.take(mark));
}

/// Durability. A document that was stored is there after a restart over
/// the log as the store left it. Once the log was synced, every image that a
/// crash can leave on storage is the whole log, so that a restart after a
/// crash finds the document too, and the rest of the store as it was.
pub proof fn lemma_stored_document_survives_restart(
    before: StorageView,
    after: StorageView,
    synced: StorageView,
    doc: DocumentView,
    cut: int,
)
    requires
        before.wf(),
        after.follows(before, EntryView::Document(doc)),
        synced.store == after.store,
        synced.log.image == after.log.image,
        synced.log.synced == after.log.image.len(),
        synced.log.synced <= cut <= synced.log.image.len(),
    ensures
        after.wf(),
        recovered(after.log.image) == Some(after.store),
        found(recovered(after.log.image).unwrap().documents, doc.id) == Some(doc),
        recovered(synced.log.image.take(cut)) == Some(synced.store),
        found(recovered(synced.log.image.take(cut)).unwrap().documents, doc.id) == Some(doc),
{
    lemma_appended_entries(before.log.image, after.log.image, EntryView::Document(doc));
    assert(synced.log.image.take(cut) =~= synced.log.image);
}

/// Every logged mutation keeps the engine sound: the log has no torn tail,
/// and the store is the replay of the log.
pub proof fn lemma_mutation_keeps_engine_sound(
    before: StorageView,
    after: StorageView,
    entry: EntryView,
)
    requires
        before.wf(),
        after.follows(before, entry),
    ensures
        after.wf(),
        log_entries(after.log.image) == Some(log_entries(before.log.image).unwrap().push(entry)),
        after.store == apply_entry(before.store, entry),
{
    lemma_appended_entries(before.log.image, after.log.image, entry);
}

} // verus!
