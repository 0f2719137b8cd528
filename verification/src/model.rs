//! The state of the store as mathematics: two maps, and how a log of entries
//! builds them.

use crate::codec::{decoded_entry, EntryView};
use crate::document::DocumentView;
use crate::framing::{
    complete_len, frame, is_whole, lemma_append_frame, lemma_complete_prefix,
    lemma_records_of_prefix, lemma_torn_tail_is_discarded, records,
};
use crate::index::IndexView;
use vstd::prelude::*;

verus! {

/// The live documents and indices, each under its identifier.
pub struct StoreView {
    pub documents: Map<u128, DocumentView>,
    pub indices: Map<u128, IndexView>,
}

/// The store that holds nothing.
pub open spec fn empty_store() -> StoreView {
    StoreView { documents: Map::empty(), indices: Map::empty() }
}

/// The documents after `doc` was stored: `doc` under its identifier, in
/// place of any document that stood there.
pub open spec fn stored(documents: Map<u128, DocumentView>, doc: DocumentView) -> Map<
    u128,
    DocumentView,
> {
    documents.insert(doc.id, doc)
}

/// The document under `id`, if there is one.
pub open spec fn found(documents: Map<u128, DocumentView>, id: u128) -> Option<DocumentView> {
    if documents.contains_key(id) {
        Some(documents[id])
    } else {
        None
    }
}

/// The documents after the one under `id` was deleted.
pub open spec fn removed(documents: Map<u128, DocumentView>, id: u128) -> Map<u128, DocumentView> {
    documents.remove(id)
}

/// The identifiers of the live documents.
pub open spec fn listed(documents: Map<u128, DocumentView>) -> Set<u128> {
    documents.dom()
}

/// The indices after `index` was stored under its identifier.
pub open spec fn stored_index(indices: Map<u128, IndexView>, index: IndexView) -> Map<
    u128,
    IndexView,
> {
    indices.insert(index.id, index)
}

/// The index under `id`, if there is one.
pub open spec fn found_index(indices: Map<u128, IndexView>, id: u128) -> Option<IndexView> {
    if indices.contains_key(id) {
        Some(indices[id])
    } else {
        None
    }
}

/// The store after one entry of the log took effect.
pub open spec fn apply_entry(store: StoreView, entry: EntryView) -> StoreView {
    match entry {
        EntryView::Document(doc) => StoreView {
            documents: stored(store.documents, doc),
            indices: store.indices,
        },
        EntryView::Delete(id) => StoreView {
            documents: removed(store.documents, id),
            indices: store.indices,
        },
        EntryView::Index(index) => StoreView {
            documents: store.documents,
            indices: stored_index(store.indices, index),
        },
    }
}

/// The store that the entries build, taken in the order of the log.
pub open spec fn replay(entries: Seq<EntryView>) -> StoreView
    decreases entries.len(),
{
    if entries.len() == 0 {
        empty_store()
    } else {
        apply_entry(replay(entries.drop_last()), entries.last())
    }
}

/// Whether every document and every index stands under its own identifier.
pub open spec fn keyed_by_id(store: StoreView) -> bool {
    &&& forall|id: u128| #[trigger]
        store.documents.contains_key(id) ==> store.documents[id].id == id
    &&& forall|id: u128| #[trigger] store.indices.contains_key(id) ==> store.indices[id].id == id
}

/// A store that was built from a log holds finitely many documents and
/// indices, each under its own identifier.
pub proof fn lemma_replay_keyed_by_id(entries: Seq<EntryView>)
    ensures
        keyed_by_id(replay(entries)),
        replay(entries).documents.dom().finite(),
        replay(entries).indices.dom().finite(),
    decreases entries.len(),
{
    if entries.len() > 0 {
        lemma_replay_keyed_by_id(entries.drop_last());
    }
}

/// Whether every payload stands for an entry.
pub open spec fn all_decodable(payloads: Seq<Seq<u8>>) -> bool {
    forall|i: int| 0 <= i < payloads.len() ==> (#[trigger] decoded_entry(payloads[i])) is Some
}

/// The entries that the payloads stand for, in order; none where one of
/// them stands for no entry.
pub open spec fn decode_all(payloads: Seq<Seq<u8>>) -> Option<Seq<EntryView>> {
    if all_decodable(payloads) {
        Some(Seq::new(payloads.len(), |i: int| decoded_entry(payloads[i]).unwrap()))
    } else {
        None
    }
}

/// The entries of a log: those of its whole records, in order. A torn tail
/// is left out; a whole record that stands for no entry spoils the log.
pub open spec fn log_entries(image: Seq<u8>) -> Option<Seq<EntryView>> {
    decode_all(records(image))
}

/// The store that a restart over this log image comes up with; none where
/// the log is spoilt.
pub open spec fn recovered(image: Seq<u8>) -> Option<StoreView> {
    match log_entries(image) {
        Some(entries) => Some(replay(entries)),
        None => None,
    }
}

/// What a restart comes up with holds finitely many documents and indices,
/// each under its own identifier.
pub proof fn lemma_recovered_keyed_by_id(image: Seq<u8>)
    requires
        recovered(image) is Some,
    ensures
        keyed_by_id(recovered(image).unwrap()),
        recovered(image).unwrap().documents.dom().finite(),
        recovered(image).unwrap().indices.dom().finite(),
{
    lemma_replay_keyed_by_id(log_entries(image).unwrap());
}

/// Whether `after` is `before` with one more record at its end, which stands
/// for `entry`.
pub open spec fn appended(before: Seq<u8>, after: Seq<u8>, entry: EntryView) -> bool {
    exists|payload: Seq<u8>|
        {
            &&& payload.len() <= u32::MAX
            &&& #[trigger] decoded_entry(payload) == Some(entry)
            &&& after == before + frame(payload)
        }
}

/// One more payload at the end is one more entry at the end.
pub proof fn lemma_decode_all_push(payloads: Seq<Seq<u8>>, payload: Seq<u8>)
    requires
        decode_all(payloads) is Some,
        decoded_entry(payload) is Some,
    ensures
        decode_all(payloads.push(payload)) == Some(
            decode_all(payloads).unwrap().push(decoded_entry(payload).unwrap()),
        ),
{
    let longer = payloads.push(payload);
    assert forall|i: int| 0 <= i < longer.len() implies (#[trigger] decoded_entry(
        longer[i],
    )) is Some by {
        if i < payloads.len() {
            assert(longer[i] == payloads[i]);
        }
    }
    assert(decode_all(longer).unwrap() =~= decode_all(payloads).unwrap().push(
        decoded_entry(payload).unwrap(),
    ));
}

/// The first payloads of a decodable sequence are decodable, and stand for
/// its first entries.
pub proof fn lemma_decode_all_take(payloads: Seq<Seq<u8>>, n: int)
    requires
        decode_all(payloads) is Some,
        0 <= n <= payloads.len(),
    ensures
        decode_all(payloads.take(n)) == Some(decode_all(payloads).unwrap().take(n)),
{
    let front = payloads.take(n);
    assert forall|i: int| 0 <= i < front.len() implies (#[trigger] decoded_entry(
        front[i],
    )) is Some by {
        assert(front[i] == payloads[i]);
    }
    assert(decode_all(front).unwrap() =~= decode_all(payloads).unwrap().take(n));
}

/// A log that gained a record for `entry` has that entry at the end of its
/// entries, and has no torn tail.
pub proof fn lemma_appended_entries(before: Seq<u8>, after: Seq<u8>, entry: EntryView)
    requires
        is_whole(before),
        log_entries(before) is Some,
        appended(before, after, entry),
    ensures
        is_whole(after),
        before.is_prefix_of(after),
        log_entries(after) == Some(log_entries(before).unwrap().push(entry)),
        recovered(after) == Some(apply_entry(recovered(before).unwrap(), entry)),
{
    let payload = choose|payload: Seq<u8>|
        {
            &&& payload.len() <= u32::MAX
            &&& #[trigger] decoded_entry(payload) == Some(entry)
            &&& after == before + frame(payload)
        };
    lemma_append_frame(before, payload);
    lemma_decode_all_push(records(before), payload);
    let entries = log_entries(before).unwrap();
    assert(entries.push(entry).drop_last() =~= entries);
}

/// Restart after a crash in the middle of a write: where the last record of
/// a log is only partly there, the log is not spoilt, and its entries are
/// those of the whole records before the torn one.
pub proof fn lemma_torn_write_recovers(log: Seq<u8>, payload: Seq<u8>, kept: int)
    requires
        is_whole(log),
        log_entries(log) is Some,
        payload.len() <= u32::MAX,
        0 <= kept < 4 + payload.len(),
    ensures
        log_entries(log + frame(payload).take(kept)) == log_entries(log),
        recovered(log + frame(payload).take(kept)) == recovered(log),
        recovered(log + frame(payload).take(kept)) is Some,
        complete_len(log + frame(payload).take(kept)) == log.len(),
{
    lemma_torn_tail_is_discarded(log, payload, kept);
}

/// Restart over any front part of a sound log: the log read is not spoilt,
/// and its entries are the first entries of the whole log, all of them where
/// the cut falls behind the last whole record.
pub proof fn lemma_prefix_recovers(log: Seq<u8>, cut: int)
    requires
        log_entries(log) is Some,
        0 <= cut <= log.len(),
    ensures
        log_entries(log.take(cut)) is Some,
        log_entries(log.take(cut)).unwrap().len() <= log_entries(log).unwrap().len(),
        log_entries(log.take(cut)).unwrap() == log_entries(log).unwrap().take(
            log_entries(log.take(cut)).unwrap().len() as int,
        ),
        complete_len(log) <= cut ==> log_entries(log.take(cut)) == log_entries(log),
{
    lemma_records_of_prefix(log, cut);
    let n = records(log.take(cut)).len() as int;
    lemma_decode_all_take(records(log), n);
}

/// Cutting the torn tail off a log changes neither its entries nor the store
/// that a restart comes up with.
pub proof fn lemma_trimmed_log_recovers(image: Seq<u8>)
    ensures
        0 <= complete_len(image) <= image.len(),
        is_whole(image.take(complete_len(image))),
        log_entries(image.take(complete_len(image))) == log_entries(image),
        recovered(image.take(complete_len(image))) == recovered(image),
{
    lemma_complete_prefix(image);
}

} // verus!
