use puresearch::error::StorageError;
use puresearch::framing::encode_frame;
use puresearch::storage::{keys_of, IndexStorage, StorageEngine};
use puresearch::codec::encode_entry;
use puresearch::{Index, MmapStorage, ReviewDocument, WalEntry};
use std::collections::HashMap;

fn document(id: u128, content: &str) -> ReviewDocument {
    let mut metadata = HashMap::new();
    metadata.insert("k".to_string(), "v".to_string());
    ReviewDocument::from_parts(id, content.to_string(), metadata, 17)
}

fn same(a: &ReviewDocument, b: &ReviewDocument) -> bool {
    a.id == b.id && a.content == b.content && a.metadata == b.metadata && a.timestamp == b.timestamp
}

#[test]
fn store_then_get_returns_the_document() {
    let mut storage = MmapStorage::new(&[]).unwrap();
    let doc = document(1, "hello");
    storage.store_document(&doc).unwrap();
    let found = storage.get_document(&1).unwrap().unwrap();
    assert!(same(&found, &doc));
}

#[test]
fn unknown_id_is_absent_and_not_deleted() {
    let mut storage = MmapStorage::new(&[]).unwrap();
    storage.store_document(&document(1, "hello")).unwrap();
    assert!(storage.get_document(&2).unwrap().is_none());
    assert_eq!(storage.delete_document(&2).unwrap(), false);
    assert_eq!(storage.list_documents().unwrap(), vec![1]);
}

#[test]
fn delete_removes_from_listing_and_lookup() {
    let mut storage = MmapStorage::new(&[]).unwrap();
    storage.store_document(&document(1, "a")).unwrap();
    storage.store_document(&document(2, "b")).unwrap();
    assert_eq!(storage.delete_document(&1).unwrap(), true);
    assert!(storage.get_document(&1).unwrap().is_none());
    assert_eq!(storage.list_documents().unwrap(), vec![2]);
    assert_eq!(storage.delete_document(&1).unwrap(), false);
    assert!(storage.get_document(&2).unwrap().is_some());
}

#[test]
fn storing_again_replaces_and_keeps_the_count() {
    let mut storage = MmapStorage::new(&[]).unwrap();
    storage.store_document(&document(1, "first")).unwrap();
    storage.store_document(&document(2, "other")).unwrap();
    let mut second = document(1, "second");
    second.metadata.clear();
    second.timestamp = 99;
    storage.store_document(&second).unwrap();
    let found = storage.get_document(&1).unwrap().unwrap();
    assert!(same(&found, &second));
    assert!(found.metadata.is_empty());
    let mut ids = storage.list_documents().unwrap();
    ids.sort();
    assert_eq!(ids, vec![1, 2]);
}

#[test]
fn restart_restores_documents_deletions_and_indices() {
    let mut storage = MmapStorage::new(&[]).unwrap();
    storage.store_document(&document(1, "one")).unwrap();
    storage.store_document(&document(2, "two")).unwrap();
    storage.store_document(&document(1, "one again")).unwrap();
    storage.delete_document(&2).unwrap();
    let mut index = Index::from_parts(7, "idx".to_string(), Vec::new(), 3);
    index.add_document(1);
    storage.store_index(&index).unwrap();
    storage.flush().unwrap();
    assert_eq!(storage.wal().synced_len(), storage.log_image().len());

    let restarted = MmapStorage::new(storage.log_image()).unwrap();
    assert_eq!(restarted.list_documents().unwrap(), vec![1]);
    assert_eq!(restarted.get_document(&1).unwrap().unwrap().content, "one again");
    assert!(restarted.get_document(&2).unwrap().is_none());
    let found = restarted.get_index(&7).unwrap().unwrap();
    assert_eq!(found.name, "idx");
    assert_eq!(found.documents, vec![1]);
    assert_eq!(found.created_at, 3);
    assert_eq!(restarted.log_image(), storage.log_image());
}

#[test]
fn restart_after_crash_right_after_the_append() {
    let mut storage = MmapStorage::new(&[]).unwrap();
    let doc = document(5, "not synced yet");
    storage.store_document(&doc).unwrap();
    assert_eq!(storage.wal().synced_len(), 0);
    let restarted = MmapStorage::new(storage.log_image()).unwrap();
    assert!(same(&restarted.get_document(&5).unwrap().unwrap(), &doc));
}

#[test]
fn torn_last_record_is_discarded_on_restart() {
    let mut storage = MmapStorage::new(&[]).unwrap();
    storage.store_document(&document(1, "kept")).unwrap();
    storage.store_document(&document(2, "kept too")).unwrap();
    let whole = storage.log_image().to_vec();
    storage.store_document(&document(3, "torn")).unwrap();
    let full = storage.log_image().to_vec();
    for cut in whole.len()..full.len() {
        let restarted = MmapStorage::new(&full[..cut]).unwrap();
        let mut ids = restarted.list_documents().unwrap();
        ids.sort();
        assert_eq!(ids, vec![1, 2]);
        assert_eq!(restarted.get_document(&2).unwrap().unwrap().content, "kept too");
        assert_eq!(restarted.log_image(), &whole[..]);
    }
    let restarted = MmapStorage::new(&full).unwrap();
    assert_eq!(restarted.list_documents().unwrap().len(), 3);
}

#[test]
fn engine_goes_on_after_a_torn_tail() {
    let mut storage = MmapStorage::new(&[]).unwrap();
    storage.store_document(&document(1, "kept")).unwrap();
    let mut image = storage.log_image().to_vec();
    image.extend_from_slice(&[40, 0, 0, 0, 1, 2, 3]);
    let mut restarted = MmapStorage::new(&image).unwrap();
    restarted.store_document(&document(2, "after the crash")).unwrap();
    let again = MmapStorage::new(restarted.log_image()).unwrap();
    let mut ids = again.list_documents().unwrap();
    ids.sort();
    assert_eq!(ids, vec![1, 2]);
}

#[test]
fn corrupt_record_stops_recovery() {
    let mut storage = MmapStorage::new(&[]).unwrap();
    storage.store_document(&document(1, "fine")).unwrap();
    let mut image = storage.log_image().to_vec();
    image.extend_from_slice(&encode_frame(b"garbage").unwrap());
    assert!(matches!(MmapStorage::new(&image), Err(StorageError::CorruptLog)));
}

#[test]
fn index_store_get_list() {
    let mut storage = MmapStorage::new(&[]).unwrap();
    assert!(storage.list_indices().unwrap().is_empty());
    let a = Index::from_parts(1, "a".to_string(), vec![10], 1);
    let b = Index::from_parts(2, "b".to_string(), vec![], 2);
    storage.store_index(&a).unwrap();
    storage.store_index(&b).unwrap();
    let replaced = Index::from_parts(1, "a2".to_string(), vec![10, 11], 1);
    storage.store_index(&replaced).unwrap();
    let mut listing = storage.list_indices().unwrap();
    listing.sort_by_key(|index| index.id);
    assert_eq!(listing.len(), 2);
    assert_eq!(listing[0].name, "a2");
    assert_eq!(listing[0].documents, vec![10, 11]);
    assert_eq!(listing[1].name, "b");
    assert!(storage.get_index(&3).unwrap().is_none());
    // Indices do not touch the documents.
    assert!(storage.list_documents().unwrap().is_empty());
}

#[test]
fn keys_of_a_map() {
    let mut map: HashMap<u128, &str> = HashMap::new();
    assert!(keys_of(&map).is_empty());
    map.insert(3, "c");
    map.insert(1, "a");
    map.insert(2, "b");
    let mut keys = keys_of(&map);
    keys.sort();
    assert_eq!(keys, vec![1, 2, 3]);
}

#[test]
fn scenario_hello_document_and_index() {
    let mut storage = MmapStorage::new(&[]).unwrap();
    let mut metadata = HashMap::new();
    metadata.insert("k".to_string(), "v".to_string());
    let doc = ReviewDocument::new("hello".to_string(), metadata.clone());
    storage.store_document(&doc).unwrap();
    let found = storage.get_document(&doc.id).unwrap().unwrap();
    assert_eq!(found.content, "hello");
    assert_eq!(found.metadata, metadata);
    assert_ne!(found.timestamp, 0);
    assert_eq!(found.timestamp, doc.timestamp);

    let mut index = Index::new("idx".to_string());
    index.add_document(doc.id);
    index.add_document(doc.id);
    storage.store_index(&index).unwrap();
    let found = storage.get_index(&index.id).unwrap().unwrap();
    assert_eq!(found.documents, vec![doc.id]);
    assert_eq!(found.documents.len(), 1);
    assert_eq!(found.name, "idx");
}

#[test]
fn compaction_keeps_the_store_and_shortens_the_log() {
    let mut storage = MmapStorage::new(&[]).unwrap();
    for round in 0..5u64 {
        for id in 1..=3u128 {
            let mut doc = document(id, "text");
            doc.timestamp = round;
            storage.store_document(&doc).unwrap();
        }
    }
    storage.store_document(&document(4, "gone")).unwrap();
    storage.delete_document(&4).unwrap();
    storage.store_index(&Index::from_parts(9, "idx".to_string(), vec![1, 2], 0)).unwrap();
    storage.flush().unwrap();
    let long = storage.log_image().len();
    assert_eq!(storage.wal().entries().unwrap().len(), 18);

    assert_eq!(storage.compact(), Ok(()));
    assert_eq!(storage.wal().entries().unwrap().len(), 4);
    assert!(storage.log_image().len() < long);
    assert_eq!(storage.wal().synced_len(), 0);
    let mut ids = storage.list_documents().unwrap();
    ids.sort();
    assert_eq!(ids, vec![1, 2, 3]);
    assert_eq!(storage.get_document(&2).unwrap().unwrap().timestamp, 4);

    let restarted = MmapStorage::new(storage.log_image()).unwrap();
    let mut ids = restarted.list_documents().unwrap();
    ids.sort();
    assert_eq!(ids, vec![1, 2, 3]);
    for id in 1..=3u128 {
        let found = restarted.get_document(&id).unwrap().unwrap();
        assert_eq!(found.timestamp, 4);
        assert_eq!(found.content, "text");
        assert_eq!(found.metadata.get("k").unwrap(), "v");
    }
    assert!(restarted.get_document(&4).unwrap().is_none());
    assert_eq!(restarted.get_index(&9).unwrap().unwrap().documents, vec![1, 2]);
}

#[test]
fn compaction_of_an_empty_store_gives_an_empty_log() {
    let mut storage = MmapStorage::new(&[]).unwrap();
    storage.store_document(&document(1, "a")).unwrap();
    storage.delete_document(&1).unwrap();
    assert!(!storage.log_image().is_empty());
    storage.compact().unwrap();
    assert!(storage.log_image().is_empty());
    assert!(storage.list_documents().unwrap().is_empty());
}

#[test]
fn delete_on_a_fresh_engine_finds_nothing() {
    let mut storage = MmapStorage::new(&[]).unwrap();
    assert_eq!(storage.delete_document(&77), Ok(false));
    // The deletion is logged all the same.
    assert_eq!(storage.wal().entries().unwrap().len(), 1);
}

#[test]
fn commit_goes_by_what_the_encoder_gave() {
    let mut storage = MmapStorage::new(&[]).unwrap();
    let doc = document(1, "a");
    let encoded = encode_entry(&WalEntry::Document(doc.clone()));
    let payload = encoded.clone().unwrap();
    assert_eq!(storage.commit(WalEntry::Document(doc.clone()), encoded), Ok(false));
    assert_eq!(storage.log_image()[..4], (payload.len() as u32).to_le_bytes());
    assert_eq!(&storage.log_image()[4..], &payload[..]);
    assert!(same(&storage.get_document(&1).unwrap().unwrap(), &doc));

    // The identifier is in use now.
    let again = encode_entry(&WalEntry::Document(doc.clone()));
    assert_eq!(storage.commit(WalEntry::Document(doc.clone()), again), Ok(true));
    let gone = encode_entry(&WalEntry::Delete(1));
    assert_eq!(storage.commit(WalEntry::Delete(1), gone), Ok(true));
    let gone = encode_entry(&WalEntry::Delete(1));
    assert_eq!(storage.commit(WalEntry::Delete(1), gone), Ok(false));

    let index = Index::from_parts(5, "i".to_string(), vec![1], 0);
    let encoded = encode_entry(&WalEntry::Index(index.clone()));
    assert_eq!(storage.commit(WalEntry::Index(index.clone()), encoded), Ok(false));
    let encoded = encode_entry(&WalEntry::Index(index.clone()));
    assert_eq!(storage.commit(WalEntry::Index(index), encoded), Ok(true));
    assert_eq!(storage.list_indices().unwrap().len(), 1);
}

#[test]
fn commit_of_a_failed_encoding_changes_nothing() {
    let mut storage = MmapStorage::new(&[]).unwrap();
    storage.store_document(&document(1, "a")).unwrap();
    let image = storage.log_image().to_vec();
    let r = storage.commit(WalEntry::Delete(1), Err(StorageError::Serialization));
    assert_eq!(r, Err(StorageError::Serialization));
    assert_eq!(storage.log_image(), &image[..]);
    assert!(storage.get_document(&1).unwrap().is_some());
}

#[test]
fn second_store_of_an_index_replaces_it() {
    let mut storage = MmapStorage::new(&[]).unwrap();
    let mut index = Index::new("test_index".to_string());
    assert_eq!(storage.store_index(&index), Ok(()));
    let doc = ReviewDocument::new("Test content".to_string(), HashMap::new());
    assert_eq!(storage.store_document(&doc), Ok(()));
    index.add_document(doc.id);
    assert_eq!(storage.store_index(&index), Ok(()));
    let found = storage.get_index(&index.id).unwrap().unwrap();
    assert_eq!(found.documents, vec![doc.id]);
    assert_eq!(storage.list_indices().unwrap().len(), 1);
    assert_eq!(storage.list_documents().unwrap(), vec![doc.id]);
}
