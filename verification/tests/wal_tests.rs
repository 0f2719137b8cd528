use puresearch::framing::encode_frame;
use puresearch::error::StorageError;
use puresearch::{Index, ReviewDocument, WalEntry, WriteAheadLog};
use std::collections::HashMap;

fn document(id: u128, content: &str) -> ReviewDocument {
    ReviewDocument::from_parts(id, content.to_string(), HashMap::new(), 1)
}

#[test]
fn new_log_is_empty() {
    let log = WriteAheadLog::new(&[]);
    assert!(log.is_empty());
    assert_eq!(log.len(), 0);
    assert_eq!(log.synced_len(), 0);
    assert!(log.entries().unwrap().is_empty());
}

#[test]
fn append_payload_frames_the_payload() {
    let mut log = WriteAheadLog::new(&[]);
    assert_eq!(log.append_payload(b"xy"), Ok(()));
    assert_eq!(log.image(), &[2, 0, 0, 0, b'x', b'y']);
    assert_eq!(log.append_payload(b""), Ok(()));
    assert_eq!(log.image(), &[2, 0, 0, 0, b'x', b'y', 0, 0, 0, 0]);
    assert_eq!(log.len(), 10);
    assert_eq!(log.synced_len(), 0);
}

#[test]
fn entries_come_back_in_the_order_written() {
    let mut log = WriteAheadLog::new(&[]);
    log.write_document_entry(&document(1, "a")).unwrap();
    log.write_delete_entry(&1).unwrap();
    log.write_index_entry(&Index::from_parts(2, "n".to_string(), vec![1], 5)).unwrap();
    log.write_document_entry(&document(3, "b")).unwrap();
    let entries = log.entries().unwrap();
    assert_eq!(entries.len(), 4);
    assert!(matches!(&entries[0], WalEntry::Document(d) if d.id == 1 && d.content == "a"));
    assert!(matches!(&entries[1], WalEntry::Delete(1)));
    assert!(matches!(&entries[2], WalEntry::Index(i) if i.id == 2 && i.documents == vec![1]));
    assert!(matches!(&entries[3], WalEntry::Document(d) if d.id == 3 && d.content == "b"));
}

#[test]
fn write_entry_appends_exactly_one_record() {
    let mut log = WriteAheadLog::new(&[]);
    log.write_entry(&WalEntry::Delete(4)).unwrap();
    let first = log.image().to_vec();
    log.write_entry(&WalEntry::Delete(5)).unwrap();
    assert_eq!(&log.image()[..first.len()], &first[..]);
    assert_eq!(log.len(), 2 * first.len());
    // 4 bytes of prefix and 52 of payload for a deletion.
    assert_eq!(first.len(), 56);
    assert_eq!(&first[..4], &[52, 0, 0, 0]);
}

#[test]
fn sync_moves_the_mark_to_the_end() {
    let mut log = WriteAheadLog::new(&[]);
    log.write_delete_entry(&4).unwrap();
    assert_eq!(log.synced_len(), 0);
    assert_eq!(log.sync(), Ok(()));
    assert_eq!(log.synced_len(), log.len());
    let image = log.image().to_vec();
    log.write_delete_entry(&5).unwrap();
    assert_eq!(log.synced_len(), image.len());
    assert!(log.len() > log.synced_len());
}

#[test]
fn opening_cuts_a_torn_tail_off() {
    let mut log = WriteAheadLog::new(&[]);
    log.write_delete_entry(&4).unwrap();
    let whole = log.image().to_vec();
    let mut image = whole.clone();
    image.extend_from_slice(&[52, 0, 0, 0, 1, 0]);
    let mut reopened = WriteAheadLog::new(&image);
    assert_eq!(reopened.image(), &whole[..]);
    assert_eq!(reopened.synced_len(), whole.len());
    // What is appended next is read back: no torn bytes stand in its way.
    reopened.write_delete_entry(&6).unwrap();
    let entries = reopened.entries().unwrap();
    assert_eq!(entries.len(), 2);
    assert!(matches!(&entries[1], WalEntry::Delete(6)));
}

#[test]
fn whole_record_that_is_no_entry_spoils_the_log() {
    let mut log = WriteAheadLog::new(&[]);
    log.write_delete_entry(&4).unwrap();
    log.append_payload(b"not an entry").unwrap();
    assert!(matches!(log.entries(), Err(StorageError::CorruptLog)));
    let image = encode_frame(&[9, 9, 9, 9]).unwrap();
    assert!(matches!(WriteAheadLog::new(&image).entries(), Err(StorageError::CorruptLog)));
}
