use puresearch::ident::{seconds_or_zero, KIND_MASK, RANDOM_KIND};
use puresearch::{Index, ReviewDocument};
use std::collections::HashMap;

#[test]
fn add_document_twice_keeps_one_copy() {
    let mut index = Index::new("idx".to_string());
    index.add_document(7);
    assert_eq!(index.documents, vec![7]);
    index.add_document(7);
    assert_eq!(index.documents, vec![7]);
    assert_eq!(index.documents.iter().filter(|d| **d == 7).count(), 1);
}

#[test]
fn add_document_keeps_the_order_of_arrival() {
    let mut index = Index::from_parts(1, "n".to_string(), Vec::new(), 0);
    for id in [5u128, 3, 5, 9, 3, 1] {
        index.add_document(id);
    }
    assert_eq!(index.documents, vec![5, 3, 9, 1]);
    assert!(index.contains_document(9));
    assert!(!index.contains_document(2));
    assert_eq!((index.id, index.created_at), (1, 0));
    assert_eq!(index.name, "n");
}

#[test]
fn new_index_is_empty_and_named() {
    let index = Index::new("fresh".to_string());
    assert_eq!(index.name, "fresh");
    assert!(index.documents.is_empty());
    assert_ne!(index.created_at, 0);
    assert_eq!(index.id & KIND_MASK, RANDOM_KIND);
}

#[test]
fn new_documents_have_distinct_random_ids() {
    let a = ReviewDocument::new("a".to_string(), HashMap::new());
    let b = ReviewDocument::new("b".to_string(), HashMap::new());
    assert_ne!(a.id, b.id);
    assert_ne!(a.id, 0);
    assert_eq!(a.id & KIND_MASK, RANDOM_KIND);
    assert_eq!(b.id & KIND_MASK, RANDOM_KIND);
    assert_eq!(a.content, "a");
    // Some time after the start of 2020.
    assert!(a.timestamp > 1_577_836_800);
}

#[test]
fn clones_are_equal_field_by_field() {
    let mut metadata = HashMap::new();
    metadata.insert("k".to_string(), "v".to_string());
    let doc = ReviewDocument::from_parts(3, "c".to_string(), metadata.clone(), 8);
    let copy = doc.clone();
    assert_eq!((copy.id, copy.timestamp), (3, 8));
    assert_eq!(copy.content, "c");
    assert_eq!(copy.metadata, metadata);
    let index = Index::from_parts(4, "i".to_string(), vec![1, 2], 9);
    let copy = index.clone();
    assert_eq!((copy.id, copy.created_at), (4, 9));
    assert_eq!(copy.name, "i");
    assert_eq!(copy.documents, vec![1, 2]);
}

#[test]
fn clock_before_the_epoch_stamps_zero() {
    assert_eq!(seconds_or_zero(None), 0);
    assert_eq!(seconds_or_zero(Some(0)), 0);
    assert_eq!(seconds_or_zero(Some(1_700_000_000)), 1_700_000_000);
    assert_eq!(seconds_or_zero(Some(u64::MAX)), u64::MAX);
}
