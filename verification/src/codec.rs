//! How an entry of the log becomes the payload of a record, and back. The
//! byte format is bincode's, applied to one flat record per entry; which
//! entry a record stands for is decided here.

use crate::document::{DocumentView, ReviewDocument};
use crate::error::StorageError;
use crate::index::{Index, IndexView};
use std::collections::HashMap;
use vstd::prelude::*;
use vstd::std_specs::hash::hash_map_deep_view_impl;

verus! {

/// The error type of bincode, carried through unread.
#[verifier::external_type_specification]
#[verifier::external_body]
pub struct ExErrorKind(bincode::ErrorKind);

/// The record kind of a stored document.
pub const KIND_DOCUMENT: u32 = 0;

/// The record kind of a deletion.
pub const KIND_DELETE: u32 = 1;

/// The record kind of a stored index.
pub const KIND_INDEX: u32 = 2;

/// One mutation, as the log keeps it.
#[derive(Debug)]
pub enum WalEntry {
    /// The document was stored, replacing any document with its identifier.
    Document(ReviewDocument),
    /// The document with this identifier was deleted.
    Delete(u128),
    /// The index was stored, replacing any index with its identifier.
    Index(Index),
}

/// What an entry is, as plain mathematical values.
pub enum EntryView {
    Document(DocumentView),
    Delete(u128),
    Index(IndexView),
}

impl View for WalEntry {
    type V = EntryView;

    open spec fn view(&self) -> EntryView {
        match self {
            WalEntry::Document(doc) => EntryView::Document(doc@),
            WalEntry::Delete(id) => EntryView::Delete(*id),
            WalEntry::Index(index) => EntryView::Index(index@),
        }
    }
}

/// The flat record that is handed to bincode: a kind, and the fields that
/// the entries of the three kinds are made of.
pub struct RawRecord {
    pub kind: u32,
    pub id: u128,
    pub text: String,
    pub attributes: HashMap<String, String>,
    pub members: Vec<u128>,
    pub seconds: u64,
}

impl View for RawRecord {
    type V = (u32, u128, Seq<char>, Map<Seq<char>, Seq<char>>, Seq<u128>, u64);

    open spec fn view(&self) -> Self::V {
        (
            self.kind,
            self.id,
            self.text@,
            self.attributes.deep_view(),
            self.members@,
            self.seconds,
        )
    }
}

/// The record that `bincode::deserialize` reads from `bytes` as a tuple of
/// kind, identifier, text, attributes, members and seconds; `None` where it
/// reports an error.
pub uninterp spec fn decoded_record(bytes: Seq<u8>) -> Option<
    (u32, u128, Seq<char>, Map<Seq<char>, Seq<char>>, Seq<u128>, u64),
>;

/// The length of what `bincode::serialize` gives for a tuple of these
/// fields; `None` where it reports an error. Both go by the fields alone:
/// the order in which a map is walked moves bytes and adds or takes none.
pub uninterp spec fn encoded_len(
    fields: (u32, u128, Seq<char>, Map<Seq<char>, Seq<char>>, Seq<u128>, u64),
) -> Option<nat>;

/// Calls `bincode::serialize` on the record's fields as one tuple. Whether it
/// succeeds, and how many bytes it gives, are by the meaning of the name
/// those of `encoded_len`. Of the bytes themselves one thing is claimed:
/// `bincode::deserialize` reads the same fields back from them, as bincode's
/// documentation shows for a value serialized and deserialized.
#[verifier::external_body]
pub(crate) fn serialize_record(record: &RawRecord) -> (r: Result<Vec<u8>, Box<bincode::ErrorKind>>)
    ensures
        match r {
            Ok(bytes) => decoded_record(bytes@) == Some(record@) && encoded_len(record@) == Some(
                bytes@.len(),
            ),
            Err(_) => encoded_len(record@) is None,
        },
{
    bincode::serialize(
        &(
            record.kind,
            record.id,
            &record.text,
            &record.attributes,
            &record.members,
            record.seconds,
        ),
    )
}

/// Calls `bincode::deserialize` on `bytes` for a tuple of the record's fields.
/// The fields that it gives are, by the meaning of the name, those of
/// `decoded_record`; an error is `None` there.
#[verifier::external_body]
pub(crate) fn deserialize_record(bytes: &[u8]) -> (r: Result<RawRecord, Box<bincode::ErrorKind>>)
    ensures
        match r {
            Ok(record) => decoded_record(bytes@) == Some(record@),
            Err(_) => decoded_record(bytes@) is None,
        },
{
    bincode::deserialize::<(u32, u128, String, HashMap<String, String>, Vec<u128>, u64)>(bytes).map(
        |(kind, id, text, attributes, members, seconds)|
            RawRecord { kind, id, text, attributes, members, seconds },
    )
}

/// The fields of the record that stands for `entry`.
pub open spec fn fields_of_entry(entry: EntryView) -> (
    u32,
    u128,
    Seq<char>,
    Map<Seq<char>, Seq<char>>,
    Seq<u128>,
    u64,
) {
    match entry {
        EntryView::Document(doc) => (
            KIND_DOCUMENT,
            doc.id,
            doc.content,
            doc.metadata,
            Seq::empty(),
            doc.timestamp,
        ),
        EntryView::Delete(id) => (KIND_DELETE, id, Seq::empty(), Map::empty(), Seq::empty(), 0),
        EntryView::Index(index) => (
            KIND_INDEX,
            index.id,
            index.name,
            Map::empty(),
            index.documents,
            index.created_at,
        ),
    }
}

/// The entry that a record with these fields stands for: by its kind a
/// document, a deletion or an index, made of the fields that the kind uses;
/// none where the kind is unknown.
pub open spec fn entry_of_fields(
    fields: (u32, u128, Seq<char>, Map<Seq<char>, Seq<char>>, Seq<u128>, u64),
) -> Option<EntryView> {
    if fields.0 == KIND_DOCUMENT {
        Some(
            EntryView::Document(
                DocumentView {
                    id: fields.1,
                    content: fields.2,
                    metadata: fields.3,
                    timestamp: fields.5,
                },
            ),
        )
    } else if fields.0 == KIND_DELETE {
        Some(EntryView::Delete(fields.1))
    } else if fields.0 == KIND_INDEX {
        Some(
            EntryView::Index(
                IndexView {
                    id: fields.1,
                    name: fields.2,
                    documents: fields.4,
                    created_at: fields.5,
                },
            ),
        )
    } else {
        None
    }
}

/// The entry that a payload stands for; none where bincode rejects the
/// payload or the record's kind is unknown.
pub open spec fn decoded_entry(payload: Seq<u8>) -> Option<EntryView> {
    match decoded_record(payload) {
        Some(fields) => entry_of_fields(fields),
        None => None,
    }
}

/// Whether an entry can be logged: the serializer takes its record, and the
/// payload that it gives is short enough for the length prefix of a record.
pub open spec fn loggable(entry: EntryView) -> bool {
    encoded_len(fields_of_entry(entry)) matches Some(n) && n <= u32::MAX
}

/// The record of an entry stands for that entry.
pub proof fn lemma_entry_of_its_fields(entry: EntryView)
    ensures
        entry_of_fields(fields_of_entry(entry)) == Some(entry),
{
}

/// A map without entries has no keys or values as text either.
pub proof fn lemma_no_entries_no_text(attributes: HashMap<String, String>)
    requires
        attributes@ == Map::<String, String>::empty(),
    ensures
        attributes.deep_view() == Map::<Seq<char>, Seq<char>>::empty(),
{
    reveal(hash_map_deep_view_impl);
    assert(attributes.deep_view() =~= Map::<Seq<char>, Seq<char>>::empty());
}

/// Lays an entry out as the flat record that stands for it.
pub fn record_of_entry(entry: &WalEntry) -> (record: RawRecord)
    ensures
        record@ == fields_of_entry(entry@),
{
    match entry {
        WalEntry::Document(doc) => {
            let copy = doc.clone();
            RawRecord {
                kind: KIND_DOCUMENT,
                id: copy.id,
                text: copy.content,
                attributes: copy.metadata,
                members: Vec::new(),
                seconds: copy.timestamp,
            }
        },
        WalEntry::Delete(id) => {
            let attributes: HashMap<String, String> = HashMap::new();
            proof {
                lemma_no_entries_no_text(attributes);
            }
            RawRecord {
                kind: KIND_DELETE,
                id: *id,
                text: String::new(),
                attributes,
                members: Vec::new(),
                seconds: 0,
            }
        },
        WalEntry::Index(index) => {
            let copy = index.clone();
            let attributes: HashMap<String, String> = HashMap::new();
            proof {
                lemma_no_entries_no_text(attributes);
            }
            RawRecord {
                kind: KIND_INDEX,
                id: copy.id,
                text: copy.name,
                attributes,
                members: copy.documents,
                seconds: copy.created_at,
            }
        },
    }
}

/// Reads a flat record as the entry that it stands for. A record of unknown
/// kind stands for none.
pub fn entry_of_record(record: RawRecord) -> (entry: Option<WalEntry>)
    ensures
        match entry {
            Some(e) => entry_of_fields(record@) == Some(e@),
            None => entry_of_fields(record@) is None,
        },
{
    if record.kind == KIND_DOCUMENT {
        Some(
            WalEntry::Document(
                ReviewDocument::from_parts(
                    record.id,
                    record.text,
                    record.attributes,
                    record.seconds,
                ),
            ),
        )
    } else if record.kind == KIND_DELETE {
        Some(WalEntry::Delete(record.id))
    } else if record.kind == KIND_INDEX {
        Some(
            WalEntry::Index(
                Index::from_parts(record.id, record.text, record.members, record.seconds),
            ),
        )
    } else {
        None
    }
}

/// Turns what the serializer gave into the payload to write: its bytes, or
/// a serialization error in place of the serializer's own.
pub fn payload_of_serialized(serialized: Result<Vec<u8>, Box<bincode::ErrorKind>>) -> (r: Result<
    Vec<u8>,
    StorageError,
>)
    ensures
        match serialized {
            Ok(bytes) => r == Ok::<Vec<u8>, StorageError>(bytes),
            Err(_) => r == Err::<Vec<u8>, StorageError>(StorageError::Serialization),
        },
{
    match serialized {
        Ok(bytes) => Ok(bytes),
        Err(_) => Err(StorageError::Serialization),
    }
}

/// Turns what the deserializer gave into an entry: the entry that the record
/// stands for, or a corrupt-log error where the deserializer failed or the
/// record's kind is unknown.
pub fn entry_of_deserialized(deserialized: Result<RawRecord, Box<bincode::ErrorKind>>) -> (r:
    Result<WalEntry, StorageError>)
    ensures
        match deserialized {
            Ok(record) => match r {
                Ok(entry) => entry_of_fields(record@) == Some(entry@),
                Err(e) => e == StorageError::CorruptLog && entry_of_fields(record@) is None,
            },
            Err(_) => r matches Err(e) && e == StorageError::CorruptLog,
        },
{
    match deserialized {
        Ok(record) => match entry_of_record(record) {
            Some(entry) => Ok(entry),
            None => Err(StorageError::CorruptLog),
        },
        Err(_) => Err(StorageError::CorruptLog),
    }
}

/// Encodes an entry as the payload of a record. It succeeds exactly where
/// the serializer takes the entry's record; the payload is then as long as
/// the serializer made it, and decodes to the entry again. Where the
/// serializer fails, the error is a serialization error.
pub fn encode_entry(entry: &WalEntry) -> (r: Result<Vec<u8>, StorageError>)
    ensures
        match r {
            Ok(payload) => {
                &&& decoded_entry(payload@) == Some(entry@)
                &&& encoded_len(fields_of_entry(entry@)) == Some(payload@.len())
            },
            Err(e) => {
                &&& e == StorageError::Serialization
                &&& encoded_len(fields_of_entry(entry@)) is None
            },
        },
{
    let record = record_of_entry(entry);
    proof {
        lemma_entry_of_its_fields(entry@);
    }
    payload_of_serialized(serialize_record(&record))
}

/// Decodes the payload of a record: the entry that it stands for, or a
/// corrupt-log error where it stands for none.
pub fn decode_entry(payload: &[u8]) -> (r: Result<WalEntry, StorageError>)
    ensures
        match r {
            Ok(entry) => decoded_entry(payload@) == Some(entry@),
            Err(e) => e == StorageError::CorruptLog && decoded_entry(payload@) is None,
        },
{
    entry_of_deserialized(deserialize_record(payload))
}

} // verus!
