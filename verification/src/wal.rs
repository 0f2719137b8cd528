//! The write-ahead log: an append-only image of framed records, with a mark
//! behind the last byte that is known to be on stable storage.

use crate::codec::{
    decode_entry, decoded_entry, encode_entry, loggable, EntryView, WalEntry,
};
use crate::document::ReviewDocument;
use crate::error::StorageError;
use crate::framing::{
    complete_len, complete_prefix_len, encode_frame, frame, is_whole, lemma_append_frame,
    lemma_complete_prefix, parse_records, payload_views, records,
};
use crate::index::Index;
use crate::model::{all_decodable, appended, decode_all, log_entries};
use vstd::prelude::*;
use vstd::slice::{slice_subrange, slice_to_vec};

verus! {

/// The log of all mutations, in the order in which they were made.
pub struct WriteAheadLog {
    bytes: Vec<u8>,
    synced: usize,
}

/// What a log is: its image, byte for byte, and the length of the front part
/// that is known to be on stable storage.
pub struct LogView {
    pub image: Seq<u8>,
    pub synced: int,
}

/// The entries that a vector of entries holds, as mathematical values.
pub open spec fn entry_views(entries: Seq<WalEntry>) -> Seq<EntryView> {
    entries.map_values(|e: WalEntry| e@)
}

impl View for WriteAheadLog {
    type V = LogView;

    closed spec fn view(&self) -> LogView {
        LogView { image: self.bytes@, synced: self.synced as int }
    }
}

impl WriteAheadLog {
    /// The image holds whole records only, and the mark lies inside it.
    pub open spec fn wf(&self) -> bool {
        &&& is_whole(self@.image)
        &&& 0 <= self@.synced <= self@.image.len()
    }

    /// Opens a log over the image that was found on storage. A torn tail,
    /// left by a write that did not finish, is cut off; what remains counts
    /// as being on stable storage.
    pub fn new(image: &[u8]) -> (log: Self)
        ensures
            log.wf(),
            log@.image == image@.take(complete_len(image@)),
            log@.synced == log@.image.len(),
            records(log@.image) == records(image@),
    {
        let end = complete_prefix_len(image);
        proof {
            lemma_complete_prefix(image@);
        }
        let bytes = slice_to_vec(slice_subrange(image, 0, end));
        WriteAheadLog { bytes, synced: end }
    }

    /// The image of the log.
    pub fn image(&self) -> (bytes: &[u8])
        ensures
            bytes@ == self@.image,
    {
        self.bytes.as_slice()
    }

    /// The length of the image in bytes.
    pub fn len(&self) -> (n: usize)
        ensures
            n == self@.image.len(),
    {
        self.bytes.len()
    }

    /// Whether the log holds no byte.
    pub fn is_empty(&self) -> (empty: bool)
        ensures
            empty == (self@.image.len() == 0),
    {
        self.bytes.len() == 0
    }

    /// The length of the front part that is known to be on stable storage.
    pub fn synced_len(&self) -> (n: usize)
        ensures
            n == self@.synced,
    {
        self.synced
    }

    /// Appends one record that carries `payload`. A payload too long for
    /// the length prefix is refused, and the log stays as it was.
    pub fn append_payload(&mut self, payload: &[u8]) -> (r: Result<(), StorageError>)
        ensures
            old(self).wf() ==> final(self).wf(),
            final(self)@.synced == old(self)@.synced,
            payload@.len() <= u32::MAX ==> r is Ok && final(self)@.image == old(self)@.image
                + frame(payload@) && final(self)@.image.len() == old(self)@.image.len() + 4
                + payload@.len(),
            payload@.len() > u32::MAX ==> r == Err::<(), StorageError>(
                StorageError::Serialization,
            ) && final(self)@ == old(self)@,
    {
        match encode_frame(payload) {
            Ok(record) => {
                let ghost before = self.bytes@;
                proof {
                    if is_whole(before) {
                        lemma_append_frame(before, payload@);
                    }
                }
                self.bytes.extend_from_slice(record.as_slice());
                assert(self.bytes@ =~= before + frame(payload@));
                Ok(())
            },
            Err(e) => Err(e),
        }
    }

    /// Appends the record of one entry. It succeeds exactly where the entry
    /// can be logged. On success the image has grown by exactly that
    /// record; on failure nothing has changed.
    pub fn write_entry(&mut self, entry: &WalEntry) -> (r: Result<(), StorageError>)
        ensures
            old(self).wf() ==> final(self).wf(),
            final(self)@.synced == old(self)@.synced,
            r is Ok <==> loggable(entry@),
            match r {
                Ok(()) => appended(old(self)@.image, final(self)@.image, entry@),
                Err(e) => e == StorageError::Serialization && final(self)@ == old(self)@,
            },
    {
        match encode_entry(entry) {
            Ok(payload) => {
                let r = self.append_payload(payload.as_slice());
                proof {
                    if r is Ok {
                        assert(decoded_entry(payload@) == Some(entry@));
                    }
                }
                r
            },
            Err(e) => Err(e),
        }
    }

    /// Logs that `doc` was stored. Succeeds exactly where that entry can
    /// be logged; on failure nothing has changed.
    pub fn write_document_entry(&mut self, doc: &ReviewDocument) -> (r: Result<(), StorageError>)
        ensures
            old(self).wf() ==> final(self).wf(),
            final(self)@.synced == old(self)@.synced,
            r is Ok <==> loggable(EntryView::Document(doc@)),
            match r {
                Ok(()) => appended(
                    old(self)@.image,
                    final(self)@.image,
                    EntryView::Document(doc@),
                ),
                Err(e) => e == StorageError::Serialization && final(self)@ == old(self)@,
            },
    {
        let entry = WalEntry::Document(doc.clone());
        self.write_entry(&entry)
    }

    /// Logs that the document under `id` was deleted. Succeeds exactly
    /// where that entry can be logged; on failure nothing has changed.
    pub fn write_delete_entry(&mut self, id: &u128) -> (r: Result<(), StorageError>)
        ensures
            old(self).wf() ==> final(self).wf(),
            final(self)@.synced == old(self)@.synced,
            r is Ok <==> loggable(EntryView::Delete(*id)),
            match r {
                Ok(()) => appended(old(self)@.image, final(self)@.image, EntryView::Delete(*id)),
                Err(e) => e == StorageError::Serialization && final(self)@ == old(self)@,
            },
    {
        let entry = WalEntry::Delete(*id);
        self.write_entry(&entry)
    }

    /// Logs that `index` was stored. Succeeds exactly where that entry can
    /// be logged; on failure nothing has changed.
    pub fn write_index_entry(&mut self, index: &Index) -> (r: Result<(), StorageError>)
        ensures
            old(self).wf() ==> final(self).wf(),
            final(self)@.synced == old(self)@.synced,
            r is Ok <==> loggable(EntryView::Index(index@)),
            match r {
                Ok(()) => appended(old(self)@.image, final(self)@.image, EntryView::Index(index@)),
                Err(e) => e == StorageError::Serialization && final(self)@ == old(self)@,
            },
    {
        let entry = WalEntry::Index(index.clone());
        self.write_entry(&entry)
    }

    /// Records that all of the image has reached stable storage. To be
    /// called once the storage has confirmed it.
    pub fn sync(&mut self) -> (r: Result<(), StorageError>)
        ensures
            r is Ok,
            final(self)@.image == old(self)@.image,
            final(self)@.synced == old(self)@.image.len(),
            old(self).wf() ==> final(self).wf(),
    {
        self.synced = self.bytes.len();
        Ok(())
    }

    /// Decodes the entries of the log, in the order in which they were
    /// written. A whole record that stands for no entry spoils the log.
    pub fn entries(&self) -> (r: Result<Vec<WalEntry>, StorageError>)
        ensures
            match r {
                Ok(entries) => log_entries(self@.image) == Some(entry_views(entries@)),
                Err(e) => e == StorageError::CorruptLog && log_entries(self@.image) is None,
            },
    {
        let (payloads, _) = parse_records(self.bytes.as_slice());
        let ghost wanted = records(self@.image);
        let mut out: Vec<WalEntry> = Vec::new();
        let mut i: usize = 0;
        while i < payloads.len()
            invariant
                i <= payloads@.len(),
                payload_views(payloads@) == wanted,
                wanted == records(self@.image),
                out@.len() == i,
                forall|j: int|
                    0 <= j < i ==> (#[trigger] decoded_entry(wanted[j])) == Some(out@[j]@),
            decreases payloads@.len() - i,
        {
            match decode_entry(payloads[i].as_slice()) {
                Ok(entry) => {
                    assert(wanted[i as int] == payloads@[i as int]@);
                    out.push(entry);
                },
                Err(e) => {
                    assert(wanted[i as int] == payloads@[i as int]@);
                    assert(!all_decodable(wanted));
                    return Err(e);
                },
            }
            i += 1;
        }
        proof {
            assert(all_decodable(wanted));
            assert(decode_all(wanted).unwrap() =~= entry_views(out@));
        }
        Ok(out)
    }
}

} // verus!
