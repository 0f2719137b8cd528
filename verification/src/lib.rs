//! A single-node document and index store: a write-ahead log of framed
//! records, an append-only segment of bytes, and an engine whose in-memory
//! maps are always the replay of its log.
//!
//! The library holds no file. It keeps the image of the log and the bytes of
//! a segment in memory and says, byte for byte, what has to stand on
//! storage; reading and writing files is left to the program around it.

pub mod api;
pub mod codec;
pub mod document;
pub mod error;
pub mod framing;
pub mod guarantees;
pub mod ident;
pub mod index;
pub mod model;
pub mod segment;
pub mod storage;
pub mod wal;

pub use codec::WalEntry;
pub use document::ReviewDocument;
pub use error::StorageError;
pub use index::Index;
pub use segment::SegmentFile;
pub use storage::MmapStorage;
pub use wal::WriteAheadLog;
