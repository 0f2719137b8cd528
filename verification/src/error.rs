//! The errors of the store.

use vstd::prelude::*;

verus! {

/// Why an operation of the store did not complete.
#[derive(Debug, Clone, Copy, PartialEq, Eq, Structural)]
pub enum StorageError {
    /// A read asked for bytes past the end of the mapped extent.
    OutOfBounds,
    /// A read was made on a segment that holds no bytes.
    EmptySegment,
    /// An entry could not be turned into a record of the log.
    Serialization,
    /// A whole record of the log stands for no entry.
    CorruptLog,
}

impl StorageError {
    /// A short description of the error, for people.
    pub fn message(&self) -> (text: &'static str)
        ensures
            text@ == match self {
                StorageError::OutOfBounds => "Read beyond segment bounds"@,
                StorageError::EmptySegment => "Cannot read from empty segment"@,
                StorageError::Serialization => "Entry cannot be serialized"@,
                StorageError::CorruptLog => "Log record cannot be decoded"@,
            },
    {
        match self {
            StorageError::OutOfBounds => "Read beyond segment bounds",
            StorageError::EmptySegment => "Cannot read from empty segment",
            StorageError::Serialization => "Entry cannot be serialized",
            StorageError::CorruptLog => "Log record cannot be decoded",
        }
    }
}

} // verus!
