//! Errors of the storage system.

use vstd::prelude::*;

verus! {

/// What can go wrong in the storage system. Failures of the databases and
/// of the file system are carried as their message text.
#[derive(Debug, Clone)]
pub enum StoreError {
    /// The KV database failed.
    KvError(String),
    /// The metadata database failed.
    MetaError(String),
    /// A value could not be encoded or decoded.
    SerializationError(String),
    /// The file system failed.
    IoError(String),
    /// No value is stored under the key.
    KeyNotFound(String),
    /// No metadata is stored under the key.
    MetaNotFound(String),
    /// The request cannot be served as given.
    InvalidArgument(String),
}

/// The message of an error: a fixed label, then the detail it carries.
pub open spec fn error_message(e: StoreError) -> Seq<char> {
    match e {
        StoreError::KvError(s) => "KV database error: "@ + s@,
        StoreError::MetaError(s) => "Meta database error: "@ + s@,
        StoreError::SerializationError(s) => "Serialization error: "@ + s@,
        StoreError::IoError(s) => "IO error: "@ + s@,
        StoreError::KeyNotFound(s) => "Key not found: "@ + s@,
        StoreError::MetaNotFound(s) => "Meta not found: "@ + s@,
        StoreError::InvalidArgument(s) => "Invalid argument: "@ + s@,
    }
}

impl StoreError {
    /// The error's message, as the error's display text.
    pub fn to_string(&self) -> (s: String)
        ensures
            s@ == error_message(*self),
    {
        match self {
            StoreError::KvError(s) => crate::text::concat2("KV database error: ", s.as_str()),
            StoreError::MetaError(s) => crate::text::concat2("Meta database error: ", s.as_str()),
            StoreError::SerializationError(s) => crate::text::concat2("Serialization error: ", s.as_str()),
            StoreError::IoError(s) => crate::text::concat2("IO error: ", s.as_str()),
            StoreError::KeyNotFound(s) => crate::text::concat2("Key not found: ", s.as_str()),
            StoreError::MetaNotFound(s) => crate::text::concat2("Meta not found: ", s.as_str()),
            StoreError::InvalidArgument(s) => crate::text::concat2("Invalid argument: ", s.as_str()),
        }
    }
}

} // verus!
