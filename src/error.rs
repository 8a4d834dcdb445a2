//! The ways a storage operation can fail.
use vstd::prelude::*;

verus! {

/// Why a storage operation failed. The variants that carry a `String` name
/// the path involved and the underlying cause.
#[derive(Debug, PartialEq, Eq)]
pub enum StoreError {
    /// The host could not supply the application's data directory.
    RootUnavailable(String),
    /// A directory on the way to a stored file could not be created.
    DirectoryCreateFailed(String),
    /// A file could not be written.
    WriteFailed(String),
    /// A file was missing or could not be read.
    ReadFailed(String),
    /// The listing of the image root could not be read.
    EnumerationFailed(String),
    /// A session directory could not be removed.
    DeleteFailed(String),
    /// A path or identifier would leave the storage root.
    UnsafePath,
    /// A blank argument where a non-empty one is required.
    EmptyInput,
}

} // verus!
