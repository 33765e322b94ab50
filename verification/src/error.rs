//! The errors of the library.

use vstd::prelude::*;

verus! {

/// Why an operation of the library failed.
#[derive(Debug, Clone, PartialEq, Eq)]
pub enum Error {
    /// The path names no file.
    NotFound(String),
    /// The path names something that is not a regular file.
    NotARegularFile(String),
    /// Any other failure of the filesystem, with its message.
    IO(String),
    /// A mutation was asked of a read-only filesystem.
    ReadOnlyFs,
    /// The path does not lie under the base path.
    PathEscape(String),
    /// After linking, the new name does not show the existing file. Both
    /// relative paths are kept; the backup of the new file is left in place.
    Consistency { existing: String, new: String },
    /// A stored index cannot be loaded.
    Codec(String),
    /// Anything else, with its message.
    Generic(String),
}

/// The library's result type.
pub type Result<T> = std::result::Result<T, Error>;

} // verus!
