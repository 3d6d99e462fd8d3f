//! The ways in which an operation on an archive can fail.

use vstd::prelude::*;

verus! {

/// Why an operation on an archive failed. The first two say that the archive
/// is broken or out of reach; the last three say that the path is wrong.
#[derive(Clone, Copy, Debug, PartialEq, Eq, Structural)]
pub enum Pk2Error {
    /// The container could not be read or written, or a read came up short.
    IoError,
    /// A record handed in for decoding is not exactly one record long.
    InvalidRecord,
    /// A segment of the path names no child of the directory it is looked up in.
    NotFound,
    /// The path goes on below an entry that is a file.
    NotAContainer,
    /// The entry that was asked for as a file is not one.
    NotAFile,
}

} // verus!
