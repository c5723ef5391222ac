//! The failures that the engine reports.
use vstd::prelude::*;

verus! {

/// Why an operation of the engine failed.
#[derive(PartialEq, Eq, Structural, Debug, Clone, Copy)]
pub enum VcError {
    /// The input ended in the middle of a value.
    UnexpectedEof,
    /// A size encoding holds a value that does not fit in `usize`.
    SizeOverflow,
    /// A packfile object header names a type that is not known.
    UnknownObjectType,
    /// A packfile object is an offset delta, which is not supported.
    OfsDelta,
    /// A delta holds an insert instruction of length zero.
    InvalidDeltaInstruction,
    /// A delta copy instruction reaches past the end of its base.
    CopyOutOfRange,
    /// A delta names a base object that is not in the index.
    MissingBaseObject,
    /// A zlib stream could not be decompressed.
    Decompress,
    /// A zlib stream could not be produced.
    Compress,
    /// Bytes that must be UTF-8 are not.
    InvalidUtf8,
    /// A value could not be read as a 20-byte hash.
    InvalidHash,
    /// An object has no NUL byte ending its header.
    MissingHeaderEnd,
    /// The reference-discovery response does not start as expected.
    InvalidRefHeader,
    /// A line of the reference-discovery response is malformed.
    MalformedRefLine,
    /// A tree entry's mode is not a known decimal mode.
    InvalidMode,
    /// A tree ends in the middle of an entry.
    TruncatedTreeEntry,
    /// An object that checkout needs is not in the index.
    MissingObject,
    /// Trees nest deeper than the index can hold without repeating one.
    TreeCycle,
    /// A commit is too short to hold its tree line.
    MalformedCommit,
    /// A packfile response is shorter than its header.
    ShortPackHeader,
    /// An object's payload is not the size that its pack header gave.
    ObjectSizeMismatch,
}

} // verus!
