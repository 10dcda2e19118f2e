//! What can go wrong while an archive is read.

use vstd::prelude::*;

verus! {

/// What a byte source reports when a read or a seek fails.
#[derive(Debug, PartialEq, Eq)]
pub struct Failure {
    /// The source's own account of the failure.
    pub message: String,
}

/// The operation on the byte source that failed.
#[derive(Clone, Copy, Debug, PartialEq, Eq)]
pub enum Operation {
    Read,
    Seek,
}

/// The numeric header fields that the reader decodes.
#[derive(Clone, Copy, Debug, PartialEq, Eq)]
pub enum Field {
    Size,
    Checksum,
}

/// Why a numeric field could not be decoded.
#[derive(Clone, Copy, Debug, PartialEq, Eq)]
pub enum Fault {
    /// The field holds no digits, or something that is not an octal digit.
    NotOctal,
    /// The number does not fit in 64 bits.
    TooLarge,
}

/// A header field that could not be decoded.
#[derive(Clone, Copy, Debug, PartialEq, Eq)]
pub struct FieldError {
    pub field: Field,
    pub fault: Fault,
}

/// The ways in which a header can be corrupt.
#[derive(Clone, Copy, Debug, PartialEq, Eq)]
pub enum Corruption {
    /// A record of zeros was not followed by a second one.
    LoneZeroBlock,
    /// The checksum stored in the header is not the checksum of the header.
    ChecksumMismatch,
    /// The declared size puts the next header beyond the largest offset.
    BodyOutOfRange,
}

/// An error met while walking an archive.
#[derive(Debug, PartialEq, Eq)]
pub enum Error {
    /// The byte source failed.
    Io { operation: Operation, cause: Failure },
    /// The source ended before a whole header, or before the bytes to be
    /// discarded, had been read.
    UnexpectedEof,
    /// A header is corrupt.
    HeaderCorruption(Corruption),
    /// A header field is malformed.
    FieldDecode(FieldError),
    /// A streaming traversal was asked for on an archive that is no longer at
    /// position 0.
    NotAtStart,
}

impl Error {
    /// Whether this error came from the byte source itself.
    pub open spec fn is_io(self) -> bool {
        self is Io
    }
}

} // verus!
