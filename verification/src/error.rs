//! Errors of the frame codec.

use vstd::prelude::*;

verus! {

/// The category under which an error of the codec travels where errors are
/// I/O errors.
#[derive(Clone, Copy, Debug, PartialEq, Eq, Structural)]
pub enum ErrorKind {
    /// The data ended before it was complete.
    UnexpectedEof,
    /// The data is there, and it is not what it should be.
    InvalidData,
    /// The caller asked for something that cannot be written.
    InvalidInput,
}

/// Why a frame could not be read.
///
/// Reaching the end of the input exactly at a frame boundary is no error; the
/// readers report it as `Ok(None)`.
#[derive(Clone, Copy, Debug, PartialEq, Eq, Structural)]
pub enum DecodeError {
    /// The input ended inside a header, a payload or a trailing checksum.
    Truncated,
    /// The checksum over header and payload disagrees with the stored one.
    ChecksumMismatch,
    /// The frame is intact, but its offset range does not fit in 64 bits.
    OffsetOverflow,
}

impl DecodeError {
    /// The category of this error: a truncation is an unexpected end of
    /// input, everything else is invalid data.
    pub fn kind(&self) -> (kind: ErrorKind)
        ensures
            kind == match *self {
                DecodeError::Truncated => ErrorKind::UnexpectedEof,
                DecodeError::ChecksumMismatch => ErrorKind::InvalidData,
                DecodeError::OffsetOverflow => ErrorKind::InvalidData,
            },
    {
        match self {
            DecodeError::Truncated => ErrorKind::UnexpectedEof,
            DecodeError::ChecksumMismatch | DecodeError::OffsetOverflow => ErrorKind::InvalidData,
        }
    }
}

/// Why a commit could not be written.
#[derive(Clone, Copy, Debug, PartialEq, Eq, Structural)]
pub enum EncodeError {
    /// The commit holds no records. Its frame could start with a header of
    /// all zeroes, which readers take for the end of the log.
    EmptyCommit,
    /// The record buffer is longer than the 32-bit length field can say.
    RecordsTooLong,
}

impl EncodeError {
    /// The category of this error: the commit handed in is invalid input.
    pub fn kind(&self) -> (kind: ErrorKind)
        ensures
            kind == ErrorKind::InvalidInput,
    {
        ErrorKind::InvalidInput
    }
}

} // verus!
