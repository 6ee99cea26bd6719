//! Error types for the storage core and the write-ahead log.

use vstd::prelude::*;

verus! {

/// A storage-engine error.
///
/// Decode failures during block scans are local: the affected slot is
/// skipped. Every other error propagates to the caller unmodified.
#[derive(Debug)]
pub enum Error {
    /// A file operation failed; the payload carries the path context.
    IoError(String),
    /// Header or footer magic did not match.
    BadMagic,
    /// Unknown compression code in a block header.
    BadCompression,
    /// Buffer too short for the framed entity.
    Truncated,
    /// WAL entry checksum mismatch.
    CorruptedEntry,
    /// Document id or value length exceeds the format limits.
    ArgumentOutOfRange,
    /// Transactional operation on an id that is not active.
    UnknownTransaction,
    /// Any other failure, described in text.
    Other(String),
}

impl Error {
    /// A short text for the error, for callers that print it.
    pub fn message(&self) -> (r: String)
        ensures
            r@.len() > 0,
    {
        let text: &str = match self {
            Error::IoError(_) => "io error",
            Error::BadMagic => "wrong magic number",
            Error::BadCompression => "invalid compression type",
            Error::Truncated => "buffer too short",
            Error::CorruptedEntry => "checksum mismatch",
            Error::ArgumentOutOfRange => "argument out of range",
            Error::UnknownTransaction => "transaction not active",
            Error::Other(_) => "error",
        };
        proof {
            reveal_strlit("io error");
            reveal_strlit("wrong magic number");
            reveal_strlit("invalid compression type");
            reveal_strlit("buffer too short");
            reveal_strlit("checksum mismatch");
            reveal_strlit("argument out of range");
            reveal_strlit("transaction not active");
            reveal_strlit("error");
        }
        text.to_owned()
    }
}

/// A write-ahead-log error.
#[derive(Debug)]
pub enum WalError {
    /// A file operation failed; the payload carries the path context.
    Io(String),
    /// WAL entry checksum mismatch.
    CorruptedEntry,
    /// A log file whose preamble is not a valid WAL header.
    InvalidSegment,
    /// The log file reached its configured size limit.
    SegmentFull,
    /// A configuration value that the log cannot work with.
    InvalidConfig(String),
    /// Any other failure, described in text.
    Other(String),
}

} // verus!
