//! Errors of the format readers and writers.

use vstd::prelude::*;

verus! {

/// Errors that can occur while reading or writing a file.
///
/// Failures that come from outside the library (the file system, JSON
/// (de)serialisation) carry their description as text.
#[derive(Debug, Clone)]
pub enum IoError {
    /// Unknown or unsupported file format.
    UnknownFormat(String),
    /// No reader available for the given format.
    NoReader(String),
    /// No writer available for the given format.
    NoWriter(String),
    /// Parse error when reading a file.
    ParseError {
        /// Error message.
        message: String,
        /// Byte offset where the error occurred.
        offset: Option<usize>,
        /// Context about what was being parsed.
        context: Option<String>,
    },
    /// Invalid data in the file.
    InvalidData(String),
    /// Missing required data.
    MissingRequired(String),
    /// Unsupported feature or version.
    Unsupported(String),
    /// I/O error.
    Io(String),
    /// JSON serialization/deserialization error.
    Json(String),
    /// Base64 decoding error.
    Base64(String),
    /// Geometry conversion error.
    GeometryError(String),
    /// Internal error (should not happen).
    Internal(String),
}

/// Result of the format readers and writers.
pub type IoResult<T> = core::result::Result<T, IoError>;

/// Whether `e` is an `InvalidData` error with exactly the message `msg`.
pub open spec fn is_invalid_data(e: IoError, msg: Seq<char>) -> bool {
    e matches IoError::InvalidData(m) && m@ == msg
}

/// Whether `e` is an `Unsupported` error with exactly the message `msg`.
pub open spec fn is_unsupported(e: IoError, msg: Seq<char>) -> bool {
    e matches IoError::Unsupported(m) && m@ == msg
}

impl IoError {
    /// A parse error with only a message.
    pub fn parse(message: String) -> (r: IoError)
        ensures
            r == (IoError::ParseError { message, offset: None, context: None }),
    {
        IoError::ParseError { message, offset: None, context: None }
    }

    /// A parse error at a byte offset.
    pub fn parse_at(message: String, offset: usize) -> (r: IoError)
        ensures
            r == (IoError::ParseError { message, offset: Some(offset), context: None }),
    {
        IoError::ParseError { message, offset: Some(offset), context: None }
    }

    /// A parse error with context.
    pub fn parse_context(message: String, context: String) -> (r: IoError)
        ensures
            r == (IoError::ParseError { message, offset: None, context: Some(context) }),
    {
        IoError::ParseError { message, offset: None, context: Some(context) }
    }
}

} // verus!
