//! Error taxonomy surfaced by the core.
//!
//! Missing entities are not errors: queries silently drop them. Only
//! malformed input (validation) and wire-format decoding failures (codec)
//! are reported.

use vstd::prelude::*;

verus! {

/// Malformed input: a bad identifier length, an invalid type string, or an
/// invalid direction string.
#[derive(Clone, Copy, Debug, PartialEq, Eq)]
pub enum ValidationError {
    /// The given string is not an accepted value.
    InvalidValue,
    /// An identifier was not exactly 16 bytes long.
    BadIdentifierLength,
    /// A type string was too long or held a character outside the accepted set.
    InvalidType,
}

/// Wire-format decoding failure.
#[derive(Clone, Copy, Debug, PartialEq, Eq)]
pub enum CodecError {
    /// The message ended before the field being read was complete.
    Truncated,
    /// A tagged union held a tag no variant answers to.
    UnknownTag,
    /// A string field did not hold valid UTF-8.
    InvalidUtf8,
    /// An embedded property value did not parse as JSON.
    MalformedJson,
    /// A field validated by the model layer was rejected.
    InvalidValue,
    /// A timestamp field was too large to represent.
    TimestampOutOfRange,
}

impl ValidationError {
    /// A short human-readable description.
    pub fn as_message(&self) -> (r: &'static str)
    {
        match self {
            ValidationError::InvalidValue => "invalid value",
            ValidationError::BadIdentifierLength => "bad identifier length",
            ValidationError::InvalidType => "invalid type string",
        }
    }
}

impl CodecError {
    /// A short human-readable description.
    pub fn as_message(&self) -> (r: &'static str)
    {
        match self {
            CodecError::Truncated => "message truncated",
            CodecError::UnknownTag => "unknown union tag",
            CodecError::InvalidUtf8 => "invalid utf-8",
            CodecError::MalformedJson => "malformed json",
            CodecError::InvalidValue => "invalid value",
            CodecError::TimestampOutOfRange => "timestamp out of range",
        }
    }
}

} // verus!
