//! The error variants that the codec can report.
//!
//! Every failure is recoverable: each operation either returns a complete
//! result, an `Incomplete` parse outcome, or one of these variants. The
//! codec never aborts.
use vstd::prelude::*;

verus! {

/// An error reported by the codec.
#[derive(Clone, Copy, Debug, PartialEq, Eq, Structural)]
pub enum PgError {
    /// A message body's length does not match its declared structure.
    InvalidMessageLength,
    /// A value decoder was given a buffer of the wrong length.
    InvalidBufferSize,
    /// The parser saw a message tag it does not recognize.
    UnknownTag(u8),
    /// The parser saw an authentication subcode it does not recognize.
    UnknownAuthTag(i32),
    /// Bytes declared textual were not valid UTF-8.
    InvalidUtf8,
    /// A c-string to be written contained an interior zero byte.
    EmbeddedNul,
    /// A length does not fit the wire width of its length field.
    ValueTooLarge,
    /// The product of array dimension lengths overflowed.
    TooManyElements,
    /// An hstore key length was negative.
    InvalidKeyLength,
    /// An array dimension count was negative.
    InvalidDimensionCount,
    /// An array dimension length was negative.
    InvalidDimensionSize,
    /// An hstore entry count was negative.
    InvalidEntryCount,
    /// A varbit bit count was negative.
    InvalidBitLength,
    /// The input ended before a declared field was complete.
    UnexpectedEof,
}

} // verus!
