//! The faults that the codecs and the framing layer report.

use vstd::prelude::*;

verus! {

/// Why a value could not be read from a buffer.
#[derive(Debug, Clone, Copy, PartialEq, Eq, Structural)]
pub enum DecodeError {
    /// Fewer bytes are left than the value needs.
    OutOfBounds,
    /// The bytes of a string are not valid UTF-8.
    InvalidUtf8,
    /// The first byte of a message names no kind of message.
    UnknownTag,
}

/// Why a message could not be framed or taken out of its frame.
#[derive(Debug, Clone, Copy, PartialEq, Eq, Structural)]
pub enum FramingError {
    /// The stream ends inside the length prefix or inside the payload.
    Truncated,
    /// The payload is longer than a 16-bit length prefix can say.
    Oversized,
}

} // verus!
