//! The error surface of the decoder.

use vstd::prelude::*;

verus! {

/// A reason a chat-log document (or one of its parts) fails to decode.
///
/// Every decoding entry point fails atomically with exactly one of these.
#[derive(Clone, Copy, Debug, PartialEq, Eq, Structural)]
pub enum DecodeError {
    /// A timestamp string does not have the exact `YYYY-MM-DD HH:MM:SS UTC`
    /// shape, or its calendar fields are out of range.
    MalformedTimestamp,
    /// A media-type tag is not one of the six recognized tags.
    UnrecognizedMediaType,
    /// A JSON value does not satisfy the required document or message shape.
    SchemaMismatch,
    /// The input is not well-formed JSON (or not valid UTF-8).
    SyntaxError,
}

} // verus!
