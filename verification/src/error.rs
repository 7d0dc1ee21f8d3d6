//! The failures of ingestion and of reading a query.

use vstd::prelude::*;

verus! {

/// Why an event, or one of its property rows, was not stored.
#[derive(Clone, Copy, Debug, PartialEq, Eq, Structural)]
pub enum IngestError {
    /// The payload is not JSON, or not an event with a name and properties.
    MalformedPayload,
    /// The event already has a value under that name in the table of the
    /// value's kind, or the event's key is already taken.
    UniqueConstraintViolation,
    /// A property value is neither a text, a 32-bit integer nor a boolean.
    UnsupportedValueKind,
}

/// Why a text was not read as a filter or a query. Nothing is asked of the
/// store before a text has been read.
#[derive(Clone, Copy, Debug, PartialEq, Eq, Structural)]
pub enum ParseError {
    /// The text is not one JSON document.
    Syntax,
    /// The document is JSON, but not of the expected form.
    Shape,
}

} // verus!
