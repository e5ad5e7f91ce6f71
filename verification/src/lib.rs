//! HTTP-native response metadata for payloads that must remain asynchronous
//! and streaming.
//!
//! The HTTP status line and response headers are the envelope's start
//! section. The wrapped body remains the payload stream, and one completion
//! trailer is emitted after the body finishes successfully.
//!
//! This crate holds the verified part of the envelope: validation of the
//! typed metadata, the rules by which metadata enters a header map, the
//! completion state machine of the streaming body and the decimal rendering of
//! the completion trailer.

pub mod body;
pub mod decimal;
pub mod headers;
pub mod layer;
pub mod metadata;

use vstd::prelude::*;

verus! {

/// Errors raised while validating or applying envelope metadata.
#[derive(Debug)]
pub enum MetadataError {
    /// A required identifier or metadata value was empty or malformed.
    InvalidValue {
        /// The metadata field that failed validation.
        field: &'static str,
    },
    /// A response already contains a header owned by this crate with a
    /// different value. The payload is the header's lowercase name.
    ConflictingHeader(&'static str),
}

} // verus!
