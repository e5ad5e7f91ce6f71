//! The service layer that requires response metadata on every request and
//! applies it to every successful response.

use crate::metadata::ResponseMetadata;
use crate::MetadataError;
use vstd::prelude::*;

verus! {

/// A layer that requires `ResponseMetadata` in request extensions and
/// applies it to every successful response from the wrapped service.
#[derive(Clone, Copy, Debug, Default)]
pub struct StreamingEnvelopeLayer;

/// The service produced by `StreamingEnvelopeLayer`.
#[derive(Debug)]
pub struct StreamingEnvelopeService<S> {
    inner: S,
}

impl StreamingEnvelopeLayer {
    /// Construct the layer.
    pub fn new() -> (layer: Self)
        ensures
            layer == StreamingEnvelopeLayer,
    {
        StreamingEnvelopeLayer
    }

    /// Wrap `inner` in the envelope service.
    pub fn layer<S>(&self, inner: S) -> (service: StreamingEnvelopeService<S>)
        ensures
            service.inner() == inner,
    {
        StreamingEnvelopeService { inner }
    }
}

impl<S> StreamingEnvelopeService<S> {
    /// The wrapped service.
    pub closed spec fn inner(self) -> S {
        self.inner
    }

    /// Borrow the wrapped service mutably, to drive it.
    pub fn inner_mut(&mut self) -> (inner: &mut S)
        ensures
            *inner == old(self).inner(),
            final(self).inner() == *final(inner),
    {
        &mut self.inner
    }
}

/// Errors produced by the envelope layer.
#[derive(Debug)]
pub enum EnvelopeServiceError<E> {
    /// The request did not carry the mandatory response metadata extension.
    MissingMetadata,
    /// The wrapped service returned an error.
    Inner(E),
    /// Response metadata could not be applied.
    Metadata(MetadataError),
}

/// The metadata that a request must carry before it reaches the wrapped
/// service: a request without it fails at once with `MissingMetadata`, and
/// the layer never creates or guesses metadata.
pub fn require_metadata<E>(found: Option<&ResponseMetadata>) -> (r: Result<
    ResponseMetadata,
    EnvelopeServiceError<E>,
>)
    ensures
        found is None ==> r matches Err(EnvelopeServiceError::MissingMetadata),
        found matches Some(m) ==> r matches Ok(m2) && m2@ == m@,
{
    match found {
        Some(m) => Ok(m.clone()),
        None => Err(EnvelopeServiceError::MissingMetadata),
    }
}

} // verus!
