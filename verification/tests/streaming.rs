//! Integration tests for the streaming HTTP envelope.

use http::{Response, StatusCode};
use http_streaming_envelope::body::{
    wrap_response_headers, EnvelopePoll, EnvelopeState, InnerPoll, HEADER_PAYLOAD_BYTES,
};
use http_streaming_envelope::layer::require_metadata;
use http_streaming_envelope::metadata::{
    PayloadSource, RequestId, ResponseMetadata, Timestamp, TraceParent, HEADER_PAYLOAD_SOURCE,
    HEADER_REQUEST_ID,
};
use http_streaming_envelope::MetadataError;

fn metadata() -> ResponseMetadata {
    ResponseMetadata::new(
        RequestId::new("req-42").expect("valid request id"),
        PayloadSource::Cache,
        Timestamp::unix_epoch(),
    )
}

#[test]
fn preserves_payload_and_emits_completion_trailer() {
    let mut response = Response::builder()
        .status(StatusCode::PARTIAL_CONTENT)
        .body("hello")
        .expect("response");
    let metadata = metadata();
    wrap_response_headers(response.headers_mut(), &metadata).expect("wrapped response");

    assert_eq!(response.status(), StatusCode::PARTIAL_CONTENT);
    assert_eq!(response.headers()[HEADER_REQUEST_ID], "req-42");
    assert_eq!(response.headers()[HEADER_PAYLOAD_SOURCE], "cache");

    let mut state = EnvelopeState::new();
    let body = *response.body();
    let payload = match state.on_poll::<&str, ()>(InnerPoll::Data(body, body.len())) {
        EnvelopePoll::Data(data) => data,
        _ => panic!("payload frame"),
    };
    assert_eq!(payload, "hello");

    let trailers = match state.on_poll::<&str, ()>(InnerPoll::Finished) {
        EnvelopePoll::Trailers(trailers) => trailers,
        _ => panic!("completion frame"),
    };
    assert_eq!(trailers[HEADER_PAYLOAD_BYTES], "5");
    assert!(matches!(
        state.on_poll::<&str, ()>(InnerPoll::Finished),
        EnvelopePoll::Finished
    ));
}

#[test]
fn layer_requires_metadata_and_wraps_successful_responses() {
    let missing = require_metadata::<std::convert::Infallible>(None);
    assert!(missing.is_err());

    let metadata = metadata();
    let found = require_metadata::<std::convert::Infallible>(Some(&metadata))
        .expect("metadata present");
    let mut response = Response::new("body");
    wrap_response_headers(response.headers_mut(), &found).expect("wrapped response");
    assert_eq!(response.headers()[HEADER_REQUEST_ID], "req-42");
}

#[test]
fn identifiers_are_validated_before_they_reach_headers() {
    assert!(RequestId::new("").is_err());
    assert!(RequestId::new("contains\nnewline").is_err());
    assert!(TraceParent::new("not-a-traceparent").is_err());
}

#[test]
fn existing_envelope_headers_are_not_overwritten() {
    let mut response = Response::builder()
        .header(HEADER_REQUEST_ID, "another-request")
        .body("body")
        .expect("response");
    let metadata = metadata();
    let result = wrap_response_headers(response.headers_mut(), &metadata);
    assert!(matches!(
        result,
        Err(MetadataError::ConflictingHeader(name)) if name == HEADER_REQUEST_ID
    ));
}
