//! Tests of the metadata rules, the completion state machine and the decimal
//! rendering.

use http::header::{HeaderMap, HeaderValue};
use http_streaming_envelope::body::{
    add_completion_trailer, completion_trailers, wrap_response_headers, wrap_response_headers_fit,
    EnvelopePoll,
    EnvelopeState, InnerPoll, HEADER_PAYLOAD_BYTES, HEADER_TRAILER,
};
use http_streaming_envelope::decimal::decimal_digits;
use http_streaming_envelope::headers::header_map_has_room;
use http_streaming_envelope::layer::{
    require_metadata, EnvelopeServiceError, StreamingEnvelopeLayer,
};
use http_streaming_envelope::metadata::{
    is_traceparent, PayloadSource, RequestId, ResponseMetadata, Timestamp, TraceParent,
    HEADER_GENERATED_AT, HEADER_PAYLOAD_SOURCE, HEADER_REQUEST_ID, HEADER_TRACEPARENT,
};
use http_streaming_envelope::MetadataError;

const TRACE: &str = "00-4bf92f3577b34da6a3ce929d0e0e4736-00f067aa0ba902b7-01";

fn metadata_at(secs: u64) -> ResponseMetadata {
    ResponseMetadata::new(
        RequestId::new("req-42").expect("valid request id"),
        PayloadSource::Generated,
        Timestamp::from_unix_secs(secs),
    )
}

#[test]
fn request_id_accepts_header_text() {
    let id = RequestId::new("req-42").expect("valid");
    assert_eq!(id.as_str(), "req-42");
    assert!(RequestId::new("tab\tinside").is_ok());
    assert!(RequestId::new("r\u{e9}quete").is_ok());
}

#[test]
fn request_id_rejects_control_bytes_with_its_field() {
    assert!(matches!(
        RequestId::new("bad\u{7f}"),
        Err(MetadataError::InvalidValue { field: "request_id" })
    ));
    assert!(matches!(
        RequestId::new(""),
        Err(MetadataError::InvalidValue { field: "request_id" })
    ));
    assert!(matches!(
        RequestId::new("cr\rlf"),
        Err(MetadataError::InvalidValue { field: "request_id" })
    ));
}

#[test]
fn traceparent_shape_is_checked() {
    assert!(is_traceparent(TRACE));
    let tp = TraceParent::new(TRACE).expect("valid traceparent");
    assert_eq!(tp.as_str(), TRACE);
    // Uppercase hexadecimal is not a W3C trace context.
    assert!(TraceParent::new("00-4BF92F3577B34DA6A3CE929D0E0E4736-00F067AA0BA902B7-01").is_err());
    // Version ff is forbidden.
    assert!(!is_traceparent("ff-4bf92f3577b34da6a3ce929d0e0e4736-00f067aa0ba902b7-01"));
    // An all-zero trace id or parent id is invalid.
    assert!(!is_traceparent("00-00000000000000000000000000000000-00f067aa0ba902b7-01"));
    assert!(!is_traceparent("00-4bf92f3577b34da6a3ce929d0e0e4736-0000000000000000-01"));
    // Other versions and flags are accepted.
    assert!(is_traceparent("01-4bf92f3577b34da6a3ce929d0e0e4736-00f067aa0ba902b7-00"));
    // One byte short.
    assert!(!is_traceparent(&TRACE[..54]));
    // A hyphen moved.
    assert!(!is_traceparent("004-bf92f3577b34da6a3ce929d0e0e4736-00f067aa0ba902b7-01"));
    // A non-hexadecimal digit.
    assert!(!is_traceparent("00-4bf92f3577b34da6a3ce929d0e0e4736-00f067aa0ba902b7-0g"));
    assert!(matches!(
        TraceParent::new("00-xyz"),
        Err(MetadataError::InvalidValue { field: "traceparent" })
    ));
}

#[test]
fn payload_sources_have_header_text() {
    assert_eq!(PayloadSource::Generated.as_str(), "generated");
    assert_eq!(PayloadSource::Cache.as_str(), "cache");
    assert_eq!(PayloadSource::Upstream.as_str(), "upstream");
}

#[test]
fn metadata_accessors() {
    let m = metadata_at(0);
    assert_eq!(m.request_id().as_str(), "req-42");
    assert_eq!(m.payload_source(), PayloadSource::Generated);
    let tp = TraceParent::new(TRACE).expect("valid");
    let m = m.with_traceparent(tp);
    assert_eq!(m.request_id().as_str(), "req-42");
    assert_eq!(m.clone(), m);
    let now = ResponseMetadata::now(RequestId::new("n").expect("valid"), PayloadSource::Upstream);
    assert_eq!(now.payload_source(), PayloadSource::Upstream);
}

#[test]
fn apply_writes_every_owned_header() {
    let tp = TraceParent::new(TRACE).expect("valid");
    let m = metadata_at(1431704061).with_traceparent(tp);
    let mut headers = HeaderMap::new();
    headers.insert("content-type", HeaderValue::from_static("text/plain"));
    m.apply(&mut headers).expect("applied");
    assert_eq!(headers[HEADER_REQUEST_ID], "req-42");
    assert_eq!(headers[HEADER_PAYLOAD_SOURCE], "generated");
    assert_eq!(headers[HEADER_GENERATED_AT], "Fri, 15 May 2015 15:34:21 GMT");
    assert_eq!(headers[HEADER_TRACEPARENT], TRACE);
    assert_eq!(headers["content-type"], "text/plain");
    assert_eq!(headers.len(), 5);
}

#[test]
fn apply_formats_the_epoch() {
    let mut headers = HeaderMap::new();
    metadata_at(0).apply(&mut headers).expect("applied");
    assert_eq!(headers[HEADER_GENERATED_AT], "Thu, 01 Jan 1970 00:00:00 GMT");
    assert!(!headers.contains_key(HEADER_TRACEPARENT));
    assert_eq!(headers.len(), 3);
}

#[test]
fn apply_with_current_time_writes_an_http_date() {
    let m = ResponseMetadata::now(RequestId::new("now").expect("valid"), PayloadSource::Cache);
    let mut headers = HeaderMap::new();
    m.apply(&mut headers).expect("applied");
    let date = headers[HEADER_GENERATED_AT].to_str().expect("ascii");
    assert_eq!(date.len(), 29);
    assert!(date.ends_with(" GMT"));
}

#[test]
fn generation_times_outside_http_dates_are_invalid() {
    let before = ResponseMetadata::new(
        RequestId::new("req-42").expect("valid"),
        PayloadSource::Cache,
        Timestamp::BeforeEpoch { secs: 1, nanos: 0 },
    );
    let mut headers = HeaderMap::new();
    assert!(matches!(
        before.apply(&mut headers),
        Err(MetadataError::InvalidValue { field: "generated_at" })
    ));
    assert!(headers.is_empty());
    assert!(matches!(
        wrap_response_headers(&mut headers, &metadata_at(253402300800)),
        Err(MetadataError::InvalidValue { field: "generated_at" })
    ));
    assert!(headers.is_empty());
    // The last second of the year 9999 is still a valid HTTP date.
    metadata_at(253402300799).apply(&mut headers).expect("applied");
    assert_eq!(headers[HEADER_GENERATED_AT], "Fri, 31 Dec 9999 23:59:59 GMT");
}

#[test]
fn header_map_room_is_counted() {
    let mut headers = HeaderMap::new();
    assert!(header_map_has_room(&headers, 5));
    assert!(header_map_has_room(&headers, 6554));
    assert!(!header_map_has_room(&headers, 6555));
    headers.insert("x-one", HeaderValue::from_static("1"));
    headers.append("x-one", HeaderValue::from_static("2"));
    assert!(header_map_has_room(&headers, 6553));
    assert!(!header_map_has_room(&headers, 6554));
}

#[test]
fn apply_stops_at_the_first_conflict_and_keeps_earlier_headers() {
    let mut headers = HeaderMap::new();
    headers.insert(HEADER_GENERATED_AT, HeaderValue::from_static("earlier"));
    let result = metadata_at(0).apply(&mut headers);
    assert!(matches!(
        result,
        Err(MetadataError::ConflictingHeader(name)) if name == HEADER_GENERATED_AT
    ));
    // The headers before the conflicting one were written; the conflicting
    // one keeps its value.
    assert_eq!(headers[HEADER_REQUEST_ID], "req-42");
    assert_eq!(headers[HEADER_PAYLOAD_SOURCE], "generated");
    assert_eq!(headers[HEADER_GENERATED_AT], "earlier");
    assert_eq!(headers.len(), 3);
}

#[test]
fn an_owned_header_already_holding_the_value_is_no_conflict() {
    let mut headers = HeaderMap::new();
    headers.insert(HEADER_REQUEST_ID, HeaderValue::from_static("req-42"));
    headers.insert(HEADER_PAYLOAD_SOURCE, HeaderValue::from_static("generated"));
    metadata_at(0).apply(&mut headers).expect("applied");
    assert_eq!(headers.get_all(HEADER_REQUEST_ID).iter().count(), 1);
    assert_eq!(headers[HEADER_REQUEST_ID], "req-42");
    assert_eq!(headers[HEADER_PAYLOAD_SOURCE], "generated");
    assert_eq!(headers[HEADER_GENERATED_AT], "Thu, 01 Jan 1970 00:00:00 GMT");

    // Two values, one of them different, is a conflict.
    let mut headers = HeaderMap::new();
    headers.append(HEADER_REQUEST_ID, HeaderValue::from_static("req-42"));
    headers.append(HEADER_REQUEST_ID, HeaderValue::from_static("req-43"));
    assert!(matches!(
        metadata_at(0).apply(&mut headers),
        Err(MetadataError::ConflictingHeader(name)) if name == HEADER_REQUEST_ID
    ));
    assert_eq!(headers.len(), 2);
}

#[test]
fn room_is_needed_only_for_names_written() {
    let mut headers = HeaderMap::new();
    for i in 0..6554 {
        headers.insert(
            http::header::HeaderName::from_bytes(format!("x-filler-{i}").as_bytes()).expect("name"),
            HeaderValue::from_static("v"),
        );
    }
    let m = metadata_at(0);
    assert!(!wrap_response_headers_fit(&headers, &m));
    // A conflict on the first owned name writes nothing, so any map will do.
    headers.insert(HEADER_REQUEST_ID, HeaderValue::from_static("other"));
    assert!(wrap_response_headers_fit(&headers, &m));
    assert!(matches!(
        wrap_response_headers(&mut headers, &m),
        Err(MetadataError::ConflictingHeader(name)) if name == HEADER_REQUEST_ID
    ));
    // A time that cannot be written writes nothing either.
    let before = ResponseMetadata::new(
        RequestId::new("req-42").expect("valid"),
        PayloadSource::Cache,
        Timestamp::BeforeEpoch { secs: 5, nanos: 0 },
    );
    assert!(wrap_response_headers_fit(&headers, &before));

    let mut small = HeaderMap::new();
    assert!(wrap_response_headers_fit(&small, &m));
    wrap_response_headers(&mut small, &m).expect("wrapped");
}

#[test]
fn conflicting_traceparent_is_reported() {
    let tp = TraceParent::new(TRACE).expect("valid");
    let m = metadata_at(0).with_traceparent(tp);
    let mut headers = HeaderMap::new();
    headers.insert(HEADER_TRACEPARENT, HeaderValue::from_static("other"));
    let result = m.apply(&mut headers);
    assert!(matches!(
        result,
        Err(MetadataError::ConflictingHeader(name)) if name == HEADER_TRACEPARENT
    ));
    assert_eq!(headers[HEADER_TRACEPARENT], "other");
}

#[test]
fn wrapping_announces_the_completion_trailer() {
    let mut headers = HeaderMap::new();
    headers.insert(HEADER_TRAILER, HeaderValue::from_static("x-checksum"));
    wrap_response_headers(&mut headers, &metadata_at(0)).expect("wrapped");
    let announced: Vec<&HeaderValue> = headers.get_all(HEADER_TRAILER).iter().collect();
    assert_eq!(announced.len(), 2);
    assert_eq!(announced[0], "x-checksum");
    assert_eq!(announced[1], "streaming-envelope-payload-bytes");
}

#[test]
fn wrapping_with_a_conflict_announces_nothing() {
    let mut headers = HeaderMap::new();
    headers.insert(HEADER_PAYLOAD_SOURCE, HeaderValue::from_static("mine"));
    let result = wrap_response_headers(&mut headers, &metadata_at(0));
    assert!(matches!(
        result,
        Err(MetadataError::ConflictingHeader(name)) if name == HEADER_PAYLOAD_SOURCE
    ));
    assert!(!headers.contains_key(HEADER_TRAILER));
    assert_eq!(headers[HEADER_REQUEST_ID], "req-42");
}

#[test]
fn decimal_rendering() {
    assert_eq!(decimal_digits(0), b"0".to_vec());
    assert_eq!(decimal_digits(5), b"5".to_vec());
    assert_eq!(decimal_digits(10), b"10".to_vec());
    assert_eq!(decimal_digits(1234567890), b"1234567890".to_vec());
    assert_eq!(decimal_digits(u64::MAX), b"18446744073709551615".to_vec());
    for n in [0u64, 7, 99, 100, 65535, 4294967296] {
        assert_eq!(decimal_digits(n), n.to_string().into_bytes());
    }
}

#[test]
fn completion_trailer_replaces_an_earlier_count() {
    let mut trailers = HeaderMap::new();
    trailers.insert(HEADER_PAYLOAD_BYTES, HeaderValue::from_static("1"));
    add_completion_trailer(&mut trailers, 1024);
    assert_eq!(trailers.get_all(HEADER_PAYLOAD_BYTES).iter().count(), 1);
    assert_eq!(trailers[HEADER_PAYLOAD_BYTES], "1024");

    let fresh = completion_trailers(0);
    assert_eq!(fresh.len(), 1);
    assert_eq!(fresh[HEADER_PAYLOAD_BYTES], "0");
}

#[test]
fn state_counts_every_data_frame() {
    let mut state = EnvelopeState::new();
    assert_eq!(state.payload_bytes(), 0);
    assert!(!state.completion_emitted());
    for (chunk, len) in [("ab", 2usize), ("", 0), ("cdefg", 5)] {
        match state.on_poll::<&str, ()>(InnerPoll::Data(chunk, len)) {
            EnvelopePoll::Data(data) => assert_eq!(data, chunk),
            _ => panic!("data frame"),
        }
    }
    assert_eq!(state.payload_bytes(), 7);
    assert!(matches!(state.on_poll::<&str, ()>(InnerPoll::Pending), EnvelopePoll::Pending));
    assert!(!state.is_end_stream(true));
    match state.on_poll::<&str, ()>(InnerPoll::Finished) {
        EnvelopePoll::Trailers(t) => assert_eq!(t[HEADER_PAYLOAD_BYTES], "7"),
        _ => panic!("completion frame"),
    }
    assert!(state.completion_emitted());
    assert!(state.is_end_stream(true));
    assert!(!state.is_end_stream(false));
}

#[test]
fn state_count_saturates() {
    let mut state = EnvelopeState::new();
    let _ = state.on_poll::<(), ()>(InnerPoll::Data((), usize::MAX));
    let _ = state.on_poll::<(), ()>(InnerPoll::Data((), usize::MAX));
    let _ = state.on_poll::<(), ()>(InnerPoll::Data((), 3));
    assert_eq!(state.payload_bytes(), u64::MAX);
    match state.on_poll::<(), ()>(InnerPoll::Finished) {
        EnvelopePoll::Trailers(t) => assert_eq!(t[HEADER_PAYLOAD_BYTES], "18446744073709551615"),
        _ => panic!("completion frame"),
    }
}

#[test]
fn inner_trailers_carry_the_completion_count() {
    let mut state = EnvelopeState::new();
    let _ = state.on_poll::<&str, ()>(InnerPoll::Data("xyz", 3));
    let mut inner = HeaderMap::new();
    inner.insert("x-checksum", HeaderValue::from_static("abc"));
    match state.on_poll::<&str, ()>(InnerPoll::Trailers(inner)) {
        EnvelopePoll::Trailers(t) => {
            assert_eq!(t["x-checksum"], "abc");
            assert_eq!(t[HEADER_PAYLOAD_BYTES], "3");
        }
        _ => panic!("trailers frame"),
    }
    // The end of the inner body after its trailers adds no second completion.
    assert!(matches!(
        state.on_poll::<&str, ()>(InnerPoll::Finished),
        EnvelopePoll::Finished
    ));
}

#[test]
fn failure_passes_through_without_completion() {
    let mut state = EnvelopeState::new();
    let _ = state.on_poll::<&str, &str>(InnerPoll::Data("ab", 2));
    match state.on_poll::<&str, &str>(InnerPoll::Failed("broken pipe")) {
        EnvelopePoll::Failed(e) => assert_eq!(e, "broken pipe"),
        _ => panic!("error passes through"),
    }
    assert!(state.failed());
    assert!(!state.completion_emitted());
    assert_eq!(state.payload_bytes(), 2);
    // The end of a failed body sends no completion trailer.
    assert!(matches!(
        state.on_poll::<&str, &str>(InnerPoll::Finished),
        EnvelopePoll::Finished
    ));
    assert!(!state.is_end_stream(true));
    // Trailers of a failed body pass through without a count.
    let mut inner = HeaderMap::new();
    inner.insert("x-checksum", HeaderValue::from_static("abc"));
    match state.on_poll::<&str, &str>(InnerPoll::Trailers(inner)) {
        EnvelopePoll::Trailers(t) => {
            assert_eq!(t["x-checksum"], "abc");
            assert!(!t.contains_key(HEADER_PAYLOAD_BYTES));
        }
        _ => panic!("trailers frame"),
    }
    assert!(!state.completion_emitted());
}

#[test]
fn layer_wraps_a_service_and_reports_missing_metadata() {
    let layer = StreamingEnvelopeLayer::new();
    let mut service = layer.layer(41u32);
    *service.inner_mut() += 1;
    assert_eq!(*service.inner_mut(), 42);
    assert!(matches!(
        require_metadata::<u8>(None),
        Err(EnvelopeServiceError::MissingMetadata)
    ));
    let m = metadata_at(0);
    let found = require_metadata::<u8>(Some(&m)).expect("present");
    assert_eq!(found, m);
}
