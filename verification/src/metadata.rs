//! Typed metadata carried before the payload stream, and the rules by which
//! it enters the response headers.

use crate::headers::{
    compare_held_values, has_room_for, header_map_contents, header_map_insert,
    header_value_from_bytes, holds_only, is_header_name, is_header_value, is_header_value_byte,
    HeaderContents, HeldValues,
};
use crate::MetadataError;
use http::header::{HeaderMap, HeaderValue};
use std::time::{Duration, SystemTime, UNIX_EPOCH};
use vstd::prelude::*;
use vstd::utf8::{encode_utf8, is_ascii_chars, is_ascii_chars_encode_utf8};

verus! {

/// The request correlation identifier header.
pub const HEADER_REQUEST_ID: &'static str = "x-request-id";

/// The W3C trace context header.
pub const HEADER_TRACEPARENT: &'static str = "traceparent";

/// The source of the payload, such as a cache or fresh generation.
pub const HEADER_PAYLOAD_SOURCE: &'static str = "streaming-envelope-source";

/// The time at which the response representation was generated.
pub const HEADER_GENERATED_AT: &'static str = "streaming-envelope-generated-at";

// ---------------------------------------------------------------------------
// Text predicates
// ---------------------------------------------------------------------------

/// Characters that are printable ASCII, space included.
pub open spec fn is_visible_ascii_text(s: Seq<char>) -> bool {
    forall|i: int| 0 <= i < s.len() ==> ' ' <= #[trigger] s[i] && s[i] <= '~'
}

/// Printable ASCII text is a valid header value once encoded.
pub proof fn lemma_visible_ascii_is_header_value(s: Seq<char>)
    requires
        is_visible_ascii_text(s),
    ensures
        is_header_value(encode_utf8(s)),
        encode_utf8(s).len() == s.len(),
{
    assert(is_ascii_chars(s));
    is_ascii_chars_encode_utf8(s);
    assert forall|i: int| 0 <= i < encode_utf8(s).len() implies #[trigger] is_header_value_byte(
        encode_utf8(s)[i],
    ) by {
        assert(s[i] as u8 == encode_utf8(s)[i]);
        assert(' ' <= s[i] && s[i] <= '~');
    }
}

/// A valid request identifier: non-empty text that `http` accepts as a header
/// value.
pub open spec fn is_valid_request_id(s: Seq<char>) -> bool {
    s.len() > 0 && is_header_value(encode_utf8(s))
}

/// A lowercase ASCII hexadecimal digit, as W3C trace context requires.
pub open spec fn is_hex_digit(b: u8) -> bool {
    (48 <= b <= 57) || (97 <= b <= 102)
}

/// The positions of the three hyphens in a W3C `traceparent` value.
pub open spec fn is_traceparent_dash_position(i: int) -> bool {
    i == 2 || i == 35 || i == 52
}

/// Whether some byte of `b` in `from..to` is not the digit `0`.
pub open spec fn has_non_zero_digit(b: Seq<u8>, from: int, to: int) -> bool {
    exists|i: int| from <= i < to && #[trigger] b[i] != 48u8
}

/// A W3C `traceparent` value: 55 bytes, hyphens at positions 2, 35 and 52,
/// lowercase hexadecimal digits everywhere else, a version other than `ff`,
/// and a trace id (bytes 3 to 34) and a parent id (bytes 36 to 51) that are
/// not all zeros.
pub open spec fn is_traceparent_bytes(b: Seq<u8>) -> bool {
    &&& b.len() == 55
    &&& forall|i: int|
        0 <= i < 55 ==> if is_traceparent_dash_position(i) {
            #[trigger] b[i] == 45u8
        } else {
            is_hex_digit(b[i])
        }
    &&& !(b[0] == 102u8 && b[1] == 102u8)
    &&& has_non_zero_digit(b, 3, 35)
    &&& has_non_zero_digit(b, 36, 52)
}

/// The text of a `traceparent` value.
pub open spec fn is_traceparent_text(s: Seq<char>) -> bool {
    is_traceparent_bytes(encode_utf8(s))
}

fn is_hex_digit_byte(b: u8) -> (r: bool)
    ensures
        r == is_hex_digit(b),
{
    (48 <= b && b <= 57) || (97 <= b && b <= 102)
}

/// Whether some byte of `bytes` in `from..to` is not the digit `0`.
fn any_non_zero_digit(bytes: &[u8], from: usize, to: usize) -> (r: bool)
    requires
        from <= to <= bytes@.len(),
    ensures
        r == has_non_zero_digit(bytes@, from as int, to as int),
{
    let mut i = from;
    while i < to
        invariant
            from <= i <= to <= bytes@.len(),
            forall|j: int| from <= j < i ==> #[trigger] bytes@[j] == 48u8,
        decreases to - i,
    {
        if bytes[i] != 48u8 {
            assert(bytes@[i as int] != 48u8);
            return true;
        }
        i = i + 1;
    }
    false
}

/// Whether `value` is a W3C `traceparent`: a version, a trace id, a parent id
/// and flags, in lowercase hexadecimal separated by hyphens, with a version
/// other than `ff` and ids that are not all zeros.
pub fn is_traceparent(value: &str) -> (r: bool)
    ensures
        r == is_traceparent_text(value@),
{
    let bytes = value.as_bytes();
    if bytes.len() != 55 {
        return false;
    }
    let mut i: usize = 0;
    while i < 55
        invariant
            bytes@ == encode_utf8(value@),
            bytes@.len() == 55,
            i <= 55,
            forall|j: int|
                0 <= j < i ==> if is_traceparent_dash_position(j) {
                    #[trigger] bytes@[j] == 45u8
                } else {
                    is_hex_digit(bytes@[j])
                },
        decreases 55 - i,
    {
        let b = bytes[i];
        let ok = if i == 2 || i == 35 || i == 52 {
            b == 45u8
        } else {
            is_hex_digit_byte(b)
        };
        if !ok {
            assert(!(if is_traceparent_dash_position(i as int) {
                bytes@[i as int] == 45u8
            } else {
                is_hex_digit(bytes@[i as int])
            }));
            return false;
        }
        i = i + 1;
    }
    if bytes[0] == 102u8 && bytes[1] == 102u8 {
        return false;
    }
    any_non_zero_digit(bytes, 3, 35) && any_non_zero_digit(bytes, 36, 52)
}

/// Every `traceparent` value is a valid header value.
pub proof fn lemma_traceparent_is_header_value(s: Seq<char>)
    requires
        is_traceparent_text(s),
    ensures
        is_header_value(encode_utf8(s)),
{
    let b = encode_utf8(s);
    assert forall|i: int| 0 <= i < b.len() implies #[trigger] is_header_value_byte(b[i]) by {
        if is_traceparent_dash_position(i) {
            assert(b[i] == 45u8);
        } else {
            assert(is_hex_digit(b[i]));
        }
    }
}

/// Checks that `value` can stand as a non-empty header value; the error
/// names `field`.
fn validate_header_value(field: &'static str, value: &str) -> (r: Result<(), MetadataError>)
    ensures
        r is Ok <==> is_valid_request_id(value@),
        r is Err ==> r == Err::<(), MetadataError>(MetadataError::InvalidValue { field }),
{
    if value.is_empty() {
        return Err(MetadataError::InvalidValue { field });
    }
    match header_value_from_bytes(value.as_bytes()) {
        Ok(_) => Ok(()),
        Err(_) => Err(MetadataError::InvalidValue { field }),
    }
}

// ---------------------------------------------------------------------------
// Identifiers
// ---------------------------------------------------------------------------

/// A validated request correlation identifier.
#[derive(Debug, Eq, Hash, Ord, PartialEq, PartialOrd)]
pub struct RequestId(String);

impl Clone for RequestId {
    fn clone(&self) -> (c: Self)
        ensures
            c@ == self@,
    {
        proof {
            use_type_invariant(self);
        }
        RequestId(self.0.clone())
    }
}

impl View for RequestId {
    type V = Seq<char>;

    closed spec fn view(&self) -> Seq<char> {
        self.0@
    }
}

impl RequestId {
    #[verifier::type_invariant]
    spec fn is_valid(self) -> bool {
        is_valid_request_id(self.0@)
    }

    /// Validate and construct a request identifier.
    ///
    /// Fails with `InvalidValue { field: "request_id" }` exactly when the
    /// value is empty or cannot be represented as an HTTP header value.
    pub fn new(value: &str) -> (r: Result<Self, MetadataError>)
        ensures
            r is Ok <==> is_valid_request_id(value@),
            r matches Ok(id) ==> id@ == value@,
            r is Err ==> r == Err::<Self, MetadataError>(
                MetadataError::InvalidValue { field: "request_id" },
            ),
    {
        match validate_header_value("request_id", value) {
            Ok(()) => Ok(RequestId(value.to_owned())),
            Err(e) => Err(e),
        }
    }

    /// Borrow the identifier as text.
    pub fn as_str(&self) -> (s: &str)
        ensures
            s@ == self@,
            is_valid_request_id(s@),
    {
        proof {
            use_type_invariant(self);
        }
        self.0.as_str()
    }
}

/// A validated W3C `traceparent` value.
#[derive(Debug, Eq, Hash, Ord, PartialEq, PartialOrd)]
pub struct TraceParent(String);

impl Clone for TraceParent {
    fn clone(&self) -> (c: Self)
        ensures
            c@ == self@,
    {
        proof {
            use_type_invariant(self);
        }
        TraceParent(self.0.clone())
    }
}

impl View for TraceParent {
    type V = Seq<char>;

    closed spec fn view(&self) -> Seq<char> {
        self.0@
    }
}

impl TraceParent {
    #[verifier::type_invariant]
    spec fn is_valid(self) -> bool {
        is_traceparent_text(self.0@)
    }

    /// Validate and construct a W3C `traceparent` value.
    ///
    /// Fails with `InvalidValue { field: "traceparent" }` exactly when the
    /// value is not a valid W3C trace context: 55 characters of lowercase
    /// hexadecimal fields separated by hyphens, a version other than `ff`,
    /// and trace and parent ids that are not all zeros.
    pub fn new(value: &str) -> (r: Result<Self, MetadataError>)
        ensures
            r is Ok <==> is_traceparent_text(value@),
            r matches Ok(tp) ==> tp@ == value@,
            r is Err ==> r == Err::<Self, MetadataError>(
                MetadataError::InvalidValue { field: "traceparent" },
            ),
    {
        if !is_traceparent(value) {
            return Err(MetadataError::InvalidValue { field: "traceparent" });
        }
        Ok(TraceParent(value.to_owned()))
    }

    /// Borrow the trace context as text.
    pub fn as_str(&self) -> (s: &str)
        ensures
            s@ == self@,
            is_traceparent_text(s@),
    {
        proof {
            use_type_invariant(self);
        }
        self.0.as_str()
    }
}

// ---------------------------------------------------------------------------
// Payload source and generation time
// ---------------------------------------------------------------------------

/// Where the payload representation came from.
#[derive(Clone, Copy, Debug, Eq, Hash, Ord, PartialEq, PartialOrd)]
pub enum PayloadSource {
    /// The representation was generated for this request.
    Generated,
    /// The representation was served from a cache.
    Cache,
    /// The representation was obtained from another service or store.
    Upstream,
}

/// The header text of each payload source.
pub open spec fn source_text(source: PayloadSource) -> Seq<char> {
    match source {
        PayloadSource::Generated => "generated"@,
        PayloadSource::Cache => "cache"@,
        PayloadSource::Upstream => "upstream"@,
    }
}

impl PayloadSource {
    /// The header text of the source.
    pub fn as_str(self) -> (s: &'static str)
        ensures
            s@ == source_text(self),
            is_visible_ascii_text(s@),
    {
        proof {
            reveal_strlit("generated");
            reveal_strlit("cache");
            reveal_strlit("upstream");
        }
        match self {
            PayloadSource::Generated => "generated",
            PayloadSource::Cache => "cache",
            PayloadSource::Upstream => "upstream",
        }
    }
}

/// A point in time, as its distance from the Unix epoch: whole seconds and
/// the nanoseconds beyond them.
#[derive(Clone, Copy, Debug, Eq, Hash, PartialEq)]
pub enum Timestamp {
    /// At or after the epoch by this much.
    SinceEpoch { secs: u64, nanos: u32 },
    /// Before the epoch by this much.
    BeforeEpoch { secs: u64, nanos: u32 },
}

/// The first second that an HTTP date cannot carry (the year 10000).
pub open spec fn http_date_end_secs() -> u64 {
    253402300800
}

/// A time that can be written as an HTTP date: not before the epoch and
/// before the year 10000.
pub open spec fn is_http_date_time(t: Timestamp) -> bool {
    t matches Timestamp::SinceEpoch { secs, .. } && secs < http_date_end_secs()
}

/// The whole seconds since the epoch of a time at or after it.
pub open spec fn epoch_secs(t: Timestamp) -> u64 {
    match t {
        Timestamp::SinceEpoch { secs, .. } => secs,
        Timestamp::BeforeEpoch { .. } => 0,
    }
}

impl Timestamp {
    /// The Unix epoch itself.
    pub fn unix_epoch() -> (t: Self)
        ensures
            t == (Timestamp::SinceEpoch { secs: 0, nanos: 0 }),
    {
        Timestamp::SinceEpoch { secs: 0, nanos: 0 }
    }

    /// The time `secs` whole seconds after the Unix epoch.
    pub fn from_unix_secs(secs: u64) -> (t: Self)
        ensures
            t == (Timestamp::SinceEpoch { secs, nanos: 0 }),
    {
        Timestamp::SinceEpoch { secs, nanos: 0 }
    }
}

/// The IMF-fixdate text that `httpdate` writes for the given second since the
/// epoch.
pub uninterp spec fn http_date_text(secs: u64) -> Seq<char>;

/// `httpdate::fmt_http_date` at `secs` seconds after the epoch. Its result is
/// named `http_date_text`; the source formats into a fixed 29-byte template of
/// letters, digits, spaces, commas and colons, which the contract states. It
/// reads only whole seconds, and panics at or after the year 10000, which
/// `requires` rules out.
#[verifier::external_body]
pub(crate) fn fmt_http_date(secs: u64) -> (text: String)
    requires
        secs < http_date_end_secs(),
    ensures
        text@ == http_date_text(secs),
        text@.len() == 29,
        is_visible_ascii_text(text@),
{
    httpdate::fmt_http_date(UNIX_EPOCH + Duration::from_secs(secs))
}

/// `SystemTime::now`, as a distance from the Unix epoch. Nothing is promised
/// of the time read but that the nanoseconds beyond whole seconds are below
/// one billion, as `Duration::subsec_nanos` documents.
#[verifier::external_body]
fn current_time() -> (t: Timestamp)
    ensures
        t matches Timestamp::SinceEpoch { nanos, .. } ==> nanos < 1_000_000_000,
        t matches Timestamp::BeforeEpoch { nanos, .. } ==> nanos < 1_000_000_000,
{
    match SystemTime::now().duration_since(UNIX_EPOCH) {
        Ok(d) => Timestamp::SinceEpoch { secs: d.as_secs(), nanos: d.subsec_nanos() },
        Err(e) => Timestamp::BeforeEpoch {
            secs: e.duration().as_secs(),
            nanos: e.duration().subsec_nanos(),
        },
    }
}

// ---------------------------------------------------------------------------
// Response metadata
// ---------------------------------------------------------------------------

/// What response metadata holds, as plain values.
pub struct MetadataView {
    pub request_id: Seq<char>,
    pub traceparent: Option<Seq<char>>,
    pub payload_source: PayloadSource,
    pub generated_at: Timestamp,
}

/// Metadata that is available before the payload starts.
#[derive(Debug, Eq, PartialEq)]
pub struct ResponseMetadata {
    request_id: RequestId,
    traceparent: Option<TraceParent>,
    payload_source: PayloadSource,
    generated_at: Timestamp,
}

impl Clone for ResponseMetadata {
    fn clone(&self) -> (c: Self)
        ensures
            c@ == self@,
    {
        let traceparent = match &self.traceparent {
            Some(tp) => Some(tp.clone()),
            None => None,
        };
        ResponseMetadata {
            request_id: self.request_id.clone(),
            traceparent,
            payload_source: self.payload_source,
            generated_at: self.generated_at,
        }
    }
}

/// The view of an optional trace context.
pub open spec fn traceparent_view(tp: Option<TraceParent>) -> Option<Seq<char>> {
    match tp {
        Some(t) => Some(t@),
        None => None,
    }
}

impl View for ResponseMetadata {
    type V = MetadataView;

    closed spec fn view(&self) -> MetadataView {
        MetadataView {
            request_id: self.request_id@,
            traceparent: traceparent_view(self.traceparent),
            payload_source: self.payload_source,
            generated_at: self.generated_at,
        }
    }
}

/// One header that metadata owns: its name and the bytes of its value.
pub type OwnedHeader = (Seq<char>, Seq<u8>);

/// The headers that metadata places before the payload, in the order in which
/// they are written: request identifier, payload source, generation time and,
/// when present, the trace context.
pub open spec fn envelope_headers(m: MetadataView) -> Seq<OwnedHeader> {
    let base = seq![
        (HEADER_REQUEST_ID@, encode_utf8(m.request_id)),
        (HEADER_PAYLOAD_SOURCE@, encode_utf8(source_text(m.payload_source))),
        (HEADER_GENERATED_AT@, encode_utf8(http_date_text(epoch_secs(m.generated_at)))),
    ];
    match m.traceparent {
        Some(tp) => base.push((HEADER_TRACEPARENT@, encode_utf8(tp))),
        None => base,
    }
}

/// Writes owned headers one after the other into a header map. A name the map
/// does not hold yet is written with its owned value; a name under which the
/// map already holds exactly the owned value is left as it is; a name under
/// which the map holds some other value is a conflict. The result is the map
/// reached and, on a conflict, the conflicting name: writing stops there, and
/// the headers written before it stay.
pub open spec fn insert_owned_headers(contents: HeaderContents, headers: Seq<OwnedHeader>) -> (
    HeaderContents,
    Option<Seq<char>>,
)
    decreases headers.len(),
{
    if headers.len() == 0 {
        (contents, None)
    } else if contents.dom().contains(headers[0].0) {
        if holds_only(contents, headers[0].0, headers[0].1) {
            insert_owned_headers(contents, headers.drop_first())
        } else {
            (contents, Some(headers[0].0))
        }
    } else {
        insert_owned_headers(
            contents.insert(headers[0].0, seq![headers[0].1]),
            headers.drop_first(),
        )
    }
}

/// Whether the header map has room for every name that writing the owned
/// headers adds, at the moment each is added.
pub open spec fn owned_headers_fit(contents: HeaderContents, headers: Seq<OwnedHeader>) -> bool
    decreases headers.len(),
{
    if headers.len() == 0 {
        true
    } else if contents.dom().contains(headers[0].0) {
        if holds_only(contents, headers[0].0, headers[0].1) {
            owned_headers_fit(contents, headers.drop_first())
        } else {
            true
        }
    } else {
        has_room_for(contents, 1) && owned_headers_fit(
            contents.insert(headers[0].0, seq![headers[0].1]),
            headers.drop_first(),
        )
    }
}

/// Writes one owned header: nothing if the map already holds exactly this
/// value under the name, a conflict if it holds some other value, an invalid
/// value if `http` refuses the bytes, else the name now holds exactly this
/// value.
fn insert_owned_header(headers: &mut HeaderMap<HeaderValue>, name: &'static str, value: &str) -> (r:
    Result<(), MetadataError>)
    requires
        is_header_name(name@),
        header_map_contents(*old(headers)).dom().contains(name@) || !is_header_value(
            encode_utf8(value@),
        ) || has_room_for(header_map_contents(*old(headers)), 1),
    ensures
        holds_only(header_map_contents(*old(headers)), name@, encode_utf8(value@)) ==> r is Ok
            && header_map_contents(*final(headers)) == header_map_contents(*old(headers)),
        header_map_contents(*old(headers)).dom().contains(name@) && !holds_only(
            header_map_contents(*old(headers)),
            name@,
            encode_utf8(value@),
        ) ==> r == Err::<(), MetadataError>(MetadataError::ConflictingHeader(name))
            && header_map_contents(*final(headers)) == header_map_contents(*old(headers)),
        !header_map_contents(*old(headers)).dom().contains(name@) && !is_header_value(
            encode_utf8(value@),
        ) ==> r == Err::<(), MetadataError>(MetadataError::InvalidValue { field: "header value" })
            && header_map_contents(*final(headers)) == header_map_contents(*old(headers)),
        !header_map_contents(*old(headers)).dom().contains(name@) && is_header_value(
            encode_utf8(value@),
        ) ==> r is Ok && header_map_contents(*final(headers)) == header_map_contents(
            *old(headers),
        ).insert(name@, seq![encode_utf8(value@)]),
{
    let bytes = value.as_bytes();
    match compare_held_values(headers, name, bytes) {
        HeldValues::Same => {
            return Ok(());
        },
        HeldValues::Different => {
            return Err(MetadataError::ConflictingHeader(name));
        },
        HeldValues::Absent => {},
    }
    match header_value_from_bytes(bytes) {
        Ok(v) => {
            header_map_insert(headers, name, v);
            Ok(())
        },
        Err(_) => Err(MetadataError::InvalidValue { field: "header value" }),
    }
}

/// The names that metadata owns are lowercase header names.
pub proof fn lemma_owned_names_are_header_names()
    ensures
        is_header_name(HEADER_REQUEST_ID@),
        is_header_name(HEADER_TRACEPARENT@),
        is_header_name(HEADER_PAYLOAD_SOURCE@),
        is_header_name(HEADER_GENERATED_AT@),
{
    reveal_strlit("x-request-id");
    reveal_strlit("traceparent");
    reveal_strlit("streaming-envelope-source");
    reveal_strlit("streaming-envelope-generated-at");
}

/// The names that metadata owns differ from each other.
pub proof fn lemma_owned_names_distinct()
    ensures
        HEADER_REQUEST_ID@ != HEADER_TRACEPARENT@,
        HEADER_REQUEST_ID@ != HEADER_PAYLOAD_SOURCE@,
        HEADER_REQUEST_ID@ != HEADER_GENERATED_AT@,
        HEADER_TRACEPARENT@ != HEADER_PAYLOAD_SOURCE@,
        HEADER_TRACEPARENT@ != HEADER_GENERATED_AT@,
        HEADER_PAYLOAD_SOURCE@ != HEADER_GENERATED_AT@,
{
    reveal_strlit("x-request-id");
    reveal_strlit("traceparent");
    reveal_strlit("streaming-envelope-source");
    reveal_strlit("streaming-envelope-generated-at");
    assert(HEADER_REQUEST_ID@.len() != HEADER_TRACEPARENT@.len());
    assert(HEADER_REQUEST_ID@.len() != HEADER_PAYLOAD_SOURCE@.len());
    assert(HEADER_REQUEST_ID@.len() != HEADER_GENERATED_AT@.len());
    assert(HEADER_TRACEPARENT@.len() != HEADER_PAYLOAD_SOURCE@.len());
    assert(HEADER_TRACEPARENT@.len() != HEADER_GENERATED_AT@.len());
    assert(HEADER_PAYLOAD_SOURCE@.len() != HEADER_GENERATED_AT@.len());
}

impl ResponseMetadata {
    /// Construct metadata with the required request identifier, payload
    /// source, and generation time, and no trace context.
    pub fn new(request_id: RequestId, payload_source: PayloadSource, generated_at: Timestamp) -> (m:
        Self)
        ensures
            m@.request_id == request_id@,
            m@.traceparent == None::<Seq<char>>,
            m@.payload_source == payload_source,
            m@.generated_at == generated_at,
    {
        ResponseMetadata { request_id, traceparent: None, payload_source, generated_at }
    }

    /// Construct metadata stamped with the current system time.
    pub fn now(request_id: RequestId, payload_source: PayloadSource) -> (m: Self)
        ensures
            m@.request_id == request_id@,
            m@.traceparent == None::<Seq<char>>,
            m@.payload_source == payload_source,
            m@.generated_at matches Timestamp::SinceEpoch { nanos, .. } ==> nanos < 1_000_000_000,
            m@.generated_at matches Timestamp::BeforeEpoch { nanos, .. } ==> nanos < 1_000_000_000,
    {
        Self::new(request_id, payload_source, current_time())
    }

    /// Attach a W3C trace context, replacing any earlier one.
    pub fn with_traceparent(self, traceparent: TraceParent) -> (m: Self)
        ensures
            m@.request_id == self@.request_id,
            m@.traceparent == Some(traceparent@),
            m@.payload_source == self@.payload_source,
            m@.generated_at == self@.generated_at,
    {
        let mut m = self;
        m.traceparent = Some(traceparent);
        m
    }

    /// Return the request identifier.
    pub fn request_id(&self) -> (id: &RequestId)
        ensures
            id@ == self@.request_id,
    {
        &self.request_id
    }

    /// Return the payload source.
    pub fn payload_source(&self) -> (s: PayloadSource)
        ensures
            s == self@.payload_source,
    {
        self.payload_source
    }

    /// Return the trace context, if any.
    pub fn traceparent(&self) -> (tp: Option<&TraceParent>)
        ensures
            tp matches Some(t) ==> self@.traceparent == Some(t@),
            tp is None ==> self@.traceparent is None,
    {
        match &self.traceparent {
            Some(t) => Some(t),
            None => None,
        }
    }

    /// Return the generation time.
    pub fn generated_at(&self) -> (t: Timestamp)
        ensures
            t == self@.generated_at,
    {
        self.generated_at
    }

    /// Apply the start metadata to response headers.
    ///
    /// A generation time that an HTTP date cannot carry (before the epoch, or
    /// in the year 10000 or later) fails with
    /// `InvalidValue { field: "generated_at" }` before anything is written.
    /// Otherwise the owned headers are written in order: the request
    /// identifier, the payload source, the generation time as an HTTP date
    /// and, when present, the trace context. A name the map does not hold yet
    /// is written; a name under which the map already holds exactly the owned
    /// value is left as it is. At the first name under which the map holds a
    /// different value this stops with `ConflictingHeader` naming it, leaving
    /// the headers written before it in place.
    pub fn apply(&self, headers: &mut HeaderMap<HeaderValue>) -> (r: Result<(), MetadataError>)
        requires
            is_http_date_time(self@.generated_at) ==> owned_headers_fit(
                header_map_contents(*old(headers)),
                envelope_headers(self@),
            ),
        ensures
            !is_http_date_time(self@.generated_at) ==> r == Err::<(), MetadataError>(
                MetadataError::InvalidValue { field: "generated_at" },
            ) && header_map_contents(*final(headers)) == header_map_contents(*old(headers)),
            is_http_date_time(self@.generated_at) ==> header_map_contents(*final(headers))
                == insert_owned_headers(
                header_map_contents(*old(headers)),
                envelope_headers(self@),
            ).0,
            is_http_date_time(self@.generated_at) ==> (r is Ok <==> insert_owned_headers(
                header_map_contents(*old(headers)),
                envelope_headers(self@),
            ).1 is None),
            is_http_date_time(self@.generated_at) ==> (r matches Err(e) ==> e matches MetadataError::ConflictingHeader(n) && insert_owned_headers(
                header_map_contents(*old(headers)),
                envelope_headers(self@),
            ).1 == Some(n@)),
            r is Ok ==> metadata_written(header_map_contents(*final(headers)), self@),
    {
        proof {
            lemma_owned_names_are_header_names();
            lemma_owned_names_distinct();
        }
        let ghost c0 = header_map_contents(*headers);
        let ghost fields = envelope_headers(self@);
        let request_id = self.request_id.as_str();
        let source = self.payload_source.as_str();
        let secs = match self.generated_at {
            Timestamp::SinceEpoch { secs, .. } => secs,
            Timestamp::BeforeEpoch { .. } => {
                return Err(MetadataError::InvalidValue { field: "generated_at" });
            },
        };
        if secs >= 253402300800 {
            return Err(MetadataError::InvalidValue { field: "generated_at" });
        }
        let date = fmt_http_date(secs);
        proof {
            lemma_visible_ascii_is_header_value(source@);
            lemma_visible_ascii_is_header_value(date@);
        }
        let ghost step1 = fields.drop_first();
        match insert_owned_header(headers, HEADER_REQUEST_ID, request_id) {
            Ok(()) => {},
            Err(e) => {
                return Err(e);
            },
        }
        let ghost c1 = header_map_contents(*headers);
        assert(insert_owned_headers(c0, fields) == insert_owned_headers(c1, step1));
        assert(owned_headers_fit(c1, step1));
        let ghost step2 = step1.drop_first();
        match insert_owned_header(headers, HEADER_PAYLOAD_SOURCE, source) {
            Ok(()) => {},
            Err(e) => {
                return Err(e);
            },
        }
        let ghost c2 = header_map_contents(*headers);
        assert(insert_owned_headers(c1, step1) == insert_owned_headers(c2, step2));
        assert(owned_headers_fit(c2, step2));
        let ghost step3 = step2.drop_first();
        match insert_owned_header(headers, HEADER_GENERATED_AT, date.as_str()) {
            Ok(()) => {},
            Err(e) => {
                return Err(e);
            },
        }
        let ghost c3 = header_map_contents(*headers);
        assert(insert_owned_headers(c2, step2) == insert_owned_headers(c3, step3));
        assert(owned_headers_fit(c3, step3));
        match &self.traceparent {
            Some(traceparent) => {
                let tp = traceparent.as_str();
                proof {
                    lemma_traceparent_is_header_value(tp@);
                }
                match insert_owned_header(headers, HEADER_TRACEPARENT, tp) {
                    Ok(()) => {},
                    Err(e) => {
                        return Err(e);
                    },
                }
                let ghost c4 = header_map_contents(*headers);
                assert(insert_owned_headers(c3, step3) == insert_owned_headers(
                    c4,
                    step3.drop_first(),
                ));
            },
            None => {},
        }
        proof {
            lemma_apply_writes_metadata(c0, self@);
        }
        Ok(())
    }
}

// ---------------------------------------------------------------------------
// Laws of writing owned headers
// ---------------------------------------------------------------------------

/// Owned headers whose names differ pairwise.
pub open spec fn names_distinct(headers: Seq<OwnedHeader>) -> bool {
    forall|i: int, j: int|
        0 <= i < j < headers.len() ==> #[trigger] headers[i].0 != #[trigger] headers[j].0
}

/// The owned headers of any metadata have pairwise distinct names.
pub proof fn lemma_envelope_names_distinct(m: MetadataView)
    ensures
        names_distinct(envelope_headers(m)),
{
    lemma_owned_names_distinct();
}

/// Writing owned headers never changes a header that the map already held:
/// every name present before is present after, with the same values.
pub proof fn lemma_existing_headers_untouched(contents: HeaderContents, headers: Seq<OwnedHeader>)
    ensures
        forall|k: Seq<char>|
            #![trigger contents.dom().contains(k)]
            contents.dom().contains(k) ==> insert_owned_headers(contents, headers).0.dom().contains(
                k,
            ) && insert_owned_headers(contents, headers).0[k] == contents[k],
    decreases headers.len(),
{
    if headers.len() > 0 {
        if contents.dom().contains(headers[0].0) {
            if holds_only(contents, headers[0].0, headers[0].1) {
                lemma_existing_headers_untouched(contents, headers.drop_first());
            }
        } else {
            let next = contents.insert(headers[0].0, seq![headers[0].1]);
            lemma_existing_headers_untouched(next, headers.drop_first());
            assert forall|k: Seq<char>| #![trigger contents.dom().contains(k)] contents.dom().contains(
                k,
            ) implies next.dom().contains(k) && next[k] == contents[k] by {}
        }
    }
}

/// Whether the map's values under an owned header's name are no obstacle to
/// writing it: the name is absent, or it holds exactly the owned value.
pub open spec fn admits(contents: HeaderContents, header: OwnedHeader) -> bool {
    contents.dom().contains(header.0) ==> holds_only(contents, header.0, header.1)
}

/// Writing owned headers with distinct names succeeds exactly when, for
/// every owned name the map holds, it holds exactly the owned value. Then
/// every owned name holds exactly its owned value and no other name is added.
/// Otherwise the conflict reported is the first owned name under which the
/// map holds a different value.
pub proof fn lemma_owned_headers_written(contents: HeaderContents, headers: Seq<OwnedHeader>)
    requires
        names_distinct(headers),
    ensures
        insert_owned_headers(contents, headers).1 is None <==> forall|i: int|
            0 <= i < headers.len() ==> admits(contents, #[trigger] headers[i]),
        insert_owned_headers(contents, headers).1 is None ==> forall|i: int|
            0 <= i < headers.len() ==> holds_only(
                insert_owned_headers(contents, headers).0,
                #[trigger] headers[i].0,
                headers[i].1,
            ),
        insert_owned_headers(contents, headers).1 is None ==> forall|k: Seq<char>|
            #![trigger insert_owned_headers(contents, headers).0.dom().contains(k)]
            insert_owned_headers(contents, headers).0.dom().contains(k) ==> contents.dom().contains(
                k,
            ) || exists|i: int| 0 <= i < headers.len() && #[trigger] headers[i].0 == k,
        insert_owned_headers(contents, headers).1 matches Some(n) ==> exists|i: int|
            0 <= i < headers.len() && #[trigger] headers[i].0 == n && !admits(contents, headers[i])
                && forall|j: int| 0 <= j < i ==> admits(contents, #[trigger] headers[j]),
    decreases headers.len(),
{
    if headers.len() == 0 {
        return;
    }
    let h = headers[0];
    let rest = headers.drop_first();
    let r = insert_owned_headers(contents, headers);
    if contents.dom().contains(h.0) && !holds_only(contents, h.0, h.1) {
        assert(!admits(contents, headers[0]));
        return;
    }
    let next = if contents.dom().contains(h.0) {
        contents
    } else {
        contents.insert(h.0, seq![h.1])
    };
    assert(r == insert_owned_headers(next, rest));
    assert(names_distinct(rest)) by {
        assert forall|i: int, j: int| 0 <= i < j < rest.len() implies #[trigger] rest[i].0
            != #[trigger] rest[j].0 by {
            assert(rest[i] == headers[i + 1]);
            assert(rest[j] == headers[j + 1]);
        }
    }
    lemma_owned_headers_written(next, rest);
    lemma_existing_headers_untouched(next, rest);
    assert(holds_only(next, h.0, h.1));
    assert forall|i: int| 0 <= i < rest.len() implies admits(next, #[trigger] rest[i]) == admits(
        contents,
        rest[i],
    ) by {
        assert(rest[i] == headers[i + 1]);
        assert(headers[0].0 != headers[i + 1].0);
        if next.dom().contains(rest[i].0) {
            assert(next[rest[i].0] == contents[rest[i].0]);
        }
    }
    assert(admits(contents, headers[0]));
    if r.1 is None {
        assert forall|i: int| 0 <= i < headers.len() implies admits(contents, #[trigger] headers[i])
            by {
            if i > 0 {
                assert(headers[i] == rest[i - 1]);
            }
        }
        assert forall|i: int| 0 <= i < headers.len() implies holds_only(
            r.0,
            #[trigger] headers[i].0,
            headers[i].1,
        ) by {
            if i > 0 {
                assert(headers[i] == rest[i - 1]);
            } else {
                assert(next.dom().contains(h.0));
                assert(r.0[h.0] == next[h.0]);
            }
        }
        assert forall|k: Seq<char>| #![trigger r.0.dom().contains(k)] r.0.dom().contains(
            k,
        ) implies contents.dom().contains(k) || exists|i: int|
            0 <= i < headers.len() && #[trigger] headers[i].0 == k by {
            if !contents.dom().contains(k) {
                if k == h.0 {
                    assert(headers[0].0 == k);
                } else {
                    assert(!next.dom().contains(k));
                    let i = choose|i: int| 0 <= i < rest.len() && #[trigger] rest[i].0 == k;
                    assert(headers[i + 1].0 == k);
                }
            }
        }
    } else {
        let n = r.1->0;
        let i = choose|i: int|
            0 <= i < rest.len() && #[trigger] rest[i].0 == n && !admits(next, rest[i]) && forall|
                j: int,
            | 0 <= j < i ==> admits(next, #[trigger] rest[j]);
        assert(headers[i + 1] == rest[i]);
        assert(!admits(contents, headers[i + 1]));
        assert forall|j: int| 0 <= j < i + 1 implies admits(contents, #[trigger] headers[j]) by {
            if j > 0 {
                assert(headers[j] == rest[j - 1]);
            }
        }
        assert(headers[i + 1].0 == n);
    }
}

// ---------------------------------------------------------------------------
// Laws of what is accepted and what is written
// ---------------------------------------------------------------------------

/// The hexadecimal digits accepted in a `traceparent` are exactly the sixteen
/// characters `0123456789abcdef`.
pub proof fn lemma_hex_digits(b: u8)
    ensures
        is_hex_digit(b) <==> seq![
            '0' as u8, '1' as u8, '2' as u8, '3' as u8, '4' as u8, '5' as u8, '6' as u8, '7' as u8,
            '8' as u8, '9' as u8, 'a' as u8, 'b' as u8, 'c' as u8, 'd' as u8, 'e' as u8, 'f' as u8,
        ].contains(b),
{
    let digits = seq![
        '0' as u8, '1' as u8, '2' as u8, '3' as u8, '4' as u8, '5' as u8, '6' as u8, '7' as u8,
        '8' as u8, '9' as u8, 'a' as u8, 'b' as u8, 'c' as u8, 'd' as u8, 'e' as u8, 'f' as u8,
    ];
    if is_hex_digit(b) {
        if b <= 57 {
            assert(digits[b - 48] == b);
        } else {
            assert(digits[b - 87] == b);
        }
    }
    if digits.contains(b) {
        let i = choose|i: int| 0 <= i < digits.len() && digits[i] == b;
        assert(0 <= i < 16);
    }
}

/// Whether `b` is a character of the W3C `traceparent` alphabet for fields:
/// a digit or a lowercase letter from `a` to `f`.
pub open spec fn w3c_field_char(b: u8) -> bool {
    ('0' as u8 <= b && b <= '9' as u8) || ('a' as u8 <= b && b <= 'f' as u8)
}

/// The bytes of a value that `TraceParent::new` accepts, written out: 55
/// bytes, `-` at positions 2, 35 and 52, one of `0123456789abcdef` at every
/// other position, a version other than `ff`, and trace and parent ids that
/// are not all `0`.
pub proof fn lemma_traceparent_characterization(b: Seq<u8>)
    ensures
        is_traceparent_bytes(b) <==> {
            &&& b.len() == 55
            &&& b[2] == '-' as u8 && b[35] == '-' as u8 && b[52] == '-' as u8
            &&& forall|i: int|
                0 <= i < 55 && i != 2 && i != 35 && i != 52 ==> #[trigger] w3c_field_char(b[i])
            &&& !(b[0] == 'f' as u8 && b[1] == 'f' as u8)
            &&& exists|i: int| 3 <= i < 35 && #[trigger] b[i] != '0' as u8
            &&& exists|i: int| 36 <= i < 52 && #[trigger] b[i] != '0' as u8
        },
{
    if b.len() == 55 {
        if b[2] == 45u8 && b[35] == 45u8 && b[52] == 45u8 {
            assert((forall|i: int|
                0 <= i < 55 ==> if is_traceparent_dash_position(i) {
                    #[trigger] b[i] == 45u8
                } else {
                    is_hex_digit(b[i])
                }) <==> (forall|i: int|
                0 <= i < 55 && i != 2 && i != 35 && i != 52 ==> #[trigger] w3c_field_char(b[i])))
                by {
                if forall|i: int|
                    0 <= i < 55 && i != 2 && i != 35 && i != 52 ==> #[trigger] w3c_field_char(b[i]) {
                    assert forall|i: int| 0 <= i < 55 implies if is_traceparent_dash_position(i) {
                        #[trigger] b[i] == 45u8
                    } else {
                        is_hex_digit(b[i])
                    } by {
                        if !is_traceparent_dash_position(i) {
                            assert(w3c_field_char(b[i]));
                        }
                    }
                }
                if forall|i: int|
                    0 <= i < 55 ==> if is_traceparent_dash_position(i) {
                        #[trigger] b[i] == 45u8
                    } else {
                        is_hex_digit(b[i])
                    } {
                    assert forall|i: int| 0 <= i < 55 && i != 2 && i != 35 && i != 52 implies #[trigger] w3c_field_char(
                        b[i],
                    ) by {
                        assert(!is_traceparent_dash_position(i));
                        assert(is_hex_digit(b[i]));
                    }
                }
            }
        } else {
            if b[2] != 45u8 {
                assert(is_traceparent_dash_position(2));
            }
            if b[35] != 45u8 {
                assert(is_traceparent_dash_position(35));
            }
            if b[52] != 45u8 {
                assert(is_traceparent_dash_position(52));
            }
        }
    }
}

/// A request identifier is accepted exactly when it is non-empty and every
/// byte of its UTF-8 encoding is a tab or at least a space and not DEL,
/// whatever its length.
pub proof fn lemma_request_id_characterization(s: Seq<char>)
    ensures
        is_valid_request_id(s) <==> (s.len() > 0 && forall|i: int|
            0 <= i < encode_utf8(s).len() ==> (#[trigger] encode_utf8(s)[i] >= 32
                && encode_utf8(s)[i] != 127) || encode_utf8(s)[i] == 9),
{
    let b = encode_utf8(s);
    if is_header_value(b) {
        assert forall|i: int| 0 <= i < b.len() implies (#[trigger] b[i] >= 32 && b[i] != 127) || b[i]
            == 9 by {
            assert(is_header_value_byte(b[i]));
        }
    }
    if forall|i: int| 0 <= i < b.len() ==> (#[trigger] b[i] >= 32 && b[i] != 127) || b[i] == 9 {
        assert forall|i: int| 0 <= i < b.len() implies #[trigger] is_header_value_byte(b[i]) by {
            assert((b[i] >= 32 && b[i] != 127) || b[i] == 9);
        }
    }
}

/// Every non-empty printable ASCII text is a valid request identifier, of
/// any length.
pub proof fn lemma_printable_text_is_request_id(s: Seq<char>)
    requires
        s.len() > 0,
        forall|i: int| 0 <= i < s.len() ==> ' ' <= #[trigger] s[i] && s[i] <= '~',
    ensures
        is_valid_request_id(s),
{
    lemma_visible_ascii_is_header_value(s);
}

/// The header text of each payload source, spelled out; the three differ.
pub proof fn lemma_source_texts()
    ensures
        source_text(PayloadSource::Generated) == seq!['g', 'e', 'n', 'e', 'r', 'a', 't', 'e', 'd'],
        source_text(PayloadSource::Cache) == seq!['c', 'a', 'c', 'h', 'e'],
        source_text(PayloadSource::Upstream) == seq!['u', 'p', 's', 't', 'r', 'e', 'a', 'm'],
        source_text(PayloadSource::Generated) != source_text(PayloadSource::Cache),
        source_text(PayloadSource::Generated) != source_text(PayloadSource::Upstream),
        source_text(PayloadSource::Cache) != source_text(PayloadSource::Upstream),
{
    reveal_strlit("generated");
    reveal_strlit("cache");
    reveal_strlit("upstream");
    assert("generated"@ =~= seq!['g', 'e', 'n', 'e', 'r', 'a', 't', 'e', 'd']);
    assert("cache"@ =~= seq!['c', 'a', 'c', 'h', 'e']);
    assert("upstream"@ =~= seq!['u', 'p', 's', 't', 'r', 'e', 'a', 'm']);
}

/// The headers hold, under each owned name, exactly the metadata's own value:
/// the request identifier, the payload source's text, the HTTP date of the
/// generation time and, when there is one, the trace context.
pub open spec fn metadata_written(contents: HeaderContents, m: MetadataView) -> bool {
    &&& holds_only(contents, HEADER_REQUEST_ID@, encode_utf8(m.request_id))
    &&& holds_only(contents, HEADER_PAYLOAD_SOURCE@, encode_utf8(source_text(m.payload_source)))
    &&& holds_only(
        contents,
        HEADER_GENERATED_AT@,
        encode_utf8(http_date_text(epoch_secs(m.generated_at))),
    )
    &&& m.traceparent matches Some(tp) ==> holds_only(contents, HEADER_TRACEPARENT@, encode_utf8(tp))
}

/// Whenever writing the owned headers succeeds, each owned name holds exactly
/// the metadata's value for it: the request identifier under
/// `x-request-id`, the payload source's own text under
/// `streaming-envelope-source`, the generation time's HTTP date under
/// `streaming-envelope-generated-at`, and the trace context, if any, under
/// `traceparent`.
pub proof fn lemma_apply_writes_metadata(contents: HeaderContents, m: MetadataView)
    requires
        insert_owned_headers(contents, envelope_headers(m)).1 is None,
    ensures
        metadata_written(insert_owned_headers(contents, envelope_headers(m)).0, m),
{
    let hs = envelope_headers(m);
    lemma_envelope_names_distinct(m);
    lemma_owned_headers_written(contents, hs);
    let r = insert_owned_headers(contents, hs).0;
    assert(holds_only(r, hs[0].0, hs[0].1));
    assert(holds_only(r, hs[1].0, hs[1].1));
    assert(holds_only(r, hs[2].0, hs[2].1));
    if m.traceparent is Some {
        assert(holds_only(r, hs[3].0, hs[3].1));
    }
}

} // verus!
