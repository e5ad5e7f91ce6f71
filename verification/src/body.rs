//! The completion state machine of the streaming envelope body, the
//! completion trailer, and the headers with which a response is wrapped.
//!
//! The body itself is polled elsewhere: each poll of the inner body is handed
//! to `EnvelopeState::on_poll` as an `InnerPoll`, and the `EnvelopePoll` that
//! comes back is what the envelope body yields.

use crate::decimal::{decimal, decimal_digits, lemma_decimal_is_header_value};
use crate::headers::{
    appended_values, compare_held_values, values_held, has_room_for, header_map_append, header_map_contents,
    header_map_insert, header_map_keys_len, header_value_from_bytes, holds_only, is_header_name,
    new_header_map, HeaderContents, HeldValues,
};
use crate::metadata::{
    envelope_headers, fmt_http_date, insert_owned_headers, is_http_date_time,
    is_visible_ascii_text, lemma_owned_names_are_header_names, lemma_owned_names_distinct,
    lemma_visible_ascii_is_header_value, metadata_written, owned_headers_fit, MetadataView, OwnedHeader,
    ResponseMetadata, Timestamp, HEADER_GENERATED_AT, HEADER_PAYLOAD_SOURCE, HEADER_REQUEST_ID,
    HEADER_TRACEPARENT,
};
use crate::MetadataError;
use http::header::{HeaderMap, HeaderValue};
use vstd::prelude::*;
use vstd::utf8::encode_utf8;

verus! {

/// The completion trailer containing the exact number of payload bytes
/// observed by the envelope body.
pub const HEADER_PAYLOAD_BYTES: &'static str = "streaming-envelope-payload-bytes";

/// The header that announces which trailers will follow the body.
pub const HEADER_TRAILER: &'static str = "trailer";

/// The completion trailer and the trailer announcement are lowercase header
/// names, and the completion trailer's name is printable text.
pub proof fn lemma_body_names()
    ensures
        is_header_name(HEADER_PAYLOAD_BYTES@),
        is_header_name(HEADER_TRAILER@),
        is_visible_ascii_text(HEADER_PAYLOAD_BYTES@),
{
    reveal_strlit("streaming-envelope-payload-bytes");
    reveal_strlit("trailer");
}

/// Sets the completion trailer to the decimal count of payload bytes,
/// replacing any value it had.
pub fn add_completion_trailer(headers: &mut HeaderMap<HeaderValue>, payload_bytes: u64)
    requires
        has_room_for(header_map_contents(*old(headers)), 1),
    ensures
        header_map_contents(*final(headers)) == header_map_contents(*old(headers)).insert(
            HEADER_PAYLOAD_BYTES@,
            seq![decimal(payload_bytes as nat)],
        ),
{
    proof {
        lemma_body_names();
        lemma_decimal_is_header_value(payload_bytes as nat);
    }
    let digits = decimal_digits(payload_bytes);
    match header_value_from_bytes(digits.as_slice()) {
        Ok(value) => header_map_insert(headers, HEADER_PAYLOAD_BYTES, value),
        Err(_) => {},
    }
}

/// A fresh trailer map that holds only the completion trailer.
pub fn completion_trailers(payload_bytes: u64) -> (trailers: HeaderMap<HeaderValue>)
    ensures
        header_map_contents(trailers) == HeaderContents::empty().insert(
            HEADER_PAYLOAD_BYTES@,
            seq![decimal(payload_bytes as nat)],
        ),
{
    let mut trailers = new_header_map();
    add_completion_trailer(&mut trailers, payload_bytes);
    trailers
}

// ---------------------------------------------------------------------------
// Wrapping a response
// ---------------------------------------------------------------------------

/// Whether wrapping a response with these headers never has to add a name to
/// a full header map: the owned headers fit as they are written and, when all
/// of them are in place, the trailer announcement fits too.
pub open spec fn wrap_fits_from(contents: HeaderContents, headers: Seq<OwnedHeader>) -> bool {
    &&& owned_headers_fit(contents, headers)
    &&& insert_owned_headers(contents, headers).1 is None ==> has_room_for(
        insert_owned_headers(contents, headers).0,
        1,
    )
}

/// Whether wrapping a response whose headers hold `contents` with metadata
/// `m` never has to add a name to a full header map. A generation time that
/// an HTTP date cannot carry writes nothing.
pub open spec fn wrap_fits(contents: HeaderContents, m: MetadataView) -> bool {
    is_http_date_time(m.generated_at) ==> wrap_fits_from(contents, envelope_headers(m))
}

/// The header map after one owned header has been taken: written if absent,
/// unchanged otherwise.
pub open spec fn step_contents(contents: HeaderContents, header: OwnedHeader) -> HeaderContents {
    if contents.dom().contains(header.0) {
        contents
    } else {
        contents.insert(header.0, seq![header.1])
    }
}

/// The outcome of testing one owned header for room.
enum FitStep {
    /// Testing stops with this answer.
    Stop(bool),
    /// Testing goes on with this many names added so far.
    Next(usize),
}

/// Tests one owned header against the map: `c` is the map as it stands once
/// the earlier owned headers were taken, holding `n + added` names.
fn fit_step(
    headers: &HeaderMap<HeaderValue>,
    n: usize,
    added: usize,
    name: &'static str,
    value: &[u8],
    Ghost(c): Ghost<HeaderContents>,
    Ghost(hs): Ghost<Seq<OwnedHeader>>,
) -> (r: FitStep)
    requires
        is_header_name(name@),
        hs.len() > 0,
        hs[0] == (name@, value@),
        c.dom().finite(),
        c.dom().len() == n + added,
        c.dom().contains(name@) == header_map_contents(*headers).dom().contains(name@),
        c.dom().contains(name@) ==> c[name@] == header_map_contents(*headers)[name@],
    ensures
        r matches FitStep::Stop(b) ==> b == wrap_fits_from(c, hs),
        r matches FitStep::Next(k) ==> wrap_fits_from(c, hs) == wrap_fits_from(
            step_contents(c, hs[0]),
            hs.drop_first(),
        ) && step_contents(c, hs[0]).dom().finite() && step_contents(c, hs[0]).dom().len() == n
            + k,
{
    match compare_held_values(headers, name, value) {
        HeldValues::Different => {
            assert(!holds_only(c, name@, value@));
            FitStep::Stop(true)
        },
        HeldValues::Same => {
            assert(holds_only(c, name@, value@));
            FitStep::Next(added)
        },
        HeldValues::Absent => {
            if added <= 6553 && n <= 6553 - added {
                assert(step_contents(c, hs[0]).dom() == c.dom().insert(name@));
                FitStep::Next(added + 1)
            } else {
                FitStep::Stop(false)
            }
        },
    }
}

/// Whether wrapping a response whose headers are `headers` with `metadata`
/// never has to add a name to a full header map: the condition under which
/// `wrap_response_headers` may be called.
pub fn wrap_response_headers_fit(headers: &HeaderMap<HeaderValue>, metadata: &ResponseMetadata) -> (b:
    bool)
    ensures
        b == wrap_fits(header_map_contents(*headers), metadata@),
{
    proof {
        lemma_owned_names_are_header_names();
        lemma_owned_names_distinct();
    }
    let secs = match metadata.generated_at() {
        Timestamp::SinceEpoch { secs, .. } => secs,
        Timestamp::BeforeEpoch { .. } => {
            return true;
        },
    };
    if secs >= 253402300800 {
        return true;
    }
    let date = fmt_http_date(secs);
    let n = header_map_keys_len(headers);
    let ghost c0 = header_map_contents(*headers);
    let ghost hs0 = envelope_headers(metadata@);
    let request_id = metadata.request_id().as_str();
    let source = metadata.payload_source().as_str();
    let added = match fit_step(
        headers,
        n,
        0,
        HEADER_REQUEST_ID,
        request_id.as_bytes(),
        Ghost(c0),
        Ghost(hs0),
    ) {
        FitStep::Stop(b) => {
            return b;
        },
        FitStep::Next(k) => k,
    };
    let ghost c1 = step_contents(c0, hs0[0]);
    let ghost hs1 = hs0.drop_first();
    let added = match fit_step(
        headers,
        n,
        added,
        HEADER_PAYLOAD_SOURCE,
        source.as_bytes(),
        Ghost(c1),
        Ghost(hs1),
    ) {
        FitStep::Stop(b) => {
            return b;
        },
        FitStep::Next(k) => k,
    };
    let ghost c2 = step_contents(c1, hs1[0]);
    let ghost hs2 = hs1.drop_first();
    let added = match fit_step(
        headers,
        n,
        added,
        HEADER_GENERATED_AT,
        date.as_str().as_bytes(),
        Ghost(c2),
        Ghost(hs2),
    ) {
        FitStep::Stop(b) => {
            return b;
        },
        FitStep::Next(k) => k,
    };
    let ghost c3 = step_contents(c2, hs2[0]);
    let ghost hs3 = hs2.drop_first();
    let added = match metadata.traceparent() {
        Some(tp) => {
            match fit_step(
                headers,
                n,
                added,
                HEADER_TRACEPARENT,
                tp.as_str().as_bytes(),
                Ghost(c3),
                Ghost(hs3),
            ) {
                FitStep::Stop(b) => {
                    return b;
                },
                FitStep::Next(k) => {
                    let ghost c4 = step_contents(c3, hs3[0]);
                    assert(hs3.drop_first().len() == 0);
                    assert(wrap_fits_from(c4, hs3.drop_first()) == has_room_for(c4, 1));
                    k
                },
            }
        },
        None => {
            assert(hs3.len() == 0);
            assert(wrap_fits_from(c3, hs3) == has_room_for(c3, 1));
            added
        },
    };
    added <= 6553 && n <= 6553 - added
}

/// Applies the metadata to the response headers and announces the completion
/// trailer: what wrapping a response does to its headers.
///
/// A generation time that an HTTP date cannot carry fails with
/// `InvalidValue { field: "generated_at" }` and changes nothing. Otherwise the
/// owned headers are written as `ResponseMetadata::apply` writes them; on
/// success `streaming-envelope-payload-bytes` has then been appended to the
/// `trailer` header. On a conflict, the headers written before the
/// conflicting name stay and nothing is announced.
pub fn wrap_response_headers(headers: &mut HeaderMap<HeaderValue>, metadata: &ResponseMetadata) -> (r:
    Result<(), MetadataError>)
    requires
        wrap_fits(header_map_contents(*old(headers)), metadata@),
    ensures
        !is_http_date_time(metadata@.generated_at) ==> r == Err::<(), MetadataError>(
            MetadataError::InvalidValue { field: "generated_at" },
        ) && header_map_contents(*final(headers)) == header_map_contents(*old(headers)),
        is_http_date_time(metadata@.generated_at) ==> (r is Ok <==> insert_owned_headers(
            header_map_contents(*old(headers)),
            envelope_headers(metadata@),
        ).1 is None),
        r is Ok ==> header_map_contents(*final(headers)) == announced_trailer(
            insert_owned_headers(header_map_contents(*old(headers)), envelope_headers(metadata@)).0,
        ),
        r is Ok ==> header_map_contents(*final(headers)).dom().contains(HEADER_TRAILER@)
            && header_map_contents(*final(headers))[HEADER_TRAILER@] == values_held(
            insert_owned_headers(header_map_contents(*old(headers)), envelope_headers(metadata@)).0,
            HEADER_TRAILER@,
        ).push(encode_utf8(HEADER_PAYLOAD_BYTES@)),
        r is Ok ==> metadata_written(header_map_contents(*final(headers)), metadata@),
        is_http_date_time(metadata@.generated_at) && r is Err ==> header_map_contents(
            *final(headers),
        ) == insert_owned_headers(
            header_map_contents(*old(headers)),
            envelope_headers(metadata@),
        ).0,
        is_http_date_time(metadata@.generated_at) ==> (r matches Err(e) ==> e matches MetadataError::ConflictingHeader(n) && insert_owned_headers(
            header_map_contents(*old(headers)),
            envelope_headers(metadata@),
        ).1 == Some(n@)),
{
    proof {
        lemma_body_names();
        lemma_visible_ascii_is_header_value(HEADER_PAYLOAD_BYTES@);
    }
    match metadata.apply(headers) {
        Ok(()) => {},
        Err(e) => {
            return Err(e);
        },
    }
    let ghost before = header_map_contents(*headers);
    match header_value_from_bytes(HEADER_PAYLOAD_BYTES.as_bytes()) {
        Ok(value) => header_map_append(headers, HEADER_TRAILER, value),
        Err(_) => {},
    }
    proof {
        lemma_announced_trailer(before);
        lemma_trailer_is_not_owned();
    }
    Ok(())
}

/// The trailer announcement's name is none of the names that metadata owns.
pub proof fn lemma_trailer_is_not_owned()
    ensures
        HEADER_TRAILER@ != HEADER_REQUEST_ID@,
        HEADER_TRAILER@ != HEADER_PAYLOAD_SOURCE@,
        HEADER_TRAILER@ != HEADER_GENERATED_AT@,
        HEADER_TRAILER@ != HEADER_TRACEPARENT@,
{
    reveal_strlit("trailer");
    reveal_strlit("x-request-id");
    reveal_strlit("traceparent");
    reveal_strlit("streaming-envelope-source");
    reveal_strlit("streaming-envelope-generated-at");
    assert(HEADER_TRAILER@.len() != HEADER_REQUEST_ID@.len());
    assert(HEADER_TRAILER@.len() != HEADER_PAYLOAD_SOURCE@.len());
    assert(HEADER_TRAILER@.len() != HEADER_GENERATED_AT@.len());
    assert(HEADER_TRAILER@.len() != HEADER_TRACEPARENT@.len());
}

/// Announcing the completion trailer always leaves the `trailer` header
/// present, ending with `streaming-envelope-payload-bytes` after whatever it
/// held before (nothing, if it was absent), and changes no other header.
pub proof fn lemma_announced_trailer(contents: HeaderContents)
    ensures
        announced_trailer(contents).dom().contains(HEADER_TRAILER@),
        announced_trailer(contents)[HEADER_TRAILER@] == values_held(contents, HEADER_TRAILER@).push(
            encode_utf8(HEADER_PAYLOAD_BYTES@),
        ),
        forall|k: Seq<char>|
            k != HEADER_TRAILER@ ==> (#[trigger] announced_trailer(contents).dom().contains(k)
                <==> contents.dom().contains(k)),
        forall|k: Seq<char>|
            k != HEADER_TRAILER@ && contents.dom().contains(k) ==> #[trigger] announced_trailer(
                contents,
            )[k] == contents[k],
{
    if !contents.dom().contains(HEADER_TRAILER@) {
        assert(seq![encode_utf8(HEADER_PAYLOAD_BYTES@)] =~= Seq::<Seq<u8>>::empty().push(
            encode_utf8(HEADER_PAYLOAD_BYTES@),
        ));
    }
}

/// The header map once `streaming-envelope-payload-bytes` has been appended
/// to its `trailer` header.
pub open spec fn announced_trailer(contents: HeaderContents) -> HeaderContents {
    contents.insert(
        HEADER_TRAILER@,
        appended_values(contents, HEADER_TRAILER@, encode_utf8(HEADER_PAYLOAD_BYTES@)),
    )
}

// ---------------------------------------------------------------------------
// The completion state machine
// ---------------------------------------------------------------------------

/// One poll of the inner body.
pub enum InnerPoll<D, E> {
    /// The inner body is not ready.
    Pending,
    /// A data frame with the number of payload bytes it holds.
    Data(D, usize),
    /// A trailers frame.
    Trailers(HeaderMap<HeaderValue>),
    /// The inner body failed.
    Failed(E),
    /// The inner body has ended.
    Finished,
}

/// What the envelope body yields for one poll.
pub enum EnvelopePoll<D, E> {
    /// Not ready.
    Pending,
    /// A data frame, passed through unchanged.
    Data(D),
    /// A trailers frame.
    Trailers(HeaderMap<HeaderValue>),
    /// The inner body's error, passed through unchanged.
    Failed(E),
    /// The envelope body has ended.
    Finished,
}

/// The kind of a poll of the inner body, with the length of a data frame.
pub enum PollKind {
    Pending,
    Data(usize),
    Trailers,
    Failed,
    Finished,
}

/// The kind of a poll.
pub open spec fn poll_kind<D, E>(poll: InnerPoll<D, E>) -> PollKind {
    match poll {
        InnerPoll::Pending => PollKind::Pending,
        InnerPoll::Data(_, n) => PollKind::Data(n),
        InnerPoll::Trailers(_) => PollKind::Trailers,
        InnerPoll::Failed(_) => PollKind::Failed,
        InnerPoll::Finished => PollKind::Finished,
    }
}

/// What the state machine holds: the payload bytes counted so far (saturating
/// at `u64::MAX`), whether the completion trailer has been emitted, and
/// whether the inner body has failed.
pub struct EnvelopeStateView {
    pub payload_bytes: u64,
    pub completion_emitted: bool,
    pub failed: bool,
}

/// `a + n`, saturating at `u64::MAX`.
pub open spec fn saturating_sum(a: nat, n: nat) -> u64 {
    if a + n > u64::MAX {
        u64::MAX
    } else {
        (a + n) as u64
    }
}

/// The state after one poll. A failure is recorded; a trailers frame or the
/// end of the inner body marks the completion as emitted unless the inner
/// body has failed.
pub open spec fn next_state(s: EnvelopeStateView, k: PollKind) -> EnvelopeStateView {
    match k {
        PollKind::Data(n) => EnvelopeStateView {
            payload_bytes: saturating_sum(s.payload_bytes as nat, n as nat),
            completion_emitted: s.completion_emitted,
            failed: s.failed,
        },
        PollKind::Trailers => EnvelopeStateView {
            payload_bytes: s.payload_bytes,
            completion_emitted: s.completion_emitted || !s.failed,
            failed: s.failed,
        },
        PollKind::Finished => EnvelopeStateView {
            payload_bytes: s.payload_bytes,
            completion_emitted: s.completion_emitted || !s.failed,
            failed: s.failed,
        },
        PollKind::Failed => EnvelopeStateView {
            payload_bytes: s.payload_bytes,
            completion_emitted: s.completion_emitted,
            failed: true,
        },
        PollKind::Pending => s,
    }
}

/// The payload count that one poll reports in a completion trailer, if it
/// reports one: a trailers frame of the inner body, and the end of the inner
/// body when no completion has been emitted yet; never after a failure.
pub open spec fn reported_count(s: EnvelopeStateView, k: PollKind) -> Option<u64> {
    if s.failed {
        None
    } else {
        match k {
            PollKind::Trailers => Some(s.payload_bytes),
            PollKind::Finished => if s.completion_emitted {
                None
            } else {
                Some(s.payload_bytes)
            },
            _ => None,
        }
    }
}

/// The completion state of an envelope body.
pub struct EnvelopeState {
    payload_bytes: u64,
    completion_emitted: bool,
    failed: bool,
}

impl View for EnvelopeState {
    type V = EnvelopeStateView;

    closed spec fn view(&self) -> EnvelopeStateView {
        EnvelopeStateView {
            payload_bytes: self.payload_bytes,
            completion_emitted: self.completion_emitted,
            failed: self.failed,
        }
    }
}

impl EnvelopeState {
    /// The state of a body that has yielded nothing yet.
    pub fn new() -> (s: Self)
        ensures
            s@ == initial_state(),
    {
        EnvelopeState { payload_bytes: 0, completion_emitted: false, failed: false }
    }

    /// The payload bytes counted so far.
    pub fn payload_bytes(&self) -> (n: u64)
        ensures
            n == self@.payload_bytes,
    {
        self.payload_bytes
    }

    /// Whether the completion trailer has been emitted.
    pub fn completion_emitted(&self) -> (b: bool)
        ensures
            b == self@.completion_emitted,
    {
        self.completion_emitted
    }

    /// Whether the inner body has failed.
    pub fn failed(&self) -> (b: bool)
        ensures
            b == self@.failed,
    {
        self.failed
    }

    /// Whether the envelope body has ended: the completion has been emitted
    /// and the inner body has ended.
    pub fn is_end_stream(&self, inner_is_end_stream: bool) -> (b: bool)
        ensures
            b == (self@.completion_emitted && inner_is_end_stream),
    {
        self.completion_emitted && inner_is_end_stream
    }

    /// Decides what the envelope body yields for one poll of the inner body.
    ///
    /// Data frames pass through unchanged and are counted. A trailers frame
    /// of the inner body gets the completion trailer added. When the inner
    /// body ends, a trailers frame holding only the completion trailer is
    /// yielded once; after that the end is passed through. Errors pass
    /// through and are recorded: after a failure no completion trailer is
    /// ever sent, and trailers of the inner body pass through unchanged.
    /// Pending polls change nothing.
    pub fn on_poll<D, E>(&mut self, poll: InnerPoll<D, E>) -> (out: EnvelopePoll<D, E>)
        requires
            poll matches InnerPoll::Trailers(t) ==> (!old(self)@.failed ==> has_room_for(
                header_map_contents(t),
                1,
            )),
        ensures
            final(self)@ == next_state(old(self)@, poll_kind(poll)),
            reported_count(old(self)@, poll_kind(poll)) is None ==> !(out is Trailers) || (
            poll matches InnerPoll::Trailers(t) && out == EnvelopePoll::<D, E>::Trailers(t)),
            reported_count(old(self)@, poll_kind(poll)) matches Some(n) ==> (out matches EnvelopePoll::Trailers(
                t2,
            ) && header_map_contents(t2).dom().contains(HEADER_PAYLOAD_BYTES@) && header_map_contents(
                t2,
            )[HEADER_PAYLOAD_BYTES@] == seq![decimal(n as nat)]),
            poll is Pending ==> out is Pending,
            poll matches InnerPoll::Data(d, _) ==> out == EnvelopePoll::<D, E>::Data(d),
            poll matches InnerPoll::Failed(e) ==> out == EnvelopePoll::<D, E>::Failed(e),
            poll matches InnerPoll::Trailers(t) ==> (!old(self)@.failed ==> (out matches EnvelopePoll::Trailers(t2)
                && header_map_contents(t2) == header_map_contents(t).insert(
                HEADER_PAYLOAD_BYTES@,
                seq![decimal(old(self)@.payload_bytes as nat)],
            ))),
            poll matches InnerPoll::Trailers(t) ==> (old(self)@.failed ==> out
                == EnvelopePoll::<D, E>::Trailers(t)),
            (poll is Finished && !old(self)@.completion_emitted && !old(self)@.failed) ==> (out matches EnvelopePoll::Trailers(
                t2,
            ) && header_map_contents(t2) == HeaderContents::empty().insert(
                HEADER_PAYLOAD_BYTES@,
                seq![decimal(old(self)@.payload_bytes as nat)],
            )),
            (poll is Finished && (old(self)@.completion_emitted || old(self)@.failed)) ==> out is Finished,
    {
        match poll {
            InnerPoll::Pending => EnvelopePoll::Pending,
            InnerPoll::Data(data, len) => {
                self.payload_bytes = self.payload_bytes.saturating_add(len as u64);
                EnvelopePoll::Data(data)
            },
            InnerPoll::Trailers(trailers) => {
                if self.failed {
                    EnvelopePoll::Trailers(trailers)
                } else {
                    let mut trailers = trailers;
                    add_completion_trailer(&mut trailers, self.payload_bytes);
                    self.completion_emitted = true;
                    EnvelopePoll::Trailers(trailers)
                }
            },
            InnerPoll::Failed(e) => {
                self.failed = true;
                EnvelopePoll::Failed(e)
            },
            InnerPoll::Finished => {
                if !self.completion_emitted && !self.failed {
                    let trailers = completion_trailers(self.payload_bytes);
                    self.completion_emitted = true;
                    EnvelopePoll::Trailers(trailers)
                } else {
                    EnvelopePoll::Finished
                }
            },
        }
    }
}

// ---------------------------------------------------------------------------
// Laws of the completion state machine
// ---------------------------------------------------------------------------

/// The state reached from `s` after the polls `ks`, in order.
pub open spec fn run(s: EnvelopeStateView, ks: Seq<PollKind>) -> EnvelopeStateView
    decreases ks.len(),
{
    if ks.len() == 0 {
        s
    } else {
        next_state(run(s, ks.drop_last()), ks.last())
    }
}

/// The payload bytes held by the data frames among the polls `ks`.
pub open spec fn data_total(ks: Seq<PollKind>) -> nat
    decreases ks.len(),
{
    if ks.len() == 0 {
        0
    } else {
        data_total(ks.drop_last()) + match ks.last() {
            PollKind::Data(n) => n as nat,
            _ => 0,
        }
    }
}

/// A trailers frame or the end of the inner body.
pub open spec fn completes(k: PollKind) -> bool {
    k is Trailers || k is Finished
}

/// The state of a body that has yielded nothing yet.
pub open spec fn initial_state() -> EnvelopeStateView {
    EnvelopeStateView { payload_bytes: 0, completion_emitted: false, failed: false }
}

/// Whether the poll at `i` of a body polled `ks` from its start yields a
/// completion trailer.
pub open spec fn reports_completion(ks: Seq<PollKind>, i: int) -> bool {
    reported_count(run(initial_state(), ks.take(i)), ks[i]) is Some
}

/// Polls of an inner body that keeps the body contract: after its trailers
/// frame or its end it yields nothing but its end or a pending poll.
pub open spec fn follows_body_contract(ks: Seq<PollKind>) -> bool {
    forall|i: int, j: int|
        #![trigger ks[i], ks[j]]
        0 <= i < j < ks.len() && completes(ks[i]) ==> (ks[j] is Finished || ks[j] is Pending)
}

proof fn lemma_run_take_step(s: EnvelopeStateView, ks: Seq<PollKind>, j: int)
    requires
        0 < j <= ks.len(),
    ensures
        run(s, ks.take(j)) == next_state(run(s, ks.take(j - 1)), ks[j - 1]),
{
    assert(ks.take(j).drop_last() =~= ks.take(j - 1));
}

/// The count kept after any run of polls is the number of payload bytes that
/// passed through in data frames, added to the count at the start and
/// saturating at `u64::MAX`.
pub proof fn lemma_run_counts_payload(s: EnvelopeStateView, ks: Seq<PollKind>)
    ensures
        run(s, ks).payload_bytes == saturating_sum(s.payload_bytes as nat, data_total(ks)),
    decreases ks.len(),
{
    if ks.len() > 0 {
        lemma_run_counts_payload(s, ks.drop_last());
    }
}

/// Every completion trailer of a body reports exactly the number of payload
/// bytes that passed through before it (saturating at `u64::MAX`).
pub proof fn lemma_completion_reports_payload(ks: Seq<PollKind>, i: int)
    requires
        0 <= i < ks.len(),
    ensures
        reported_count(run(initial_state(), ks.take(i)), ks[i]) matches Some(n) ==> n
            == saturating_sum(0, data_total(ks.take(i))),
{
    lemma_run_counts_payload(initial_state(), ks.take(i));
}

/// Once emitted, the completion stays emitted, and once failed, the body
/// stays failed.
pub proof fn lemma_flags_persist(s: EnvelopeStateView, ks: Seq<PollKind>, i: int, j: int)
    requires
        0 <= i <= j <= ks.len(),
    ensures
        run(s, ks.take(i)).completion_emitted ==> run(s, ks.take(j)).completion_emitted,
        run(s, ks.take(i)).failed ==> run(s, ks.take(j)).failed,
    decreases j - i,
{
    if i < j {
        lemma_flags_persist(s, ks, i, j - 1);
        lemma_run_take_step(s, ks, j);
    }
}

/// Once the completion has been emitted, the end of the inner body passes
/// through as the end and no poll reports a completion again through the
/// end.
pub proof fn lemma_completion_stays_emitted(s: EnvelopeStateView, ks: Seq<PollKind>)
    requires
        s.completion_emitted,
    ensures
        run(s, ks).completion_emitted,
        reported_count(run(s, ks), PollKind::Finished) is None,
    decreases ks.len(),
{
    if ks.len() > 0 {
        lemma_completion_stays_emitted(s, ks.drop_last());
    }
}

/// A failure of the inner body changes nothing but recording the failure, and
/// from a failed state no poll reports a completion. Pending polls change
/// nothing.
pub proof fn lemma_failure_reports_nothing(s: EnvelopeStateView, k: PollKind)
    ensures
        next_state(s, PollKind::Failed).failed,
        next_state(s, PollKind::Failed).payload_bytes == s.payload_bytes,
        next_state(s, PollKind::Failed).completion_emitted == s.completion_emitted,
        reported_count(s, PollKind::Failed) is None,
        s.failed ==> reported_count(s, k) is None,
        next_state(s, PollKind::Pending) == s,
        reported_count(s, PollKind::Pending) is None,
{
}

/// After the inner body fails, no completion trailer is ever sent.
pub proof fn lemma_no_completion_after_failure(ks: Seq<PollKind>, i: int, j: int)
    requires
        0 <= i < j < ks.len(),
        ks[i] is Failed,
    ensures
        !reports_completion(ks, j),
{
    lemma_run_take_step(initial_state(), ks, i + 1);
    lemma_flags_persist(initial_state(), ks, i + 1, j);
}

/// A body whose inner body keeps the body contract sends at most one
/// completion trailer.
pub proof fn lemma_at_most_one_completion(ks: Seq<PollKind>)
    requires
        follows_body_contract(ks),
    ensures
        forall|i: int, j: int|
            0 <= i < j < ks.len() ==> !(#[trigger] reports_completion(ks, i)
                && #[trigger] reports_completion(ks, j)),
{
    assert forall|i: int, j: int|
        0 <= i < j < ks.len() implies !(#[trigger] reports_completion(ks, i)
        && #[trigger] reports_completion(ks, j)) by {
        if reports_completion(ks, i) && reports_completion(ks, j) {
            lemma_run_take_step(initial_state(), ks, i + 1);
            lemma_flags_persist(initial_state(), ks, i + 1, j);
            assert(completes(ks[i]));
            assert(ks[j] is Finished || ks[j] is Pending);
        }
    }
}

/// The first trailers frame or end among the polls up to `f`.
proof fn first_completion(ks: Seq<PollKind>, f: int) -> (c: int)
    requires
        0 <= f < ks.len(),
        completes(ks[f]),
    ensures
        0 <= c <= f,
        completes(ks[c]),
        forall|j: int| 0 <= j < c ==> !completes(#[trigger] ks[j]),
    decreases f,
{
    if exists|j: int| 0 <= j < f && completes(#[trigger] ks[j]) {
        let j = choose|j: int| 0 <= j < f && completes(#[trigger] ks[j]);
        first_completion(ks, j)
    } else {
        f
    }
}

/// Before any trailers frame, end or failure, nothing has been emitted and
/// nothing has failed.
proof fn lemma_quiet_prefix(ks: Seq<PollKind>, n: int)
    requires
        0 <= n <= ks.len(),
        forall|j: int| 0 <= j < n ==> !completes(#[trigger] ks[j]) && !(ks[j] is Failed),
    ensures
        !run(initial_state(), ks.take(n)).completion_emitted,
        !run(initial_state(), ks.take(n)).failed,
    decreases n,
{
    if n > 0 {
        lemma_quiet_prefix(ks, n - 1);
        lemma_run_take_step(initial_state(), ks, n);
        assert(!completes(ks[n - 1]) && !(ks[n - 1] is Failed));
    }
}

/// A body whose inner body keeps the body contract, never fails and ends
/// sends a completion trailer no later than that end and after every data
/// frame; with `lemma_at_most_one_completion` it sends exactly one.
pub proof fn lemma_completed_body_reports_once(ks: Seq<PollKind>, f: int)
    requires
        follows_body_contract(ks),
        forall|j: int| 0 <= j < ks.len() ==> !(#[trigger] ks[j] is Failed),
        0 <= f < ks.len(),
        ks[f] is Finished,
    ensures
        exists|c: int|
            0 <= c <= f && #[trigger] reports_completion(ks, c) && forall|d: int|
                0 <= d < ks.len() && ks[d] is Data ==> d < c,
{
    let c = first_completion(ks, f);
    lemma_quiet_prefix(ks, c);
    assert(reports_completion(ks, c));
    assert forall|d: int| 0 <= d < ks.len() && ks[d] is Data implies d < c by {
        if d > c {
            assert(ks[d] is Finished || ks[d] is Pending);
        }
    }
}

} // verus!
