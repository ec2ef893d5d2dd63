//! The lifecycle of one streaming completion request, as a state machine.
//!
//! A session starts unbegun; guards reject a blank credential or a missing
//! transport before any network work. A successful HTTP status leads to the
//! sink's start call; then decoded event payloads produce text deltas that
//! are handed to the sink one at a time, each awaiting its result before
//! the next. The terminal sentinel ends the session with a successful end
//! call; a closed transport ends it with success exactly when content was
//! ever delivered; a cancellation reported by the sink ends it silently,
//! with no end call and no error surfaced to the caller; any other sink
//! failure ends it with a failing end call and a surfaced error.
//!
//! The machine itself is pure: [`Session::step`] consumes one [`Event`] and
//! hands back at most one [`Action`] for the surrounding driver to perform.
//! [`pump`] drives the sink-directed actions; issuing the HTTP request is
//! left to the caller.

use crate::chunk::{delta_texts, lemma_chunk_texts, parse_chunk, spec_parse_chunk, texts_of};
use crate::sse::{payloads_of, split_events, SseDecoder};
use vstd::prelude::*;

verus! {

/// The bytes of the terminal sentinel payload `[DONE]`.
pub open spec fn done_payload() -> Seq<u8> {
    seq![0x5bu8, 0x44u8, 0x4fu8, 0x4eu8, 0x45u8, 0x5du8]
}

/// The characters of the error text `no content received`.
pub open spec fn no_content_text() -> Seq<char> {
    seq!['n', 'o', ' ', 'c', 'o', 'n', 't', 'e', 'n', 't', ' ', 'r', 'e', 'c', 'e', 'i', 'v', 'e', 'd']
}

/// The characters of the error prefix `Error: `.
pub open spec fn error_prefix() -> Seq<char> {
    seq!['E', 'r', 'r', 'o', 'r', ':', ' ']
}

/// How a sink reports a failed chunk delivery: consumer-initiated
/// cancellation is distinguished from every other failure.
pub enum ChunkSendError {
    Cancelled,
    Other(String),
}

/// Why a session failed.
pub enum SessionError {
    /// The credential is absent or blank; no network call was made.
    ConfigError,
    /// The transport client was not initialized; no network call was made.
    NotInitializedError,
    /// The remote endpoint answered with a non-success status.
    HttpError { status: u16, body: String },
    /// The sink's start call failed; nothing was delivered.
    StartError(String),
    /// A chunk delivery failed for a reason other than cancellation.
    SinkError(String),
    /// The transport closed without a sentinel and no content was ever
    /// delivered. This outcome is reported through the sink's end call and
    /// is not surfaced to the caller.
    NoContent,
}

/// How a finished session ended.
pub enum Outcome {
    CompletedWithContent,
    CompletedEmpty,
    Cancelled,
    Failed(SessionError),
}

/// The spec-level mirror of [`SessionError`].
pub enum ErrorView {
    Config,
    NotInitialized,
    Http { status: u16, body: Seq<char> },
    Start(Seq<char>),
    Sink(Seq<char>),
    NoContent,
}

/// The spec-level mirror of [`Outcome`].
pub enum OutcomeView {
    CompletedWithContent,
    CompletedEmpty,
    Cancelled,
    Failed(ErrorView),
}

/// The spec-level state of a session.
pub enum PhaseView {
    NotStarted,
    AwaitingHttp,
    AwaitingStart,
    Streaming {
        stream_id: Seq<char>,
        buf: Seq<u8>,
        pending: Seq<Seq<char>>,
        has_content: bool,
        done_after: bool,
    },
    Finished(OutcomeView),
}

/// The spec-level mirror of [`Event`].
pub enum EventView {
    Begin { key_blank: bool, client_ready: bool },
    HttpStatus { status: u16, body: Seq<char> },
    StartResult { ok: bool, value: Seq<char> },
    Bytes(Seq<u8>),
    Closed,
    ChunkResult { ok: bool, cancelled: bool, message: Seq<char> },
}

/// The spec-level mirror of [`Action`].
pub enum ActionView {
    SendHttp,
    CallStart,
    CallChunk { stream_id: Seq<char>, text: Seq<char> },
    CallEnd { stream_id: Seq<char>, success: bool, error: Option<Seq<char>> },
}

impl View for SessionError {
    type V = ErrorView;

    open spec fn view(&self) -> ErrorView {
        match self {
            SessionError::ConfigError => ErrorView::Config,
            SessionError::NotInitializedError => ErrorView::NotInitialized,
            SessionError::HttpError { status, body } => ErrorView::Http {
                status: *status,
                body: body@,
            },
            SessionError::StartError(m) => ErrorView::Start(m@),
            SessionError::SinkError(m) => ErrorView::Sink(m@),
            SessionError::NoContent => ErrorView::NoContent,
        }
    }
}

impl View for Outcome {
    type V = OutcomeView;

    open spec fn view(&self) -> OutcomeView {
        match self {
            Outcome::CompletedWithContent => OutcomeView::CompletedWithContent,
            Outcome::CompletedEmpty => OutcomeView::CompletedEmpty,
            Outcome::Cancelled => OutcomeView::Cancelled,
            Outcome::Failed(e) => OutcomeView::Failed(e@),
        }
    }
}

/// What a session delivers to events as they come: one delta at a time.
pub struct StreamingState {
    /// The identifier the sink handed out at start.
    pub stream_id: String,
    /// The frame decoder with its carry-over buffer.
    pub decoder: SseDecoder,
    /// Deltas decoded but not yet acknowledged by the sink; the first one
    /// is the delta most recently handed to the sink.
    pub pending: Vec<String>,
    /// Whether any delta was ever decoded in this session.
    pub has_content: bool,
    /// Whether the terminal sentinel was seen; the session ends once
    /// `pending` drains.
    pub done_after: bool,
}

/// The state of a session.
pub enum Phase {
    NotStarted,
    AwaitingHttp,
    AwaitingStart,
    Streaming(StreamingState),
    Finished(Outcome),
}

impl View for Phase {
    type V = PhaseView;

    open spec fn view(&self) -> PhaseView {
        match self {
            Phase::NotStarted => PhaseView::NotStarted,
            Phase::AwaitingHttp => PhaseView::AwaitingHttp,
            Phase::AwaitingStart => PhaseView::AwaitingStart,
            Phase::Streaming(st) => PhaseView::Streaming {
                stream_id: st.stream_id@,
                buf: st.decoder@,
                pending: st.pending.deep_view(),
                has_content: st.has_content,
                done_after: st.done_after,
            },
            Phase::Finished(o) => PhaseView::Finished(o@),
        }
    }
}

/// One thing that happened outside the machine.
pub enum Event {
    /// The caller asks to begin: whether the credential is blank and
    /// whether the transport client is ready.
    Begin { key_blank: bool, client_ready: bool },
    /// The HTTP response arrived with this status; the body text is its
    /// diagnostic detail, read only on failure.
    HttpStatus { status: u16, body: String },
    /// The sink's start call returned.
    StartResult(Result<String, String>),
    /// One raw chunk of the response body arrived.
    Bytes(Vec<u8>),
    /// The transport closed without a sentinel.
    Closed,
    /// The sink's chunk call returned.
    ChunkResult(Result<(), ChunkSendError>),
}

impl View for Event {
    type V = EventView;

    open spec fn view(&self) -> EventView {
        match self {
            Event::Begin { key_blank, client_ready } => EventView::Begin {
                key_blank: *key_blank,
                client_ready: *client_ready,
            },
            Event::HttpStatus { status, body } => EventView::HttpStatus {
                status: *status,
                body: body@,
            },
            Event::StartResult(r) => match r {
                Ok(id) => EventView::StartResult { ok: true, value: id@ },
                Err(m) => EventView::StartResult { ok: false, value: m@ },
            },
            Event::Bytes(b) => EventView::Bytes(b@),
            Event::Closed => EventView::Closed,
            Event::ChunkResult(r) => match r {
                Ok(_) => EventView::ChunkResult { ok: true, cancelled: false, message: Seq::empty() },
                Err(ChunkSendError::Cancelled) => EventView::ChunkResult {
                    ok: false,
                    cancelled: true,
                    message: Seq::empty(),
                },
                Err(ChunkSendError::Other(m)) => EventView::ChunkResult {
                    ok: false,
                    cancelled: false,
                    message: m@,
                },
            },
        }
    }
}

/// One thing the machine asks its driver to do.
pub enum Action {
    /// Issue the HTTP request.
    SendHttp,
    /// Call the sink's start operation.
    CallStart,
    /// Hand one delta to the sink.
    CallChunk { stream_id: String, text: String },
    /// Call the sink's end operation. Emitted together with the transition
    /// to a finished phase; its result is ignored.
    CallEnd { stream_id: String, success: bool, error: Option<String> },
}

impl View for Action {
    type V = ActionView;

    open spec fn view(&self) -> ActionView {
        match self {
            Action::SendHttp => ActionView::SendHttp,
            Action::CallStart => ActionView::CallStart,
            Action::CallChunk { stream_id, text } => ActionView::CallChunk {
                stream_id: stream_id@,
                text: text@,
            },
            Action::CallEnd { stream_id, success, error } => ActionView::CallEnd {
                stream_id: stream_id@,
                success: *success,
                error: match error {
                    Some(e) => Some(e@),
                    None => None,
                },
            },
        }
    }
}

/// The view of an optional action.
pub open spec fn action_view(a: Option<Action>) -> Option<ActionView> {
    match a {
        Some(act) => Some(act@),
        None => None,
    }
}

/// Scans decoded payloads in order: the delta texts before the first
/// sentinel, whether the sentinel was seen, and how many payloads were
/// skipped as malformed. Payloads after the sentinel are ignored.
pub open spec fn scan_payloads(ps: Seq<Seq<u8>>) -> (Seq<Seq<char>>, bool, nat)
    decreases ps.len(),
{
    if ps.len() == 0 {
        (Seq::empty(), false, 0)
    } else if ps[0] == done_payload() {
        (Seq::empty(), true, 0)
    } else {
        let rest = scan_payloads(ps.drop_first());
        match spec_parse_chunk(ps[0]) {
            Some(sp) => (texts_of(sp) + rest.0, rest.1, rest.2),
            None => (rest.0, rest.1, rest.2 + 1),
        }
    }
}

/// What the machine does once a streaming state settles: hand out the next
/// pending delta; or, after the sentinel, end with success; or wait.
pub open spec fn spec_emit(
    stream_id: Seq<char>,
    buf: Seq<u8>,
    pending: Seq<Seq<char>>,
    has_content: bool,
    done_after: bool,
) -> (PhaseView, Option<ActionView>) {
    if pending.len() > 0 {
        (
            PhaseView::Streaming { stream_id, buf, pending, has_content, done_after },
            Some(ActionView::CallChunk { stream_id, text: pending[0] }),
        )
    } else if done_after {
        (
            PhaseView::Finished(
                if has_content {
                    OutcomeView::CompletedWithContent
                } else {
                    OutcomeView::CompletedEmpty
                },
            ),
            Some(ActionView::CallEnd { stream_id, success: true, error: None }),
        )
    } else {
        (PhaseView::Streaming { stream_id, buf, pending, has_content, done_after }, None)
    }
}

/// One transition of the session machine: from a phase and an event to the
/// next phase and at most one action. Events that do not belong to the
/// phase change nothing; a finished session absorbs everything.
pub open spec fn spec_step(p: PhaseView, e: EventView) -> (PhaseView, Option<ActionView>) {
    match p {
        PhaseView::NotStarted => match e {
            EventView::Begin { key_blank, client_ready } => {
                if key_blank {
                    (PhaseView::Finished(OutcomeView::Failed(ErrorView::Config)), None)
                } else if !client_ready {
                    (PhaseView::Finished(OutcomeView::Failed(ErrorView::NotInitialized)), None)
                } else {
                    (PhaseView::AwaitingHttp, Some(ActionView::SendHttp))
                }
            },
            _ => (p, None),
        },
        PhaseView::AwaitingHttp => match e {
            EventView::HttpStatus { status, body } => {
                if 200 <= status < 300 {
                    (PhaseView::AwaitingStart, Some(ActionView::CallStart))
                } else {
                    (
                        PhaseView::Finished(OutcomeView::Failed(ErrorView::Http { status, body })),
                        None,
                    )
                }
            },
            _ => (p, None),
        },
        PhaseView::AwaitingStart => match e {
            EventView::StartResult { ok, value } => {
                if ok {
                    (
                        PhaseView::Streaming {
                            stream_id: value,
                            buf: Seq::empty(),
                            pending: Seq::empty(),
                            has_content: false,
                            done_after: false,
                        },
                        None,
                    )
                } else {
                    (PhaseView::Finished(OutcomeView::Failed(ErrorView::Start(value))), None)
                }
            },
            _ => (p, None),
        },
        PhaseView::Streaming { stream_id, buf, pending, has_content, done_after } => match e {
            EventView::Bytes(chunk) => {
                if done_after {
                    (p, None)
                } else {
                    let r = split_events(buf + chunk);
                    let scanned = scan_payloads(payloads_of(r.0));
                    let pending2 = pending + scanned.0;
                    let has2 = has_content || scanned.0.len() > 0;
                    if pending.len() == 0 {
                        spec_emit(stream_id, r.1, pending2, has2, scanned.1)
                    } else {
                        (
                            PhaseView::Streaming {
                                stream_id,
                                buf: r.1,
                                pending: pending2,
                                has_content: has2,
                                done_after: scanned.1,
                            },
                            None,
                        )
                    }
                }
            },
            EventView::ChunkResult { ok, cancelled, message } => {
                if pending.len() == 0 {
                    (p, None)
                } else if ok {
                    spec_emit(stream_id, buf, pending.drop_first(), has_content, done_after)
                } else if cancelled {
                    (PhaseView::Finished(OutcomeView::Cancelled), None)
                } else {
                    (
                        PhaseView::Finished(OutcomeView::Failed(ErrorView::Sink(message))),
                        Some(
                            ActionView::CallEnd {
                                stream_id,
                                success: false,
                                error: Some(error_prefix() + message),
                            },
                        ),
                    )
                }
            },
            EventView::Closed => {
                if done_after || pending.len() > 0 {
                    (p, None)
                } else if has_content {
                    (
                        PhaseView::Finished(OutcomeView::CompletedWithContent),
                        Some(ActionView::CallEnd { stream_id, success: true, error: None }),
                    )
                } else {
                    (
                        PhaseView::Finished(OutcomeView::Failed(ErrorView::NoContent)),
                        Some(
                            ActionView::CallEnd {
                                stream_id,
                                success: false,
                                error: Some(no_content_text()),
                            },
                        ),
                    )
                }
            },
            _ => (p, None),
        },
        PhaseView::Finished(_) => (p, None),
    }
}

/// A whole run: the final phase and every action emitted, in order.
pub open spec fn spec_run(p: PhaseView, evs: Seq<EventView>) -> (PhaseView, Seq<ActionView>)
    decreases evs.len(),
{
    if evs.len() == 0 {
        (p, Seq::empty())
    } else {
        let prefix = spec_run(p, evs.drop_last());
        let s = spec_step(prefix.0, evs.last());
        (
            s.0,
            prefix.1 + (match s.1 {
                Some(a) => seq![a],
                None => Seq::empty(),
            }),
        )
    }
}

/// The error a caller receives for an outcome. Cancellation is silent, and
/// a close without content is reported through the sink's end call alone.
pub open spec fn surfaced_error(o: OutcomeView) -> Option<ErrorView> {
    match o {
        OutcomeView::Failed(e) => match e {
            ErrorView::NoContent => None,
            _ => Some(e),
        },
        _ => None,
    }
}

/// A finished session emits no further action, whatever else happens.
pub proof fn lemma_finished_absorbs(o: OutcomeView, evs: Seq<EventView>)
    ensures
        spec_run(PhaseView::Finished(o), evs) == (
            PhaseView::Finished(o),
            Seq::<ActionView>::empty(),
        ),
    decreases evs.len(),
{
    if evs.len() > 0 {
        lemma_finished_absorbs(o, evs.drop_last());
        assert(Seq::<ActionView>::empty() + Seq::<ActionView>::empty()
            =~= Seq::<ActionView>::empty());
    }
}

/// When the sink reports cancellation, the session ends silently: the end
/// call is never made, no further action is ever emitted, and no error is
/// surfaced to the caller.
pub proof fn lemma_cancellation_silent(
    stream_id: Seq<char>,
    buf: Seq<u8>,
    pending: Seq<Seq<char>>,
    has_content: bool,
    done_after: bool,
    evs: Seq<EventView>,
)
    requires
        pending.len() > 0,
    ensures
        ({
            let p = PhaseView::Streaming { stream_id, buf, pending, has_content, done_after };
            let e = EventView::ChunkResult { ok: false, cancelled: true, message: Seq::empty() };
            let r = spec_step(p, e);
            &&& r.0 == PhaseView::Finished(OutcomeView::Cancelled)
            &&& r.1 is None
            &&& spec_run(r.0, evs).1 == Seq::<ActionView>::empty()
            &&& surfaced_error(OutcomeView::Cancelled) is None
        }),
{
    lemma_finished_absorbs(OutcomeView::Cancelled, evs);
}

/// With a blank credential, the session refuses at once: the HTTP request
/// is never issued and the sink is never invoked — no action is ever
/// emitted, whatever else happens.
pub proof fn lemma_blank_key_blocks(client_ready: bool, evs: Seq<EventView>)
    ensures
        ({
            let r = spec_step(
                PhaseView::NotStarted,
                EventView::Begin { key_blank: true, client_ready },
            );
            &&& r.0 == PhaseView::Finished(OutcomeView::Failed(ErrorView::Config))
            &&& r.1 is None
            &&& spec_run(r.0, evs).1 == Seq::<ActionView>::empty()
        }),
{
    lemma_finished_absorbs(OutcomeView::Failed(ErrorView::Config), evs);
}

/// A non-success HTTP status fails the session before any sink call: the
/// caller receives the HTTP error and no action is ever emitted.
pub proof fn lemma_http_failure_stops(status: u16, body: Seq<char>, evs: Seq<EventView>)
    requires
        !(200 <= status < 300),
    ensures
        ({
            let r = spec_step(PhaseView::AwaitingHttp, EventView::HttpStatus { status, body });
            &&& r.0 == PhaseView::Finished(OutcomeView::Failed(ErrorView::Http { status, body }))
            &&& r.1 is None
            &&& spec_run(r.0, evs).1 == Seq::<ActionView>::empty()
            &&& surfaced_error(OutcomeView::Failed(ErrorView::Http { status, body })) == Some(
                ErrorView::Http { status, body },
            )
        }),
{
    lemma_finished_absorbs(OutcomeView::Failed(ErrorView::Http { status, body }), evs);
}

/// The sentinel never produces a delta and ends the scan at once: whatever
/// payloads follow it are ignored.
pub proof fn lemma_sentinel_ends_scan(rest: Seq<Seq<u8>>)
    ensures
        scan_payloads(seq![done_payload()] + rest) == (Seq::<Seq<char>>::empty(), true, 0nat),
{
    assert((seq![done_payload()] + rest)[0] == done_payload());
}

/// A chunk whose first decoded payload is the sentinel ends a waiting
/// session at once: no delta is produced, and the one emitted action is the
/// successful end call.
pub proof fn lemma_sentinel_ends_session(
    stream_id: Seq<char>,
    buf: Seq<u8>,
    has_content: bool,
    chunk: Seq<u8>,
)
    requires
        ({
            let ps = payloads_of(split_events(buf + chunk).0);
            ps.len() > 0 && ps[0] == done_payload()
        }),
    ensures
        ({
            let p = PhaseView::Streaming {
                stream_id,
                buf,
                pending: Seq::empty(),
                has_content,
                done_after: false,
            };
            let r = spec_step(p, EventView::Bytes(chunk));
            &&& r.0 == PhaseView::Finished(
                if has_content {
                    OutcomeView::CompletedWithContent
                } else {
                    OutcomeView::CompletedEmpty
                },
            )
            &&& r.1 == Some(ActionView::CallEnd { stream_id, success: true, error: None })
        }),
{
    let ps = payloads_of(split_events(buf + chunk).0);
    assert(scan_payloads(ps) == (Seq::<Seq<char>>::empty(), true, 0nat));
    assert(Seq::<Seq<char>>::empty() + Seq::<Seq<char>>::empty() =~= Seq::<Seq<char>>::empty());
}

/// Once the sentinel was seen, later bytes change nothing and are never
/// forwarded.
pub proof fn lemma_bytes_after_sentinel_ignored(
    stream_id: Seq<char>,
    buf: Seq<u8>,
    pending: Seq<Seq<char>>,
    has_content: bool,
    chunk: Seq<u8>,
)
    ensures
        ({
            let p = PhaseView::Streaming {
                stream_id,
                buf,
                pending,
                has_content,
                done_after: true,
            };
            spec_step(p, EventView::Bytes(chunk)) == (p, None::<ActionView>)
        }),
{
}

/// Decides whether payload bytes are the terminal sentinel.
fn is_done_payload(v: &Vec<u8>) -> (r: bool)
    ensures
        r == (v@ == done_payload()),
{
    let r = v.len() == 6 && v[0] == 0x5b && v[1] == 0x44 && v[2] == 0x4f && v[3] == 0x4e && v[4]
        == 0x45 && v[5] == 0x5d;
    proof {
        if r {
            assert(v@ =~= done_payload());
        }
        if !r && v@ == done_payload() {
            assert(v@[0] == 0x5b && v@[1] == 0x44 && v@[2] == 0x4f && v@[3] == 0x4e && v@[4]
                == 0x45 && v@[5] == 0x5d);
            assert(false);
        }
    }
    r
}

/// Scans decoded payloads in order, stopping at the first sentinel: the
/// delta texts, whether the sentinel was seen, and how many malformed
/// payloads were skipped (each skip is worth a log line, never an abort).
#[verifier::rlimit(100)]
pub fn scan_chunk_payloads(payloads: Vec<Vec<u8>>) -> (r: (Vec<String>, bool, usize))
    ensures
        ({
            let s = scan_payloads(payloads.deep_view());
            r.0.deep_view() == s.0 && r.1 == s.1 && r.2 as nat == s.2
        }),
{
    let ghost all = payloads.deep_view();
    let mut out: Vec<String> = Vec::new();
    let mut skipped: usize = 0;
    let mut i: usize = 0;
    proof {
        assert(out.deep_view() =~= Seq::<Seq<char>>::empty());
        assert(all.subrange(0, all.len() as int) =~= all);
        assert(Seq::<Seq<char>>::empty() + scan_payloads(all).0 =~= scan_payloads(all).0);
    }
    while i < payloads.len()
        invariant
            0 <= i <= payloads@.len(),
            all == payloads.deep_view(),
            all.len() == payloads@.len(),
            skipped <= i,
            scan_payloads(all).0 == out.deep_view() + scan_payloads(
                all.subrange(i as int, all.len() as int),
            ).0,
            scan_payloads(all).1 == scan_payloads(all.subrange(i as int, all.len() as int)).1,
            scan_payloads(all).2 == skipped + scan_payloads(
                all.subrange(i as int, all.len() as int),
            ).2,
        decreases payloads@.len() - i,
    {
        let ghost sub = all.subrange(i as int, all.len() as int);
        let p = &payloads[i];
        proof {
            assert(all[i as int] == payloads@[i as int].deep_view());
            assert(payloads@[i as int].deep_view() =~= p@);
            assert(sub[0] == all[i as int]);
            assert(sub.drop_first() =~= all.subrange(i as int + 1, all.len() as int));
        }
        if is_done_payload(p) {
            proof {
                assert(scan_payloads(sub) == (Seq::<Seq<char>>::empty(), true, 0nat));
                assert(out.deep_view() + Seq::<Seq<char>>::empty() =~= out.deep_view());
            }
            return (out, true, skipped);
        }
        match parse_chunk(p.as_slice()) {
            Ok(c) => {
                let ghost sp = spec_parse_chunk(p@)->Some_0;
                proof {
                    lemma_chunk_texts(c, sp);
                }
                let mut texts = delta_texts(c);
                let ghost texts_dv = texts.deep_view();
                let ghost texts_vecs = texts@;
                let ghost out_prev = out;
                out.append(&mut texts);
                proof {
                    assert(texts_dv == texts_of(sp));
                    assert forall|t: int| 0 <= t < out.deep_view().len() implies out.deep_view()[t]
                        == (out_prev.deep_view() + texts_dv)[t] by {
                        if t < out_prev@.len() {
                            assert(out@[t] == out_prev@[t]);
                        } else {
                            assert(out@[t] == texts_vecs[t - out_prev@.len()]);
                        }
                    }
                    assert(out.deep_view() =~= out_prev.deep_view() + texts_dv);
                    assert(out_prev.deep_view() + (texts_dv + scan_payloads(sub.drop_first()).0)
                        =~= (out_prev.deep_view() + texts_dv) + scan_payloads(
                        sub.drop_first(),
                    ).0);
                }
            },
            Err(_) => {
                skipped = skipped + 1;
            },
        }
        i = i + 1;
    }
    proof {
        assert(all.subrange(all.len() as int, all.len() as int) =~= Seq::<Seq<u8>>::empty());
        assert(scan_payloads(Seq::<Seq<u8>>::empty()) == (Seq::<Seq<char>>::empty(), false, 0nat));
        assert(out.deep_view() + Seq::<Seq<char>>::empty() =~= out.deep_view());
    }
    (out, false, skipped)
}

/// One malformed payload between others is skipped, counted, and changes
/// neither the deltas nor the sentinel: the stream is never aborted by it.
pub proof fn lemma_malformed_payload_skipped(xs: Seq<Seq<u8>>, p: Seq<u8>, ys: Seq<Seq<u8>>)
    requires
        spec_parse_chunk(p) is None,
        p != done_payload(),
        !scan_payloads(xs).1,
    ensures
        scan_payloads(xs + seq![p] + ys).0 == scan_payloads(xs + ys).0,
        scan_payloads(xs + seq![p] + ys).1 == scan_payloads(xs + ys).1,
        scan_payloads(xs + seq![p] + ys).2 == scan_payloads(xs + ys).2 + 1,
    decreases xs.len(),
{
    if xs.len() == 0 {
        assert(xs + seq![p] + ys =~= seq![p] + ys);
        assert(xs + ys =~= ys);
        assert((seq![p] + ys)[0] == p);
        assert((seq![p] + ys).drop_first() =~= ys);
    } else {
        assert((xs + seq![p] + ys)[0] == xs[0]);
        assert((xs + ys)[0] == xs[0]);
        assert(xs[0] != done_payload());
        assert((xs + seq![p] + ys).drop_first() =~= xs.drop_first() + seq![p] + ys);
        assert((xs + ys).drop_first() =~= xs.drop_first() + ys);
        assert(!scan_payloads(xs.drop_first()).1);
        lemma_malformed_payload_skipped(xs.drop_first(), p, ys);
    }
}

/// The view of a streaming state.
pub open spec fn streaming_view(st: StreamingState) -> PhaseView {
    PhaseView::Streaming {
        stream_id: st.stream_id@,
        buf: st.decoder@,
        pending: st.pending.deep_view(),
        has_content: st.has_content,
        done_after: st.done_after,
    }
}

/// One streaming completion session, from its guards to its one terminal
/// transition.
pub struct Session {
    phase: Phase,
}

impl View for Session {
    type V = PhaseView;

    closed spec fn view(&self) -> PhaseView {
        self.phase@
    }
}

/// The finished outcome of a phase, if it is finished.
pub open spec fn finished_of(p: PhaseView) -> Option<OutcomeView> {
    match p {
        PhaseView::Finished(o) => Some(o),
        _ => None,
    }
}

impl Session {
    /// A fresh session that has not begun.
    pub fn new() -> (s: Session)
        ensures
            s@ == PhaseView::NotStarted,
    {
        Session { phase: Phase::NotStarted }
    }

    /// Whether the session has reached its terminal phase.
    pub fn is_finished(&self) -> (r: bool)
        ensures
            r == (self@ is Finished),
    {
        match &self.phase {
            Phase::Finished(_) => true,
            _ => false,
        }
    }

    /// The outcome of a finished session.
    pub fn finished_outcome(self) -> (r: Option<Outcome>)
        ensures
            match r {
                Some(o) => finished_of(self@) == Some(o@),
                None => finished_of(self@) is None,
            },
    {
        match self.phase {
            Phase::Finished(o) => Some(o),
            _ => None,
        }
    }

    /// Feeds one event to the machine and hands back at most one action,
    /// exactly as [`spec_step`] says.
    pub fn step(&mut self, event: Event) -> (a: Option<Action>)
        ensures
            final(self)@ == spec_step(old(self)@, event@).0,
            action_view(a) == spec_step(old(self)@, event@).1,
    {
        let mut phase = Phase::NotStarted;
        core::mem::swap(&mut phase, &mut self.phase);
        let r = Self::transition(phase, event);
        self.phase = r.0;
        r.1
    }

    #[verifier::rlimit(100)]
    fn transition(phase: Phase, event: Event) -> (r: (Phase, Option<Action>))
        ensures
            r.0@ == spec_step(phase@, event@).0,
            action_view(r.1) == spec_step(phase@, event@).1,
    {
        match (phase, event) {
            (Phase::NotStarted, Event::Begin { key_blank, client_ready }) => {
                if key_blank {
                    (Phase::Finished(Outcome::Failed(SessionError::ConfigError)), None)
                } else if !client_ready {
                    (Phase::Finished(Outcome::Failed(SessionError::NotInitializedError)), None)
                } else {
                    (Phase::AwaitingHttp, Some(Action::SendHttp))
                }
            },
            (Phase::AwaitingHttp, Event::HttpStatus { status, body }) => {
                if 200 <= status && status < 300 {
                    (Phase::AwaitingStart, Some(Action::CallStart))
                } else {
                    (
                        Phase::Finished(Outcome::Failed(SessionError::HttpError { status, body })),
                        None,
                    )
                }
            },
            (Phase::AwaitingStart, Event::StartResult(res)) => match res {
                Ok(id) => {
                    let st = StreamingState {
                        stream_id: id,
                        decoder: SseDecoder::new(),
                        pending: Vec::new(),
                        has_content: false,
                        done_after: false,
                    };
                    proof {
                        assert(st.pending.deep_view() =~= Seq::<Seq<char>>::empty());
                    }
                    (Phase::Streaming(st), None)
                },
                Err(m) => (Phase::Finished(Outcome::Failed(SessionError::StartError(m))), None),
            },
            (Phase::Streaming(st), Event::Bytes(chunk)) => {
                if st.done_after {
                    (Phase::Streaming(st), None)
                } else {
                    Self::on_bytes(st, chunk)
                }
            },
            (Phase::Streaming(st), Event::ChunkResult(res)) => Self::on_chunk_result(st, res),
            (Phase::Streaming(st), Event::Closed) => Self::on_closed(st),
            (ph, _) => (ph, None),
        }
    }

    /// Decodes one transport chunk into the streaming state and settles.
    #[verifier::rlimit(100)]
    fn on_bytes(st: StreamingState, chunk: Vec<u8>) -> (r: (Phase, Option<Action>))
        requires
            !st.done_after,
        ensures
            r.0@ == spec_step(streaming_view(st), EventView::Bytes(chunk@)).0,
            action_view(r.1) == spec_step(streaming_view(st), EventView::Bytes(chunk@)).1,
    {
        let mut st = st;
        let evs = st.decoder.feed(chunk.as_slice());
        let scanned = scan_chunk_payloads(evs);
        let mut texts = scanned.0;
        let done = scanned.1;
        let had_pending = st.pending.len() > 0;
        let got_texts = texts.len() > 0;
        let ghost texts_dv = texts.deep_view();
        let ghost texts_vecs = texts@;
        let ghost pend_prev = st.pending;
        st.pending.append(&mut texts);
        proof {
            assert forall|t: int| 0 <= t < st.pending.deep_view().len() implies st.pending.deep_view()[t]
                == (pend_prev.deep_view() + texts_dv)[t] by {
                if t < pend_prev@.len() {
                    assert(st.pending@[t] == pend_prev@[t]);
                } else {
                    assert(st.pending@[t] == texts_vecs[t - pend_prev@.len()]);
                }
            }
            assert(st.pending.deep_view() =~= pend_prev.deep_view() + texts_dv);
        }
        st.has_content = st.has_content || got_texts;
        st.done_after = done;
        if had_pending {
            (Phase::Streaming(st), None)
        } else {
            Self::emit(st)
        }
    }

    /// Applies the sink's answer to the most recently delivered delta.
    fn on_chunk_result(st: StreamingState, res: Result<(), ChunkSendError>) -> (r: (
        Phase,
        Option<Action>,
    ))
        ensures
            ({
                let e = Event::ChunkResult(res);
                r.0@ == spec_step(streaming_view(st), e@).0 && action_view(r.1) == spec_step(
                    streaming_view(st),
                    e@,
                ).1
            }),
    {
        if st.pending.len() == 0 {
            return (Phase::Streaming(st), None);
        }
        match res {
            Ok(_) => {
                let mut st = st;
                let ghost pend_prev = st.pending@;
                let ghost pend_prev_dv = st.pending.deep_view();
                let _ = st.pending.remove(0);
                proof {
                    assert(st.pending@ =~= pend_prev.drop_first());
                    assert forall|t: int| 0 <= t < st.pending.deep_view().len() implies
                        st.pending.deep_view()[t] == pend_prev_dv.drop_first()[t] by {
                        assert(st.pending@[t] == pend_prev[t + 1]);
                    }
                    assert(st.pending.deep_view() =~= pend_prev_dv.drop_first());
                }
                Self::emit(st)
            },
            Err(ChunkSendError::Cancelled) => (Phase::Finished(Outcome::Cancelled), None),
            Err(ChunkSendError::Other(m)) => {
                let mut err = "Error: ".to_owned();
                err.append(m.as_str());
                proof {
                    reveal_strlit("Error: ");
                    assert("Error: "@ =~= error_prefix());
                }
                (
                    Phase::Finished(Outcome::Failed(SessionError::SinkError(m))),
                    Some(
                        Action::CallEnd {
                            stream_id: st.stream_id,
                            success: false,
                            error: Some(err),
                        },
                    ),
                )
            },
        }
    }

    /// Ends the session once the transport closed without a sentinel.
    #[verifier::rlimit(100)]
    fn on_closed(st: StreamingState) -> (r: (Phase, Option<Action>))
        ensures
            r.0@ == spec_step(streaming_view(st), EventView::Closed).0,
            action_view(r.1) == spec_step(streaming_view(st), EventView::Closed).1,
    {
        if st.done_after || st.pending.len() > 0 {
            (Phase::Streaming(st), None)
        } else if st.has_content {
            (
                Phase::Finished(Outcome::CompletedWithContent),
                Some(Action::CallEnd { stream_id: st.stream_id, success: true, error: None }),
            )
        } else {
            let msg = "no content received".to_owned();
            proof {
                reveal_strlit("no content received");
                assert(msg@ =~= no_content_text());
            }
            (
                Phase::Finished(Outcome::Failed(SessionError::NoContent)),
                Some(
                    Action::CallEnd {
                        stream_id: st.stream_id,
                        success: false,
                        error: Some(msg),
                    },
                ),
            )
        }
    }

    /// Hands out the next pending delta, or ends after the sentinel, or
    /// waits for more bytes.
    fn emit(st: StreamingState) -> (r: (Phase, Option<Action>))
        ensures
            ({
                let e = spec_emit(
                    st.stream_id@,
                    st.decoder@,
                    st.pending.deep_view(),
                    st.has_content,
                    st.done_after,
                );
                r.0@ == e.0 && action_view(r.1) == e.1
            }),
    {
        if st.pending.len() > 0 {
            let text = st.pending[0].clone();
            let sid = st.stream_id.clone();
            (Phase::Streaming(st), Some(Action::CallChunk { stream_id: sid, text }))
        } else if st.done_after {
            let o = if st.has_content {
                Outcome::CompletedWithContent
            } else {
                Outcome::CompletedEmpty
            };
            (
                Phase::Finished(o),
                Some(Action::CallEnd { stream_id: st.stream_id, success: true, error: None }),
            )
        } else {
            (Phase::Streaming(st), None)
        }
    }
}

/// The consumer of a stream: the host hands an implementation in, and the
/// session calls it through [`pump`]. Nothing is assumed of what the calls
/// return; the machine is verified for every answer.
pub trait Sink {
    /// Opens a stream and hands back its identifier.
    fn stream_start(&mut self) -> Result<String, String>;

    /// Delivers one incremental text fragment.
    fn stream_chunk(&mut self, stream_id: &str, text: &str, is_final: bool) -> Result<
        (),
        ChunkSendError,
    >;

    /// Closes a stream, reporting success or an error message.
    fn stream_end(&mut self, stream_id: &str, success: bool, error: Option<&str>) -> Result<
        (),
        String,
    >;
}

/// A session that is not mid-delivery: any event may be fed to it.
pub open spec fn pump_ready(p: PhaseView) -> bool {
    match p {
        PhaseView::Streaming { pending, done_after, .. } => pending.len() == 0 && !done_after,
        _ => true,
    }
}

/// What each action says of the phase beside it while pumping.
pub open spec fn action_phase_inv(p: PhaseView, a: Option<ActionView>) -> bool {
    match a {
        None => pump_ready(p),
        Some(av) => match av {
            ActionView::SendHttp => p is AwaitingHttp,
            ActionView::CallStart => p is AwaitingStart,
            ActionView::CallChunk { .. } => (p matches PhaseView::Streaming { pending, .. }
                && pending.len() > 0),
            ActionView::CallEnd { .. } => p is Finished,
        },
    }
}

/// Rank of a phase while pumping: each executed action lowers it or the
/// count of pending deltas.
pub open spec fn phase_rank(p: PhaseView) -> int {
    match p {
        PhaseView::AwaitingStart => 2,
        PhaseView::Streaming { .. } => 1,
        _ => 0,
    }
}

/// The pending deltas of a phase.
pub open spec fn phase_pending(p: PhaseView) -> int {
    match p {
        PhaseView::Streaming { pending, .. } => pending.len() as int,
        _ => 0,
    }
}

/// Weight of an unexecuted action.
pub open spec fn action_weight(a: Option<ActionView>) -> int {
    match a {
        Some(_) => 1,
        None => 0,
    }
}

/// True for an event that a sink call produces: the result of a start call
/// or of a chunk call.
pub open spec fn is_sink_answer(e: EventView) -> bool {
    e is StartResult || e is ChunkResult
}

/// True when every event of the sequence is a sink answer.
pub open spec fn all_sink_answers(evs: Seq<EventView>) -> bool {
    forall|i: int| 0 <= i < evs.len() ==> is_sink_answer(#[trigger] evs[i])
}

/// How many of the actions ask the sink a question whose answer comes back
/// as an event: the start and chunk calls.
pub open spec fn answered_count(acts: Seq<ActionView>) -> nat
    decreases acts.len(),
{
    if acts.len() == 0 {
        0
    } else {
        answered_count(acts.drop_last()) + (if acts.last() is CallStart || acts.last()
            is CallChunk {
            1nat
        } else {
            0nat
        })
    }
}

/// One more answer is owed while a start or chunk call stands unanswered.
pub open spec fn pending_answer_weight(a: Option<ActionView>) -> nat {
    match a {
        Some(av) => if av is CallStart || av is CallChunk {
            1nat
        } else {
            0nat
        },
        None => 0nat,
    }
}

/// What one pumping accomplishes: some sequence of sink answers, fed after
/// the caller's event, drives [`spec_run`] from the old phase to the new
/// one; every start and chunk call of that run got its answer; and the
/// HTTP-send request is handed back exactly when it is the run's last,
/// unexecuted action.
pub open spec fn pump_run_matches(
    p0: PhaseView,
    e0: EventView,
    p1: PhaseView,
    sent_http: bool,
    answers: Seq<EventView>,
) -> bool {
    let r = spec_run(p0, seq![e0] + answers);
    &&& all_sink_answers(answers)
    &&& r.0 == p1
    &&& answered_count(r.1) == answers.len()
    &&& (sent_http ==> r.1.len() > 0 && r.1.last() == ActionView::SendHttp)
    &&& (!sent_http ==> !r.1.contains(ActionView::SendHttp))
}

/// The first transition of a pumping establishes its loop facts.
#[verifier::rlimit(100)]
proof fn lemma_pump_init(p0: PhaseView, ev0: EventView)
    ensures
        ({
            let r = spec_run(p0, seq![ev0] + Seq::<EventView>::empty());
            let s = spec_step(p0, ev0);
            &&& r.0 == s.0
            &&& answered_count(r.1) == pending_answer_weight(s.1)
            &&& (s.1 is Some ==> r.1.len() > 0 && r.1.last() == s.1->Some_0)
            &&& (r.1.contains(ActionView::SendHttp) ==> s.1 == Some(ActionView::SendHttp))
        }),
{
    assert(seq![ev0] + Seq::<EventView>::empty() =~= seq![ev0]);
    assert(seq![ev0].last() == ev0);
    assert(seq![ev0].drop_last() =~= Seq::<EventView>::empty());
    assert(spec_run(p0, Seq::<EventView>::empty()) == (p0, Seq::<ActionView>::empty()));
    let s = spec_step(p0, ev0);
    let sa = match s.1 {
        Some(a) => seq![a],
        None => Seq::<ActionView>::empty(),
    };
    assert(Seq::<ActionView>::empty() + sa =~= sa);
    match s.1 {
        Some(a) => {
            assert(answered_count(Seq::<ActionView>::empty()) == 0);
            assert(seq![a].drop_last() =~= Seq::<ActionView>::empty());
            assert(seq![a].last() == a);
            if seq![a].contains(ActionView::SendHttp) {
                let i = choose|i: int| 0 <= i < 1 && seq![a][i] == ActionView::SendHttp;
                assert(seq![a][0] == a);
            }
        },
        None => {
            if Seq::<ActionView>::empty().contains(ActionView::SendHttp) {
                let i = choose|i: int|
                    0 <= i < 0 && Seq::<ActionView>::empty()[i] == ActionView::SendHttp;
                assert(false);
            }
        },
    }
}

/// Answering a start or chunk call and stepping once keeps the pumping
/// run facts: the run extends by the answer, its final phase follows the
/// step, and its actions stay free of the HTTP-send request.
#[verifier::rlimit(100)]
proof fn lemma_pump_advance(
    p0: PhaseView,
    ev0: EventView,
    answers: Seq<EventView>,
    prev: PhaseView,
    prev_act: ActionView,
    e: EventView,
)
    requires
        is_sink_answer(e),
        all_sink_answers(answers),
        spec_run(p0, seq![ev0] + answers).0 == prev,
        spec_run(p0, seq![ev0] + answers).1.len() > 0,
        spec_run(p0, seq![ev0] + answers).1.last() == prev_act,
        prev_act is CallStart || prev_act is CallChunk,
        answered_count(spec_run(p0, seq![ev0] + answers).1) == answers.len() + 1,
        !spec_run(p0, seq![ev0] + answers).1.contains(ActionView::SendHttp),
        spec_step(prev, e).1 is Some ==> !(spec_step(prev, e).1->Some_0 is SendHttp),
    ensures
        ({
            let answers2 = answers.push(e);
            let r2 = spec_run(p0, seq![ev0] + answers2);
            let s = spec_step(prev, e);
            &&& all_sink_answers(answers2)
            &&& r2.0 == s.0
            &&& answered_count(r2.1) == answers2.len() + pending_answer_weight(s.1)
            &&& (s.1 is Some ==> r2.1.len() > 0 && r2.1.last() == s.1->Some_0)
            &&& !r2.1.contains(ActionView::SendHttp)
        }),
{
    let answers2 = answers.push(e);
    assert((seq![ev0] + answers2).drop_last() =~= seq![ev0] + answers);
    assert((seq![ev0] + answers2).last() == e);
    assert((seq![ev0] + answers2).len() > 0);
    let r1 = spec_run(p0, seq![ev0] + answers);
    let r2 = spec_run(p0, seq![ev0] + answers2);
    let s = spec_step(prev, e);
    assert forall|i: int| 0 <= i < answers2.len() implies is_sink_answer(
        #[trigger] answers2[i],
    ) by {
        if i < answers.len() {
            assert(answers2[i] == answers[i]);
        } else {
            assert(answers2[i] == e);
        }
    }
    match s.1 {
        Some(a) => {
            assert(r2.1 == r1.1 + seq![a]);
            assert((r1.1 + seq![a]).drop_last() =~= r1.1);
            assert((r1.1 + seq![a]).last() == a);
            assert forall|i: int| 0 <= i < r2.1.len() implies r2.1[i] != ActionView::SendHttp by {
                if i < r1.1.len() {
                    assert(r2.1[i] == r1.1[i]);
                    assert(!r1.1.contains(ActionView::SendHttp));
                    assert(r1.1[i] != ActionView::SendHttp);
                } else {
                    assert(r2.1[i] == a);
                }
            }
            if r2.1.contains(ActionView::SendHttp) {
                let i = choose|i: int| 0 <= i < r2.1.len() && r2.1[i] == ActionView::SendHttp;
                assert(false);
            }
        },
        None => {
            assert(r2.1 =~= r1.1);
        },
    }
}

/// From a ready phase, or mid-delivery with the sink's answer, one step
/// keeps the pumping invariant.
proof fn lemma_step_shape(p: PhaseView, e: EventView)
    requires
        pump_ready(p) || ((p matches PhaseView::Streaming { pending, .. } && pending.len() > 0)
            && e is ChunkResult),
    ensures
        action_phase_inv(spec_step(p, e).0, spec_step(p, e).1),
{
}

/// The facts a pumping loop carries: the run over the answers so far lands
/// on the current phase, every start and chunk call but the one still in
/// flight was answered, the in-flight action is the run's last, and the
/// HTTP-send request appears only as an unexecuted final action.
pub open spec fn pump_run_inv(
    p0: PhaseView,
    ev0: EventView,
    answers: Seq<EventView>,
    p: PhaseView,
    a: Option<ActionView>,
) -> bool {
    let r = spec_run(p0, seq![ev0] + answers);
    &&& all_sink_answers(answers)
    &&& r.0 == p
    &&& answered_count(r.1) == answers.len() + pending_answer_weight(a)
    &&& (a is Some ==> r.1.len() > 0 && r.1.last() == a->Some_0)
    &&& (r.1.contains(ActionView::SendHttp) ==> a == Some(ActionView::SendHttp))
}

/// Performs the sink's start call and feeds its result to the machine.
#[verifier::rlimit(100)]
fn pump_start_step<S: Sink>(
    session: &mut Session,
    sink: &mut S,
    Ghost(p0): Ghost<PhaseView>,
    Ghost(ev0): Ghost<EventView>,
    Ghost(answers): Ghost<Seq<EventView>>,
) -> (r: (Option<Action>, Ghost<Seq<EventView>>))
    requires
        old(session)@ is AwaitingStart,
        pump_run_inv(p0, ev0, answers, old(session)@, Some(ActionView::CallStart)),
    ensures
        action_phase_inv(final(session)@, action_view(r.0)),
        pump_run_inv(p0, ev0, r.1@, final(session)@, action_view(r.0)),
        phase_rank(final(session)@) < phase_rank(old(session)@),
{
    let res = sink.stream_start();
    let ev = Event::StartResult(res);
    let ghost prev = session@;
    let ghost evv = ev@;
    let act = session.step(ev);
    proof {
        lemma_step_shape(prev, evv);
        lemma_pump_advance(p0, ev0, answers, prev, ActionView::CallStart, evv);
    }
    (act, Ghost(answers.push(evv)))
}

/// Hands one delta to the sink and feeds its answer to the machine.
#[verifier::rlimit(100)]
fn pump_chunk_step<S: Sink>(
    session: &mut Session,
    sink: &mut S,
    stream_id: String,
    text: String,
    Ghost(p0): Ghost<PhaseView>,
    Ghost(ev0): Ghost<EventView>,
    Ghost(answers): Ghost<Seq<EventView>>,
) -> (r: (Option<Action>, Ghost<Seq<EventView>>))
    requires
        old(session)@ is Streaming,
        phase_pending(old(session)@) > 0,
        pump_run_inv(
            p0,
            ev0,
            answers,
            old(session)@,
            Some(ActionView::CallChunk { stream_id: stream_id@, text: text@ }),
        ),
    ensures
        action_phase_inv(final(session)@, action_view(r.0)),
        pump_run_inv(p0, ev0, r.1@, final(session)@, action_view(r.0)),
        phase_rank(final(session)@) <= phase_rank(old(session)@),
        phase_rank(final(session)@) == phase_rank(old(session)@) ==> phase_pending(
            final(session)@,
        ) < phase_pending(old(session)@),
{
    let res = sink.stream_chunk(stream_id.as_str(), text.as_str(), false);
    let ev = Event::ChunkResult(res);
    let ghost prev = session@;
    let ghost evv = ev@;
    let act = session.step(ev);
    proof {
        lemma_step_shape(prev, evv);
        lemma_pump_advance(
            p0,
            ev0,
            answers,
            prev,
            ActionView::CallChunk { stream_id: stream_id@, text: text@ },
            evv,
        );
    }
    (act, Ghost(answers.push(evv)))
}

/// Feeds one event and performs every sink-directed action that follows
/// from it, delta by delta, until the machine rests. A request to issue
/// the HTTP call is handed back to the caller instead. The session ends up
/// exactly where [`spec_run`] puts it for the caller's event followed by
/// the sink's answers, with every start and chunk call answered
/// ([`pump_run_matches`]).
#[verifier::rlimit(100)]
pub fn pump<S: Sink>(session: &mut Session, event: Event, sink: &mut S) -> (r: Option<Action>)
    requires
        pump_ready(old(session)@),
    ensures
        r is Some ==> r->Some_0@ == ActionView::SendHttp && final(session)@
            is AwaitingHttp,
        r is None ==> pump_ready(final(session)@),
        exists|answers: Seq<EventView>|
            #[trigger] pump_run_matches(old(session)@, event@, final(session)@, r is Some, answers),
{
    let ghost p0 = session@;
    let ghost ev0 = event@;
    let mut act = session.step(event);
    let ghost mut answers: Seq<EventView> = Seq::empty();
    proof {
        lemma_step_shape(p0, ev0);
        lemma_pump_init(p0, ev0);
        assert forall|i: int| 0 <= i < answers.len() implies is_sink_answer(
            #[trigger] answers[i],
        ) by {}
        assert(pump_run_inv(p0, ev0, answers, session@, action_view(act)));
    }
    loop
        invariant
            p0 == old(session)@,
            ev0 == event@,
            action_phase_inv(session@, action_view(act)),
            pump_run_inv(p0, ev0, answers, session@, action_view(act)),
        decreases phase_rank(session@), phase_pending(session@), action_weight(action_view(act)),
    {
        let cur = act;
        match cur {
            None => {
                proof {
                    assert(pump_run_matches(p0, ev0, session@, false, answers));
                }
                return None;
            },
            Some(Action::SendHttp) => {
                proof {
                    assert(pump_run_matches(p0, ev0, session@, true, answers));
                }
                return Some(Action::SendHttp);
            },
            Some(Action::CallStart) => {
                let stepped = pump_start_step(session, sink, Ghost(p0), Ghost(ev0), Ghost(answers));
                act = stepped.0;
                proof {
                    answers = stepped.1@;
                }
            },
            Some(Action::CallChunk { stream_id, text }) => {
                let stepped = pump_chunk_step(
                    session,
                    sink,
                    stream_id,
                    text,
                    Ghost(p0),
                    Ghost(ev0),
                    Ghost(answers),
                );
                act = stepped.0;
                proof {
                    answers = stepped.1@;
                }
            },
            Some(Action::CallEnd { stream_id, success, error }) => {
                let e: Option<&str> = match &error {
                    Some(s) => Some(s.as_str()),
                    None => None,
                };
                let _ = sink.stream_end(stream_id.as_str(), success, e);
                act = None;
            },
        }
    }
}

} // verus!
