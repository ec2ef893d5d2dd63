use deepseek_stream::session::{
    pump, Action, ChunkSendError, Event, Outcome, Session, SessionError, Sink,
};

/// What one sink call looked like, recorded for inspection.
#[derive(Debug, PartialEq, Eq, Clone)]
enum Call {
    Start,
    Chunk(String, String, bool),
    End(String, bool, Option<String>),
}

/// A sink that records every call and answers from scripts.
struct RecSink {
    calls: Vec<Call>,
    start_result: Result<String, String>,
    chunk_results: Vec<Result<(), ChunkSendError>>,
    next_chunk: usize,
}

impl RecSink {
    fn ok() -> RecSink {
        RecSink {
            calls: Vec::new(),
            start_result: Ok("stream_001".to_string()),
            chunk_results: Vec::new(),
            next_chunk: 0,
        }
    }
}

impl Sink for RecSink {
    fn stream_start(&mut self) -> Result<String, String> {
        self.calls.push(Call::Start);
        self.start_result.clone()
    }

    fn stream_chunk(
        &mut self,
        stream_id: &str,
        text: &str,
        is_final: bool,
    ) -> Result<(), ChunkSendError> {
        self.calls
            .push(Call::Chunk(stream_id.to_string(), text.to_string(), is_final));
        let r = if self.next_chunk < self.chunk_results.len() {
            match &self.chunk_results[self.next_chunk] {
                Ok(()) => Ok(()),
                Err(ChunkSendError::Cancelled) => Err(ChunkSendError::Cancelled),
                Err(ChunkSendError::Other(m)) => Err(ChunkSendError::Other(m.clone())),
            }
        } else {
            Ok(())
        };
        self.next_chunk += 1;
        r
    }

    fn stream_end(&mut self, stream_id: &str, success: bool, error: Option<&str>) -> Result<(), String> {
        self.calls.push(Call::End(
            stream_id.to_string(),
            success,
            error.map(|e| e.to_string()),
        ));
        Ok(())
    }
}

fn begin_ok(session: &mut Session, sink: &mut RecSink) {
    let r = pump(session, Event::Begin { key_blank: false, client_ready: true }, sink);
    assert!(matches!(r, Some(Action::SendHttp)));
    let r = pump(
        session,
        Event::HttpStatus { status: 200, body: String::new() },
        sink,
    );
    assert!(r.is_none());
    assert_eq!(sink.calls, vec![Call::Start]);
}

fn outcome(session: Session) -> Outcome {
    session.finished_outcome().expect("session should be finished")
}

#[test]
fn two_deltas_then_sentinel() {
    let mut session = Session::new();
    let mut sink = RecSink::ok();
    begin_ok(&mut session, &mut sink);
    let r = pump(
        &mut session,
        Event::Bytes(br#"data: {"choices":[{"delta":{"content":"He"}}]}"#.to_vec()),
        &mut sink,
    );
    assert!(r.is_none());
    let r = pump(
        &mut session,
        Event::Bytes(b"\n\ndata: {\"choices\":[{\"delta\":{\"content\":\"llo\"}}]}\n\n".to_vec()),
        &mut sink,
    );
    assert!(r.is_none());
    let r = pump(&mut session, Event::Bytes(b"data: [DONE]\n\n".to_vec()), &mut sink);
    assert!(r.is_none());
    assert_eq!(
        sink.calls,
        vec![
            Call::Start,
            Call::Chunk("stream_001".to_string(), "He".to_string(), false),
            Call::Chunk("stream_001".to_string(), "llo".to_string(), false),
            Call::End("stream_001".to_string(), true, None),
        ]
    );
    assert!(matches!(outcome(session), Outcome::CompletedWithContent));
}

#[test]
fn bytes_after_sentinel_are_ignored() {
    let mut session = Session::new();
    let mut sink = RecSink::ok();
    begin_ok(&mut session, &mut sink);
    let stream =
        b"data: {\"choices\":[{\"delta\":{\"content\":\"x\"}}]}\n\ndata: [DONE]\n\ndata: {\"choices\":[{\"delta\":{\"content\":\"late\"}}]}\n\n";
    let r = pump(&mut session, Event::Bytes(stream.to_vec()), &mut sink);
    assert!(r.is_none());
    let r = pump(&mut session, Event::Closed, &mut sink);
    assert!(r.is_none());
    assert_eq!(
        sink.calls,
        vec![
            Call::Start,
            Call::Chunk("stream_001".to_string(), "x".to_string(), false),
            Call::End("stream_001".to_string(), true, None),
        ]
    );
}

#[test]
fn close_without_content_reports_failure_to_sink_only() {
    let mut session = Session::new();
    let mut sink = RecSink::ok();
    begin_ok(&mut session, &mut sink);
    let r = pump(&mut session, Event::Bytes(b"data: ill-formed\n\n".to_vec()), &mut sink);
    assert!(r.is_none());
    let r = pump(&mut session, Event::Closed, &mut sink);
    assert!(r.is_none());
    assert_eq!(
        sink.calls,
        vec![
            Call::Start,
            Call::End(
                "stream_001".to_string(),
                false,
                Some("no content received".to_string())
            ),
        ]
    );
    assert!(matches!(
        outcome(session),
        Outcome::Failed(SessionError::NoContent)
    ));
}

#[test]
fn close_with_content_reports_success() {
    let mut session = Session::new();
    let mut sink = RecSink::ok();
    begin_ok(&mut session, &mut sink);
    let r = pump(
        &mut session,
        Event::Bytes(br#"data: {"choices":[{"delta":{"content":"partial"}}]}"#.to_vec()),
        &mut sink,
    );
    assert!(r.is_none());
    let r = pump(&mut session, Event::Bytes(b"\n\n".to_vec()), &mut sink);
    assert!(r.is_none());
    let r = pump(&mut session, Event::Closed, &mut sink);
    assert!(r.is_none());
    assert_eq!(
        sink.calls,
        vec![
            Call::Start,
            Call::Chunk("stream_001".to_string(), "partial".to_string(), false),
            Call::End("stream_001".to_string(), true, None),
        ]
    );
    assert!(matches!(outcome(session), Outcome::CompletedWithContent));
}

#[test]
fn cancellation_is_silent() {
    let mut session = Session::new();
    let mut sink = RecSink::ok();
    sink.chunk_results = vec![Ok(()), Err(ChunkSendError::Cancelled)];
    begin_ok(&mut session, &mut sink);
    let stream =
        b"data: {\"choices\":[{\"delta\":{\"content\":\"a\"}}]}\n\ndata: {\"choices\":[{\"delta\":{\"content\":\"b\"}}]}\n\ndata: [DONE]\n\n";
    let r = pump(&mut session, Event::Bytes(stream.to_vec()), &mut sink);
    assert!(r.is_none());
    // the second chunk was cancelled: no end call of any kind follows
    assert_eq!(
        sink.calls,
        vec![
            Call::Start,
            Call::Chunk("stream_001".to_string(), "a".to_string(), false),
            Call::Chunk("stream_001".to_string(), "b".to_string(), false),
        ]
    );
    assert!(matches!(outcome(session), Outcome::Cancelled));
}

#[test]
fn sink_error_reports_end_and_fails() {
    let mut session = Session::new();
    let mut sink = RecSink::ok();
    sink.chunk_results = vec![Err(ChunkSendError::Other("pipe broke".to_string()))];
    begin_ok(&mut session, &mut sink);
    let r = pump(
        &mut session,
        Event::Bytes(b"data: {\"choices\":[{\"delta\":{\"content\":\"a\"}}]}\n\n".to_vec()),
        &mut sink,
    );
    assert!(r.is_none());
    assert_eq!(
        sink.calls,
        vec![
            Call::Start,
            Call::Chunk("stream_001".to_string(), "a".to_string(), false),
            Call::End(
                "stream_001".to_string(),
                false,
                Some("Error: pipe broke".to_string())
            ),
        ]
    );
    match outcome(session) {
        Outcome::Failed(SessionError::SinkError(m)) => assert_eq!(m, "pipe broke"),
        o => panic!("unexpected outcome: {:?}", debug_name(&o)),
    }
}

#[test]
fn blank_key_blocks_everything() {
    let mut session = Session::new();
    let mut sink = RecSink::ok();
    let r = pump(
        &mut session,
        Event::Begin { key_blank: true, client_ready: true },
        &mut sink,
    );
    assert!(r.is_none());
    assert!(sink.calls.is_empty());
    assert!(matches!(
        outcome(session),
        Outcome::Failed(SessionError::ConfigError)
    ));
}

#[test]
fn missing_client_blocks_everything() {
    let mut session = Session::new();
    let mut sink = RecSink::ok();
    let r = pump(
        &mut session,
        Event::Begin { key_blank: false, client_ready: false },
        &mut sink,
    );
    assert!(r.is_none());
    assert!(sink.calls.is_empty());
    assert!(matches!(
        outcome(session),
        Outcome::Failed(SessionError::NotInitializedError)
    ));
}

#[test]
fn http_failure_never_invokes_sink() {
    let mut session = Session::new();
    let mut sink = RecSink::ok();
    let r = pump(
        &mut session,
        Event::Begin { key_blank: false, client_ready: true },
        &mut sink,
    );
    assert!(matches!(r, Some(Action::SendHttp)));
    let r = pump(
        &mut session,
        Event::HttpStatus { status: 401, body: "unauthorized".to_string() },
        &mut sink,
    );
    assert!(r.is_none());
    assert!(sink.calls.is_empty());
    match outcome(session) {
        Outcome::Failed(SessionError::HttpError { status, body }) => {
            assert_eq!(status, 401);
            assert_eq!(body, "unauthorized");
        },
        o => panic!("unexpected outcome: {:?}", debug_name(&o)),
    }
}

#[test]
fn start_failure_aborts_before_any_chunk() {
    let mut session = Session::new();
    let mut sink = RecSink::ok();
    sink.start_result = Err("host refused".to_string());
    let r = pump(
        &mut session,
        Event::Begin { key_blank: false, client_ready: true },
        &mut sink,
    );
    assert!(matches!(r, Some(Action::SendHttp)));
    let r = pump(
        &mut session,
        Event::HttpStatus { status: 200, body: String::new() },
        &mut sink,
    );
    assert!(r.is_none());
    assert_eq!(sink.calls, vec![Call::Start]);
    match outcome(session) {
        Outcome::Failed(SessionError::StartError(m)) => assert_eq!(m, "host refused"),
        o => panic!("unexpected outcome: {:?}", debug_name(&o)),
    }
}

#[test]
fn sentinel_with_no_content_completes_empty() {
    let mut session = Session::new();
    let mut sink = RecSink::ok();
    begin_ok(&mut session, &mut sink);
    let r = pump(&mut session, Event::Bytes(b"data: [DONE]\n\n".to_vec()), &mut sink);
    assert!(r.is_none());
    assert_eq!(
        sink.calls,
        vec![Call::Start, Call::End("stream_001".to_string(), true, None)]
    );
    assert!(matches!(outcome(session), Outcome::CompletedEmpty));
}

#[test]
fn malformed_event_does_not_end_stream() {
    let mut session = Session::new();
    let mut sink = RecSink::ok();
    begin_ok(&mut session, &mut sink);
    let stream =
        b"data: {\"choices\":[{\"delta\":{\"content\":\"a\"}}]}\n\ndata: broken\n\ndata: {\"choices\":[{\"delta\":{\"content\":\"b\"}}]}\n\ndata: [DONE]\n\n";
    let r = pump(&mut session, Event::Bytes(stream.to_vec()), &mut sink);
    assert!(r.is_none());
    assert_eq!(
        sink.calls,
        vec![
            Call::Start,
            Call::Chunk("stream_001".to_string(), "a".to_string(), false),
            Call::Chunk("stream_001".to_string(), "b".to_string(), false),
            Call::End("stream_001".to_string(), true, None),
        ]
    );
}

/// Names an outcome for a test failure message without a Debug bound.
fn debug_name(o: &Outcome) -> &'static str {
    match o {
        Outcome::CompletedWithContent => "CompletedWithContent",
        Outcome::CompletedEmpty => "CompletedEmpty",
        Outcome::Cancelled => "Cancelled",
        Outcome::Failed(SessionError::ConfigError) => "Failed(ConfigError)",
        Outcome::Failed(SessionError::NotInitializedError) => "Failed(NotInitializedError)",
        Outcome::Failed(SessionError::HttpError { .. }) => "Failed(HttpError)",
        Outcome::Failed(SessionError::StartError(_)) => "Failed(StartError)",
        Outcome::Failed(SessionError::SinkError(_)) => "Failed(SinkError)",
        Outcome::Failed(SessionError::NoContent) => "Failed(NoContent)",
    }
}
