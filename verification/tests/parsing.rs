use deepseek_stream::chunk::parse_chunk;
use deepseek_stream::session::scan_chunk_payloads;

fn contents(payload: &[u8]) -> Vec<Option<String>> {
    let c = parse_chunk(payload).expect("payload should parse");
    c.choices.into_iter().map(|ch| ch.delta.content).collect()
}

#[test]
fn simple_content() {
    assert_eq!(
        contents(br#"{"choices":[{"delta":{"content":"He"}}]}"#),
        vec![Some("He".to_string())]
    );
}

#[test]
fn several_choices_in_order() {
    assert_eq!(
        contents(br#"{"choices":[{"delta":{"content":"a"}},{"delta":{"content":"b"}}]}"#),
        vec![Some("a".to_string()), Some("b".to_string())]
    );
}

#[test]
fn missing_content_is_none() {
    assert_eq!(contents(br#"{"choices":[{"delta":{}}]}"#), vec![None]);
}

#[test]
fn null_content_is_none() {
    assert_eq!(
        contents(br#"{"choices":[{"delta":{"content":null}}]}"#),
        vec![None]
    );
}

#[test]
fn empty_choices() {
    assert_eq!(contents(br#"{"choices":[]}"#), Vec::<Option<String>>::new());
}

#[test]
fn unknown_fields_are_skipped() {
    let payload = br#"{"id":"x-1","object":"chat.completion.chunk","created":1694268190,"model":"deepseek-chat","choices":[{"index":0,"delta":{"role":"assistant","content":"Hi"},"finish_reason":null}],"usage":null}"#;
    assert_eq!(contents(payload), vec![Some("Hi".to_string())]);
}

#[test]
fn whitespace_is_tolerated() {
    assert_eq!(
        contents(b" { \"choices\" : [ { \"delta\" : { \"content\" : \"x\" } } ] } "),
        vec![Some("x".to_string())]
    );
}

#[test]
fn escapes_are_decoded() {
    assert_eq!(
        contents(br#"{"choices":[{"delta":{"content":"a\nb\t\"q\"\\"}}]}"#),
        vec![Some("a\nb\t\"q\"\\".to_string())]
    );
}

#[test]
fn unicode_escapes_are_decoded() {
    assert_eq!(
        contents(br#"{"choices":[{"delta":{"content":"A\u00e9\u4e2d"}}]}"#),
        vec![Some("A\u{e9}\u{4e2d}".to_string())]
    );
}

#[test]
fn surrogate_pair_is_decoded() {
    assert_eq!(
        contents(br#"{"choices":[{"delta":{"content":"\ud83d\ude00"}}]}"#),
        vec![Some("\u{1f600}".to_string())]
    );
}

#[test]
fn utf8_content_passes_through() {
    let payload = "{\"choices\":[{\"delta\":{\"content\":\"\u{4f60}\u{597d}\"}}]}".as_bytes();
    assert_eq!(contents(payload), vec![Some("\u{4f60}\u{597d}".to_string())]);
}

#[test]
fn malformed_payloads_are_errors() {
    for bad in [
        &b"not json"[..],
        br#"{"choices":[{"delta":{"content":"unterminated"#,
        br#"{}"#,
        br#"{"nochoices":1}"#,
        br#"{"choices":{}}"#,
        br#"{"choices":[1]}"#,
        br#"{"choices":[{"nodelta":1}]}"#,
        br#"{"choices":[{"delta":{"content":5}}]}"#,
        br#"{"choices":[],"choices":[]}"#,
        br#"{"choices":[{"delta":{},"delta":{}}]}"#,
        br#"{"choices":[{"delta":{"content":"a","content":"b"}}]}"#,
        br#"{"choices":[]} trailing"#,
        br#"{"choices":[{"delta":{"content":"\ud83d"}}]}"#,
        b"{\"choices\":[{\"delta\":{\"content\":\"raw\ncontrol\"}}]}",
        br#"{"choices":[{"delta":{"content":"bad \x escape"}}]}"#,
        br#"{"choices":[{"delta":{"content":"x"}}],}"#,
        br#"{"choices":[{"delta":{"content":"x"}}],"n":01}"#,
    ] {
        assert!(
            parse_chunk(bad).is_err(),
            "should not parse: {}",
            String::from_utf8_lossy(bad)
        );
    }
}

#[test]
fn numbers_in_skipped_fields() {
    let payload = br#"{"a":-1.5e3,"b":0,"c":0.25,"d":1E+2,"choices":[{"delta":{"content":"n"}}]}"#;
    assert_eq!(contents(payload), vec![Some("n".to_string())]);
}

#[test]
fn nested_skipped_values() {
    let payload =
        br#"{"meta":{"list":[1,[2,{"x":null}],true,false],"s":" "},"choices":[{"delta":{"content":"ok"}}]}"#;
    assert_eq!(contents(payload), vec![Some("ok".to_string())]);
}

#[test]
fn scan_collects_deltas_in_order() {
    let payloads = vec![
        br#"{"choices":[{"delta":{"content":"He"}}]}"#.to_vec(),
        br#"{"choices":[{"delta":{"content":"llo"}}]}"#.to_vec(),
    ];
    let (texts, done, skipped) = scan_chunk_payloads(payloads);
    assert_eq!(texts, vec!["He".to_string(), "llo".to_string()]);
    assert!(!done);
    assert_eq!(skipped, 0);
}

#[test]
fn one_malformed_between_two_wellformed() {
    let payloads = vec![
        br#"{"choices":[{"delta":{"content":"a"}}]}"#.to_vec(),
        b"garbage".to_vec(),
        br#"{"choices":[{"delta":{"content":"b"}}]}"#.to_vec(),
    ];
    let (texts, done, skipped) = scan_chunk_payloads(payloads);
    assert_eq!(texts, vec!["a".to_string(), "b".to_string()]);
    assert!(!done);
    assert_eq!(skipped, 1);
}

#[test]
fn sentinel_stops_scan_and_produces_no_delta() {
    let payloads = vec![
        b"[DONE]".to_vec(),
        br#"{"choices":[{"delta":{"content":"late"}}]}"#.to_vec(),
    ];
    let (texts, done, skipped) = scan_chunk_payloads(payloads);
    assert!(texts.is_empty());
    assert!(done);
    assert_eq!(skipped, 0);
}

#[test]
fn choices_without_content_produce_no_delta() {
    let payloads = vec![
        br#"{"choices":[{"delta":{"content":"a"}},{"delta":{}},{"delta":{"content":"b"}}]}"#
            .to_vec(),
    ];
    let (texts, done, skipped) = scan_chunk_payloads(payloads);
    assert_eq!(texts, vec!["a".to_string(), "b".to_string()]);
    assert!(!done);
    assert_eq!(skipped, 0);
}

#[test]
fn sentinel_after_deltas() {
    let payloads = vec![
        br#"{"choices":[{"delta":{"content":"x"}}]}"#.to_vec(),
        b"[DONE]".to_vec(),
    ];
    let (texts, done, skipped) = scan_chunk_payloads(payloads);
    assert_eq!(texts, vec!["x".to_string()]);
    assert!(done);
    assert_eq!(skipped, 0);
}
