use deepseek_stream::msg::Message;
use deepseek_stream::request::{build_request_body, parse_message, serialize_message};

#[test]
fn user_message_round_trips() {
    let m = Message::new("user", "hi");
    let bytes = serialize_message(&m);
    assert_eq!(bytes, br#"{"role":"user","content":"hi"}"#.to_vec());
    let back = parse_message(&bytes).expect("serialized record should parse");
    assert_eq!(back.role, "user");
    assert_eq!(back.content, "hi");
}

#[test]
fn message_with_specials_round_trips() {
    let m = Message::assistant("line1\nline2\t\"quoted\" \\ slash \u{1}\u{e9}\u{1f600}");
    let bytes = serialize_message(&m);
    let back = parse_message(&bytes).expect("serialized record should parse");
    assert_eq!(back.role, m.role);
    assert_eq!(back.content, m.content);
}

#[test]
fn escaping_is_exact() {
    let m = Message::new("r", "a\"b\\c\nd\re\tf\u{8}g\u{c}h\u{1f}i");
    let bytes = serialize_message(&m);
    let expected = br#"{"role":"r","content":"a\"b\\c\nd\re\tf\bg\fh\u001fi"}"#.to_vec();
    assert_eq!(
        String::from_utf8(bytes).unwrap(),
        String::from_utf8(expected).unwrap()
    );
}

#[test]
fn constructors_set_roles() {
    assert_eq!(Message::user("x").role, "user");
    assert_eq!(Message::assistant("x").role, "assistant");
    assert_eq!(Message::system("x").role, "system");
    let m = Message::new("other", "y");
    assert_eq!(m.role, "other");
    assert_eq!(m.content, "y");
}

#[test]
fn request_body_exact_form() {
    let messages = vec![Message::system("be brief"), Message::user("hi")];
    let body = build_request_body(&messages);
    let expected = r#"{"model":"deepseek-chat","messages":[{"role":"system","content":"be brief"},{"role":"user","content":"hi"}],"stream":true}"#;
    assert_eq!(String::from_utf8(body).unwrap(), expected);
}

#[test]
fn request_body_empty_conversation() {
    let body = build_request_body(&Vec::new());
    assert_eq!(
        String::from_utf8(body).unwrap(),
        r#"{"model":"deepseek-chat","messages":[],"stream":true}"#
    );
}

#[test]
fn request_body_is_valid_json_with_expected_fields() {
    let messages = vec![Message::user("hello \"world\"\n")];
    let body = build_request_body(&messages);
    let v: serde_json::Value = serde_json::from_slice(&body).expect("body should be valid JSON");
    assert_eq!(v["model"], serde_json::Value::String("deepseek-chat".to_string()));
    assert_eq!(v["stream"], serde_json::Value::Bool(true));
    let arr = v["messages"].as_array().expect("messages should be an array");
    assert_eq!(arr.len(), 1);
    assert_eq!(arr[0]["role"].as_str(), Some("user"));
    assert_eq!(arr[0]["content"].as_str(), Some("hello \"world\"\n"));
}

#[test]
fn parse_message_rejects_other_shapes() {
    assert!(parse_message(b"").is_none());
    assert!(parse_message(br#"{"role":"user"}"#).is_none());
    assert!(parse_message(br#"{"content":"hi","role":"user"}"#).is_none());
    assert!(parse_message(br#"{"role":"user","content":"hi"} "#).is_none());
}
