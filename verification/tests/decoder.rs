use deepseek_stream::sse::SseDecoder;

fn feed_all(chunks: &[&[u8]]) -> Vec<Vec<u8>> {
    let mut d = SseDecoder::new();
    let mut out: Vec<Vec<u8>> = Vec::new();
    for c in chunks {
        let mut evs = d.feed(c);
        out.append(&mut evs);
    }
    out
}

#[test]
fn one_event_in_one_chunk() {
    let evs = feed_all(&[b"data: hello\n\n"]);
    assert_eq!(evs, vec![b"hello".to_vec()]);
}

#[test]
fn event_split_anywhere_gives_same_payloads() {
    let whole: &[u8] = b"data: alpha\n\ndata: beta\n\ndata: gamma\n\n";
    let expected = feed_all(&[whole]);
    assert_eq!(
        expected,
        vec![b"alpha".to_vec(), b"beta".to_vec(), b"gamma".to_vec()]
    );
    // every two-piece split of the same byte stream
    for cut in 0..=whole.len() {
        let evs = feed_all(&[&whole[..cut], &whole[cut..]]);
        assert_eq!(evs, expected, "split at {}", cut);
    }
    // byte-by-byte
    let singles: Vec<&[u8]> = whole.chunks(1).collect();
    assert_eq!(feed_all(&singles), expected);
}

#[test]
fn split_inside_data_prefix() {
    let evs = feed_all(&[b"da", b"ta: x\n\n"]);
    assert_eq!(evs, vec![b"x".to_vec()]);
}

#[test]
fn split_inside_separator() {
    let evs = feed_all(&[b"data: x\n", b"\ndata: y\n\n"]);
    assert_eq!(evs, vec![b"x".to_vec(), b"y".to_vec()]);
}

#[test]
fn incomplete_event_stays_buffered() {
    let mut d = SseDecoder::new();
    let evs = d.feed(b"data: partial");
    assert!(evs.is_empty());
    let evs = d.feed(b" more\n\n");
    assert_eq!(evs, vec![b"partial more".to_vec()]);
}

#[test]
fn non_data_segments_are_discarded() {
    let evs = feed_all(&[b": keep-alive\n\ndata: real\n\nevent: other\n\n"]);
    assert_eq!(evs, vec![b"real".to_vec()]);
}

#[test]
fn empty_payload_is_emitted() {
    let evs = feed_all(&[b"data: \n\n"]);
    assert_eq!(evs, vec![b"".to_vec()]);
}

#[test]
fn order_is_preserved() {
    let evs = feed_all(&[b"data: 1\n\nda", b"ta: 2\n\ndata:", b" 3\n\n"]);
    assert_eq!(evs, vec![b"1".to_vec(), b"2".to_vec(), b"3".to_vec()]);
}
