use ritellm::SseDecoder;

fn feed_all(chunks: &[&[u8]]) -> (Vec<Vec<u8>>, bool) {
    let mut d = SseDecoder::new();
    let mut out = Vec::new();
    for c in chunks {
        out.extend(d.feed(c));
    }
    (out, d.is_done())
}

const PAYLOAD: &str = "data: {\"id\":\"a\",\"content\":\"héllo ✓\"}\n\ndata: {\"id\":\"b\"}\n\n";

#[test]
fn two_frames_in_one_chunk() {
    let (out, done) = feed_all(&[PAYLOAD.as_bytes()]);
    assert_eq!(
        out,
        vec![
            b"{\"id\":\"a\",\"content\":\"h\xc3\xa9llo \xe2\x9c\x93\"}".to_vec(),
            b"{\"id\":\"b\"}".to_vec()
        ]
    );
    assert!(!done);
}

#[test]
fn every_split_gives_the_same_payloads() {
    let bytes = PAYLOAD.as_bytes();
    let (whole, _) = feed_all(&[bytes]);
    for cut in 0..=bytes.len() {
        let (split, _) = feed_all(&[&bytes[..cut], &bytes[cut..]]);
        assert_eq!(split, whole, "cut at {}", cut);
    }
    let singles: Vec<&[u8]> = bytes.chunks(1).collect();
    assert_eq!(feed_all(&singles).0, whole);
    let triples: Vec<&[u8]> = bytes.chunks(3).collect();
    assert_eq!(feed_all(&triples).0, whole);
}

#[test]
fn incomplete_frame_waits() {
    let mut d = SseDecoder::new();
    assert!(d.feed(b"data: {\"a\":1}\n").is_empty());
    assert_eq!(d.feed(b"\n"), vec![b"{\"a\":1}".to_vec()]);
}

#[test]
fn sentinel_ends_stream() {
    let mut d = SseDecoder::new();
    let out = d.feed(b"data: one\n\ndata: [DONE]\n\ndata: two\n\n");
    assert_eq!(out, vec![b"one".to_vec()]);
    assert!(d.is_done());
    assert!(d.feed(b"data: three\n\n").is_empty());
    assert!(d.is_done());
}

#[test]
fn sentinel_alone_yields_nothing() {
    let (out, done) = feed_all(&[b"data: [DONE]\n\n"]);
    assert!(out.is_empty());
    assert!(done);
}

#[test]
fn sentinel_must_match_exactly() {
    let (out, done) = feed_all(&[b"data: [DONE] \n\ndata: [done]\n\n"]);
    assert_eq!(out, vec![b"[DONE] ".to_vec(), b"[done]".to_vec()]);
    assert!(!done);
}

#[test]
fn other_fields_are_ignored() {
    let (out, _) = feed_all(&[b"event: message\nid: 7\ndata: x\nretry: 10\n\n: comment\n\n"]);
    assert_eq!(out, vec![b"x".to_vec()]);
}

#[test]
fn data_lines_are_joined() {
    let (out, _) = feed_all(&[b"data: a\ndata: b\ndata: \n\n"]);
    assert_eq!(out, vec![b"a\nb\n".to_vec()]);
}

#[test]
fn data_without_space_is_not_data() {
    let (out, _) = feed_all(&[b"data:x\n\n"]);
    assert!(out.is_empty());
}

#[test]
fn empty_and_blank_input() {
    assert!(feed_all(&[b""]).0.is_empty());
    assert!(feed_all(&[b"\n\n\n\n"]).0.is_empty());
}

#[test]
fn malformed_fragment_does_not_stop_decoding() {
    let (out, done) = feed_all(&[b"data: {\"id\":\"1\"}\n\ndata: {not json\n\ndata: {\"id\":\"2\"}\n\n"]);
    assert_eq!(
        out,
        vec![b"{\"id\":\"1\"}".to_vec(), b"{not json".to_vec(), b"{\"id\":\"2\"}".to_vec()]
    );
    assert!(!done);
}

#[test]
fn multi_line_malformed_fragment_keeps_its_place() {
    let (out, done) = feed_all(&[
        b"data: {\"id\":\"1\"}\n\nevent: x\ndata: {broken\ndata: still broken\n\ndata: {\"id\":\"2\"}\n\ndata: [DONE]\n\n",
    ]);
    assert_eq!(
        out,
        vec![
            b"{\"id\":\"1\"}".to_vec(),
            b"{broken\nstill broken".to_vec(),
            b"{\"id\":\"2\"}".to_vec()
        ]
    );
    assert!(done);
}
