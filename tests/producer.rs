use ritellm::{
    fragment_item, ChatChoiceStream, ChatCompletionStreamResponse,
    ChatCompletionStreamResponseDelta, CompletionError, Delivery, StreamProducer, WireEvent,
};

fn payloads(ds: &[Delivery]) -> Vec<Vec<u8>> {
    ds.iter()
        .map(|d| match d {
            Delivery::Payload(p) => p.clone(),
            Delivery::Failure(e) => panic!("unexpected failure {:?}", e),
        })
        .collect()
}

/// Reads a fragment the way a consumer of the stream would.
fn parse_fragment(payload: &[u8]) -> Result<ChatCompletionStreamResponse, String> {
    let v: serde_json::Value = serde_json::from_slice(payload).map_err(|e| e.to_string())?;
    let text = |v: &serde_json::Value, k: &str| v.get(k).and_then(|x| x.as_str()).map(String::from);
    let choices = v
        .get("choices")
        .and_then(|c| c.as_array())
        .ok_or("missing choices")?
        .iter()
        .map(|c| ChatChoiceStream {
            index: c.get("index").and_then(|i| i.as_u64()).unwrap_or(0) as u32,
            delta: ChatCompletionStreamResponseDelta {
                role: c.get("delta").and_then(|d| text(d, "role")),
                content: c.get("delta").and_then(|d| text(d, "content")),
            },
            finish_reason: text(c, "finish_reason"),
        })
        .collect();
    Ok(ChatCompletionStreamResponse {
        id: text(&v, "id").ok_or("missing id")?,
        object: text(&v, "object").ok_or("missing object")?,
        created: v.get("created").and_then(|c| c.as_u64()).ok_or("missing created")?,
        model: text(&v, "model").ok_or("missing model")?,
        choices,
    })
}

const GOOD_1: &str = r#"{"id":"c1","object":"chat.completion.chunk","created":1700000000,"model":"gpt-4o-mini","choices":[{"index":0,"delta":{"role":"assistant","content":"Hel"},"finish_reason":null}]}"#;
const GOOD_2: &str = r#"{"id":"c1","object":"chat.completion.chunk","created":1700000000,"model":"gpt-4o-mini","choices":[{"index":0,"delta":{},"finish_reason":"stop"}]}"#;

#[test]
fn malformed_fragment_between_valid_ones() {
    let wire = format!("data: {}\n\ndata: {{\"id\": oops\n\ndata: {}\n\n", GOOD_1, GOOD_2);
    let mut p = StreamProducer::new();
    let step = p.on_event(WireEvent::Bytes(wire.into_bytes()));
    assert!(step.keep_reading);
    let items: Vec<_> = payloads(&step.deliveries)
        .into_iter()
        .map(|b| {
            let parsed = parse_fragment(&b);
            fragment_item(String::from_utf8(b).unwrap(), parsed)
        })
        .collect();
    assert_eq!(items.len(), 3);
    let first = items[0].as_ref().unwrap();
    assert_eq!(first.choices[0].delta.role.as_deref(), Some("assistant"));
    assert_eq!(first.choices[0].delta.content.as_deref(), Some("Hel"));
    match &items[1] {
        Err(e @ CompletionError::ChunkDecode { data, cause }) => {
            assert_eq!(data, "{\"id\": oops");
            assert!(!cause.is_empty());
            assert!(e.message().starts_with("Failed to parse stream response: "));
            assert!(e.message().ends_with(" - Data: {\"id\": oops"));
        }
        other => panic!("unexpected {:?}", other),
    }
    let last = items[2].as_ref().unwrap();
    assert_eq!(last.choices[0].finish_reason.as_deref(), Some("stop"));
    assert_eq!(last.choices[0].delta.content, None);
}

#[test]
fn split_fragment_is_delivered_once_complete() {
    let mut p = StreamProducer::new();
    let s1 = p.on_event(WireEvent::Bytes(b"data: {\"a\"".to_vec()));
    assert!(s1.deliveries.is_empty());
    assert!(s1.keep_reading);
    let s2 = p.on_event(WireEvent::Bytes(b":1}\n\ndata: [DONE]\n\n".to_vec()));
    assert_eq!(payloads(&s2.deliveries), vec![b"{\"a\":1}".to_vec()]);
    assert!(!s2.keep_reading);
    assert!(p.is_stopped());
}

#[test]
fn done_then_close_is_clean() {
    let mut p = StreamProducer::new();
    let s = p.on_event(WireEvent::Bytes(b"data: [DONE]\n\n".to_vec()));
    assert!(s.deliveries.is_empty());
    assert!(!s.keep_reading);
    let s = p.on_event(WireEvent::Ended);
    assert!(s.deliveries.is_empty());
    assert!(!s.keep_reading);
}

#[test]
fn close_before_sentinel_is_reported() {
    let mut p = StreamProducer::new();
    let s = p.on_event(WireEvent::Bytes(b"data: x\n\ndata: y".to_vec()));
    assert_eq!(payloads(&s.deliveries), vec![b"x".to_vec()]);
    let s = p.on_event(WireEvent::Ended);
    assert_eq!(s.deliveries.len(), 1);
    assert!(matches!(s.deliveries[0], Delivery::Failure(CompletionError::StreamClosed)));
    assert!(!s.keep_reading);
}

#[test]
fn read_failure_is_final() {
    let mut p = StreamProducer::new();
    let s = p.on_event(WireEvent::Failed("connection reset".to_string()));
    match &s.deliveries[..] {
        [Delivery::Failure(e @ CompletionError::StreamRead { message })] => {
            assert_eq!(e.message(), "EventSource error: connection reset");
            assert_eq!(message, "connection reset")
        }
        _ => panic!("unexpected deliveries"),
    }
    assert!(!s.keep_reading);
    assert!(p.on_event(WireEvent::Bytes(b"data: z\n\n".to_vec())).deliveries.is_empty());
}

#[test]
fn abandoned_consumer_stops_reading() {
    let mut p = StreamProducer::new();
    let s = p.on_event(WireEvent::Bytes(b"data: a\n\n".to_vec()));
    assert_eq!(s.deliveries.len(), 1);
    p.on_consumer_gone();
    assert!(p.is_stopped());
    let s = p.on_event(WireEvent::Bytes(b"data: b\n\ndata: c\n\n".to_vec()));
    assert!(s.deliveries.is_empty());
    assert!(!s.keep_reading);
    let s = p.on_event(WireEvent::Ended);
    assert!(s.deliveries.is_empty());
}

#[test]
fn parsed_fragment_passes_through() {
    let parsed = parse_fragment(GOOD_1.as_bytes());
    let item = fragment_item(GOOD_1.to_string(), parsed).unwrap();
    assert_eq!(item.id, "c1");
    assert_eq!(item.created, 1700000000);
}

#[test]
fn decode_failure_text() {
    let e = fragment_item("{".to_string(), Err("EOF while parsing".to_string())).err().unwrap();
    assert_eq!(e.message(), "Failed to parse stream response: EOF while parsing - Data: {");
}
