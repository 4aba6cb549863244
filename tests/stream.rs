use openai_rust2::chat::stream::{
    collect_frames, ChatCompletionChunkStream, SourceEvent, StreamError, StreamPoll,
};

fn frame(payload: &str) -> String {
    format!("data: {}\n\n", payload)
}

/// Feeds the chunks one at a time, draining the buffer before each, then
/// ends the body; collects every payload handed out and the failure, if any.
fn run_chunks(chunks: &[&[u8]]) -> (Vec<String>, Option<StreamError>) {
    let mut s = ChatCompletionChunkStream::new();
    let mut out = Vec::new();
    for c in chunks {
        while let Some(p) = s.poll_buffered() {
            match p {
                StreamPoll::Produced { payload, .. } => out.push(payload),
                _ => panic!("unexpected outcome on an open stream"),
            }
        }
        match s.on_source(SourceEvent::Chunk(c.to_vec())) {
            StreamPoll::Produced { payload, .. } => out.push(payload),
            StreamPoll::Pending { wake } => assert!(wake),
            StreamPoll::Failed(e) => return (out, Some(e)),
            StreamPoll::Done => panic!("a chunk does not end the stream"),
        }
    }
    while let Some(p) = s.poll_buffered() {
        match p {
            StreamPoll::Produced { payload, .. } => out.push(payload),
            _ => panic!("unexpected outcome on an open stream"),
        }
    }
    match s.on_source(SourceEvent::End) {
        StreamPoll::Done => (out, None),
        StreamPoll::Failed(e) => (out, Some(e)),
        other => panic!("unexpected outcome at the end: {:?}", other),
    }
}

fn split_at_all<'a>(text: &'a [u8], cuts: &[usize]) -> Vec<&'a [u8]> {
    let mut parts = Vec::new();
    let mut start = 0;
    for &c in cuts {
        parts.push(&text[start..c]);
        start = c;
    }
    parts.push(&text[start..]);
    parts
}

const CHUNK_HI: &str = r#"{"id":"1","created":1,"model":"m","choices":[{"delta":{"content":"Hi"},"index":0,"finish_reason":null}]}"#;

#[test]
fn single_chunk_scenario_then_done() {
    let mut s = ChatCompletionChunkStream::new();
    assert!(s.poll_buffered().is_none());
    let out = s.on_source(SourceEvent::Chunk(frame(CHUNK_HI).into_bytes()));
    let payload = match out {
        StreamPoll::Produced { payload, wake } => {
            assert!(!wake);
            payload
        }
        other => panic!("expected a frame, got {:?}", other),
    };
    assert_eq!(payload, CHUNK_HI);
    let v: serde_json::Value = serde_json::from_str(&payload).unwrap();
    assert_eq!(v["choices"][0]["delta"]["content"].as_str(), Some("Hi"));
    assert!(s.poll_buffered().is_none());
    assert!(matches!(s.on_source(SourceEvent::End), StreamPoll::Done));
    assert!(matches!(s.poll_buffered(), Some(StreamPoll::Done)));
}

#[test]
fn two_frames_in_one_chunk_drain_without_new_input() {
    let mut s = ChatCompletionChunkStream::new();
    let text = frame(r#"{"a":1}"#) + &frame(r#"{"b":2}"#);
    match s.on_source(SourceEvent::Chunk(text.into_bytes())) {
        StreamPoll::Produced { payload, wake } => {
            assert_eq!(payload, r#"{"a":1}"#);
            assert!(wake);
        }
        other => panic!("expected a frame, got {:?}", other),
    }
    match s.poll_buffered() {
        Some(StreamPoll::Produced { payload, wake }) => {
            assert_eq!(payload, r#"{"b":2}"#);
            assert!(!wake);
        }
        other => panic!("expected a frame, got {:?}", other),
    }
    assert!(s.poll_buffered().is_none());
}

#[test]
fn truncated_payload_waits_for_the_rest() {
    let mut s = ChatCompletionChunkStream::new();
    let out = s.on_source(SourceEvent::Chunk(b"data: {\"id\":\"1\",\"x\":".to_vec()));
    assert!(matches!(out, StreamPoll::Pending { wake: true }));
    assert!(s.poll_buffered().is_none());
    match s.on_source(SourceEvent::Chunk(b"[1,2]}\n\n".to_vec())) {
        StreamPoll::Produced { payload, .. } => assert_eq!(payload, "{\"id\":\"1\",\"x\":[1,2]}"),
        other => panic!("expected a frame, got {:?}", other),
    }
    assert!(s.poll_buffered().is_none());
}

#[test]
fn rejected_frame_ends_the_stream() {
    let mut s = ChatCompletionChunkStream::new();
    let text = frame("{not json}") + &frame(r#"{"b":2}"#);
    match s.on_source(SourceEvent::Chunk(text.into_bytes())) {
        StreamPoll::Produced { payload, .. } => assert_eq!(payload, "{not json}"),
        other => panic!("expected a frame, got {:?}", other),
    }
    match s.reject_frame("key must be a string".to_string()) {
        StreamPoll::Failed(StreamError::Decode(m)) => assert_eq!(m, "key must be a string"),
        other => panic!("expected a failure, got {:?}", other),
    }
    assert!(matches!(s.poll_buffered(), Some(StreamPoll::Done)));
    let more = frame(r#"{"c":3}"#).into_bytes();
    assert!(matches!(s.on_source(SourceEvent::Chunk(more)), StreamPoll::Done));
    assert!(matches!(s.reject_frame("again".to_string()), StreamPoll::Done));
}

#[test]
fn transport_error_is_terminal() {
    let mut s = ChatCompletionChunkStream::new();
    match s.on_source(SourceEvent::Error("connection reset".to_string())) {
        StreamPoll::Failed(StreamError::Transport(m)) => assert_eq!(m, "connection reset"),
        other => panic!("expected a failure, got {:?}", other),
    }
    assert!(matches!(s.poll_buffered(), Some(StreamPoll::Done)));
}

#[test]
fn invalid_utf8_chunk_is_terminal() {
    let mut s = ChatCompletionChunkStream::new();
    let out = s.on_source(SourceEvent::Chunk(vec![b'd', 0xff, 0xfe]));
    assert!(matches!(out, StreamPoll::Failed(StreamError::NotUtf8)));
    assert!(matches!(s.poll_buffered(), Some(StreamPoll::Done)));
}

#[test]
fn transport_pending_does_not_ask_for_wake() {
    let mut s = ChatCompletionChunkStream::new();
    assert!(matches!(s.on_source(SourceEvent::Pending), StreamPoll::Pending { wake: false }));
    assert!(matches!(s.on_source(SourceEvent::Chunk(Vec::new())), StreamPoll::Pending { wake: true }));
}

#[test]
fn segment_without_data_prefix_is_not_decoded() {
    let mut s = ChatCompletionChunkStream::new();
    let out = s.on_source(SourceEvent::Chunk(b"event: ping\n\ndata: {}\n\n".to_vec()));
    assert!(matches!(out, StreamPoll::Pending { wake: true }));
    assert!(s.poll_buffered().is_none());
}

#[test]
fn unterminated_complete_payload_is_handed_out() {
    let mut s = ChatCompletionChunkStream::new();
    match s.on_source(SourceEvent::Chunk(b"data: {\"k\":\"\xc3\xa9\"}".to_vec())) {
        StreamPoll::Produced { payload, wake } => {
            assert_eq!(payload, "{\"k\":\"\u{e9}\"}");
            assert!(!wake);
        }
        other => panic!("expected a frame, got {:?}", other),
    }
}

#[test]
fn next_frame_reports_the_wake_hint() {
    let mut s = ChatCompletionChunkStream::new();
    let _ = s.on_source(SourceEvent::Chunk(b"data: {\"a\":1".to_vec()));
    assert!(s.next_frame().is_none());
    let _ = s.on_source(SourceEvent::Chunk(b"}\n\ndata: {\"b\":2}\n\ndata: {".to_vec()));
    let f = s.next_frame().unwrap();
    assert_eq!(f.payload, "{\"b\":2}");
    assert!(!f.wake);
    assert!(s.next_frame().is_none());
}

#[test]
fn chunking_does_not_change_the_frames() {
    let payloads = [r#"{"a":1}"#, r#"{"b":"x y"}"#, r#"{"c":[1,2,3]}"#];
    let text: String = payloads.iter().map(|p| frame(p)).collect();
    let bytes = text.as_bytes();
    let (whole, f1) = run_chunks(&[bytes]);
    let (pieces, f2) = run_chunks(&split_at_all(bytes, &[3, 10, 15, 16, 30, 31, 40]));
    let (pairs, f3) = run_chunks(&split_at_all(bytes, &[2, 4, 6, 8, 12, 20, 22, 28]));
    assert!(f1.is_none() && f2.is_none() && f3.is_none());
    assert_eq!(whole, payloads);
    assert_eq!(pieces, whole);
    assert_eq!(pairs, whole);
}

#[test]
fn every_well_formed_frame_comes_out_once() {
    let payloads = [r#"{"n":1}"#, r#"{"n":2}"#, r#"{"n":3}"#, r#"{"n":4}"#];
    let text: String = payloads.iter().map(|p| frame(p)).collect();
    let bytes = text.as_bytes();
    let (all_in_one, _) = run_chunks(&[bytes]);
    assert_eq!(all_in_one.len(), 4);
    // one chunk per byte, except that each closing brace travels with the
    // byte after it
    let mut cuts = Vec::new();
    for i in 1..bytes.len() {
        if bytes[i - 1] != b'}' {
            cuts.push(i);
        }
    }
    let (byte_wise, failed) = run_chunks(&split_at_all(bytes, &cuts));
    assert!(failed.is_none());
    assert_eq!(byte_wise, payloads);
}

#[test]
fn cut_right_after_a_closing_brace_stalls_the_stream() {
    let text = frame(r#"{"n":1}"#) + &frame(r#"{"n":2}"#);
    let bytes = text.as_bytes();
    let (out, failed) = run_chunks(&split_at_all(bytes, &[13]));
    assert_eq!(out, vec![r#"{"n":1}"#.to_string()]);
    assert!(matches!(failed, Some(StreamError::Truncated)));
}

#[test]
fn collect_frames_matches_any_clean_chunking() {
    let text = frame(r#"{"a":"\u00e9"}"#) + &frame(r#"{"b":{"c":1},"d":2}"#);
    let bytes = text.as_bytes().to_vec();
    let whole = collect_frames(&vec![bytes.clone()]).unwrap();
    assert_eq!(whole, vec![r#"{"a":"\u00e9"}"#.to_string(), r#"{"b":{"c":1},"d":2}"#.to_string()]);
    let pieces: Vec<Vec<u8>> = split_at_all(&bytes, &[1, 7, 9, 21, 22, 30, 36])
        .into_iter()
        .map(|p| p.to_vec())
        .collect();
    assert_eq!(collect_frames(&pieces).unwrap(), whole);
    assert_eq!(collect_frames(&vec![]).unwrap(), Vec::<String>::new());
}

#[test]
fn collect_frames_reports_a_body_cut_inside_a_frame() {
    let text = frame(r#"{"a":1}"#) + "data: {\"b\":";
    assert!(matches!(collect_frames(&vec![text.into_bytes()]), Err(StreamError::Truncated)));
    let blank_tail = frame(r#"{"a":1}"#) + "\r\n";
    assert_eq!(collect_frames(&vec![blank_tail.into_bytes()]).unwrap(), vec![r#"{"a":1}"#.to_string()]);
}

#[test]
fn end_of_body_inside_a_frame_is_a_failure() {
    let mut s = ChatCompletionChunkStream::new();
    assert!(matches!(s.on_source(SourceEvent::Chunk(b"data: {".to_vec())), StreamPoll::Pending { wake: true }));
    assert!(s.poll_buffered().is_none());
    assert!(matches!(s.on_source(SourceEvent::End), StreamPoll::Failed(StreamError::Truncated)));
    assert!(matches!(s.poll_buffered(), Some(StreamPoll::Done)));
}

#[test]
fn end_of_body_after_blank_leftover_is_clean() {
    let mut s = ChatCompletionChunkStream::new();
    let text = frame(r#"{"a":1}"#) + " \n\t";
    assert!(matches!(s.on_source(SourceEvent::Chunk(text.into_bytes())), StreamPoll::Produced { .. }));
    assert!(s.poll_buffered().is_none());
    assert!(matches!(s.on_source(SourceEvent::End), StreamPoll::Done));
}

#[test]
fn collect_frames_rejects_a_chunk_cut_inside_a_character() {
    let text = frame("{\"k\":\"\u{e9}\"}");
    let bytes = text.as_bytes();
    let cut = bytes.iter().position(|&b| b == 0xc3).unwrap() + 1;
    let parts = vec![bytes[..cut].to_vec(), bytes[cut..].to_vec()];
    assert!(matches!(collect_frames(&parts), Err(StreamError::NotUtf8)));
    assert_eq!(collect_frames(&vec![bytes.to_vec()]).unwrap(), vec!["{\"k\":\"\u{e9}\"}".to_string()]);
}
