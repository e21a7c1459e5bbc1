use rubber_duck::stream::{classify_line, status_error, SseDecoder, SseLine, StreamEvent};

fn event_text(e: &StreamEvent) -> (&'static str, String) {
    match e {
        StreamEvent::Chunk(s) => ("chunk", s.clone()),
        StreamEvent::Done(s) => ("done", s.clone()),
        StreamEvent::Error(s) => ("error", s.clone()),
    }
}

#[test]
fn decoder_frames_lines_across_pushes() {
    let mut d = SseDecoder::new();
    d.push_text("data: {\"a\":");
    assert!(d.next_line().is_none());
    d.push_text("1}\n\n");
    match d.next_line() {
        Some(SseLine::Payload(p)) => assert_eq!(p, "{\"a\":1}"),
        _ => panic!("expected a payload line"),
    }
    assert!(matches!(d.next_line(), Some(SseLine::Skip)));
    assert!(d.next_line().is_none());
}

#[test]
fn decoder_recognises_done_marker_and_comments() {
    let mut d = SseDecoder::new();
    d.push_text(": keep-alive\r\ndata: [DONE]\r\n");
    assert!(matches!(d.next_line(), Some(SseLine::Skip)));
    assert!(matches!(d.next_line(), Some(SseLine::Finished)));
    assert!(d.next_line().is_none());
}

#[test]
fn classify_trims_before_matching() {
    let raw: Vec<char> = "   data: [DONE]   ".chars().collect();
    assert!(matches!(classify_line(&raw), SseLine::Finished));
    let raw: Vec<char> = "data:no-space".chars().collect();
    assert!(matches!(classify_line(&raw), SseLine::Skip));
    let raw: Vec<char> = "".chars().collect();
    assert!(matches!(classify_line(&raw), SseLine::Skip));
    let raw: Vec<char> = "data: ".chars().collect();
    assert!(matches!(classify_line(&raw), SseLine::Skip));
    let raw: Vec<char> = "data: x".chars().collect();
    match classify_line(&raw) {
        SseLine::Payload(p) => assert_eq!(p, "x"),
        _ => panic!("expected a payload"),
    }
}

#[test]
fn deltas_accumulate_into_done_text() {
    let mut d = SseDecoder::new();
    let e1 = d.apply_delta(Some("Hello".to_string()), false);
    assert_eq!(e1.len(), 1);
    assert_eq!(event_text(&e1[0]), ("chunk", "Hello".to_string()));
    let e2 = d.apply_delta(None, false);
    assert!(e2.is_empty());
    let e3 = d.apply_delta(Some(", world".to_string()), true);
    assert_eq!(e3.len(), 2);
    assert_eq!(event_text(&e3[0]), ("chunk", ", world".to_string()));
    assert_eq!(event_text(&e3[1]), ("done", "Hello, world".to_string()));
    assert_eq!(event_text(&d.done()), ("done", "Hello, world".to_string()));
}

#[test]
fn finish_without_content_sends_done_only() {
    let mut d = SseDecoder::new();
    d.apply_delta(Some("a".to_string()), false);
    let e = d.apply_delta(None, true);
    assert_eq!(e.len(), 1);
    assert_eq!(event_text(&e[0]), ("done", "a".to_string()));
}

#[test]
fn status_error_names_service_status_and_body() {
    let e = status_error("401 Unauthorized", "{\"error\":\"bad key\"}");
    assert_eq!(event_text(&e), ("error", "OpenRouter 401 Unauthorized: {\"error\":\"bad key\"}".to_string()));
}
