use hecate_web::stream::{classify_frame, upstream_error, StreamEvent, StreamSession};
use hecate_web::sse::SseFrame;

const OK_HEAD: &[u8] = b"HTTP/1.1 200 OK\r\nContent-Type: text/event-stream\r\n\r\n";
const CHUNKED_HEAD: &[u8] = b"HTTP/1.1 200 OK\r\nTransfer-Encoding: chunked\r\n\r\n";

fn describe(events: &[StreamEvent]) -> Vec<String> {
    events
        .iter()
        .map(|e| match e {
            StreamEvent::Message(f) => format!("msg:{}", String::from_utf8_lossy(&f.data)),
            StreamEvent::Done => "done".to_string(),
            StreamEvent::Failed(m) => format!("failed:{}", String::from_utf8_lossy(m)),
        })
        .collect()
}

fn terminal_count(events: &[StreamEvent]) -> usize {
    events.iter().filter(|e| !matches!(e, StreamEvent::Message(_))).count()
}

#[test]
fn messages_then_done_marker() {
    let mut s = StreamSession::new();
    let mut ev = s.feed(OK_HEAD);
    ev.extend(s.feed(b"data: {\"n\":1}\n\ndata: [DONE]\n\ndata: {\"n\":2}\n\n"));
    assert_eq!(describe(&ev), vec!["msg:{\"n\":1}", "done"]);
    assert!(s.is_finished());
    assert!(s.feed(b"data: {\"n\":3}\n\n").is_empty());
    assert!(s.close().is_none());
}

#[test]
fn empty_data_is_a_done_marker() {
    let mut s = StreamSession::new();
    let mut ev = s.feed(OK_HEAD);
    ev.extend(s.feed(b"data:\n\n"));
    assert_eq!(describe(&ev), vec!["done"]);
}

#[test]
fn malformed_payload_is_dropped_and_stream_goes_on() {
    let mut s = StreamSession::new();
    let mut ev = s.feed(OK_HEAD);
    ev.extend(s.feed(b"data: {not json\n\ndata: {\"ok\":true}\n\n"));
    assert_eq!(describe(&ev), vec!["msg:{\"ok\":true}"]);
    assert!(!s.is_finished());
}

#[test]
fn close_gives_exactly_one_terminal_event() {
    let mut s = StreamSession::new();
    let mut ev = s.feed(OK_HEAD);
    ev.extend(s.feed(b"data: 1\n\n"));
    ev.extend(s.close());
    assert_eq!(describe(&ev), vec!["msg:1", "done"]);
    assert_eq!(terminal_count(&ev), 1);
    assert!(s.fail(b"late".to_vec()).is_none());
}

#[test]
fn io_failure_gives_exactly_one_error_event() {
    let mut s = StreamSession::new();
    let mut ev = s.feed(OK_HEAD);
    ev.extend(s.fail(b"connection reset".to_vec()));
    ev.extend(s.close());
    ev.extend(s.fail(b"again".to_vec()));
    assert_eq!(describe(&ev), vec!["failed:connection reset"]);
}

#[test]
fn failure_before_the_head_still_ends_once() {
    let mut s = StreamSession::new();
    let ev: Vec<StreamEvent> = s.fail(b"refused".to_vec()).into_iter().collect();
    assert_eq!(terminal_count(&ev), 1);
}

#[test]
fn chunked_stream_split_anywhere_gives_the_same_events() {
    let mut wire = CHUNKED_HEAD.to_vec();
    wire.extend_from_slice(b"b\r\ndata: {\"a\":\r\n");
    wire.extend_from_slice(b"5\r\n1}\n\n\n\r\n");
    wire.extend_from_slice(b"0\r\n\r\n");
    let mut whole = StreamSession::new();
    let all = describe(&whole.feed(&wire));
    assert_eq!(all, vec!["msg:{\"a\":1}", "done"]);
    for cut in 0..wire.len() {
        let mut s = StreamSession::new();
        let mut ev = s.feed(&wire[..cut]);
        ev.extend(s.feed(&wire[cut..]));
        assert_eq!(describe(&ev), all);
    }
}

#[test]
fn heartbeat_between_chunks_is_skipped() {
    let mut s = StreamSession::new();
    let mut ev = s.feed(CHUNKED_HEAD);
    ev.extend(s.feed(b"\r\n: ping\r\na\r\ndata: {}\n\n\r\n"));
    assert_eq!(describe(&ev), vec!["msg:{}"]);
}

#[test]
fn stream_closed_inside_a_chunk_fails() {
    let mut s = StreamSession::new();
    let mut ev = s.feed(CHUNKED_HEAD);
    ev.extend(s.feed(b"a\r\ndata"));
    ev.extend(s.close());
    assert_eq!(describe(&ev), vec!["failed:stream ended inside a chunk"]);
}

#[test]
fn error_status_becomes_one_error_event_with_the_body() {
    let mut s = StreamSession::new();
    let ev = s.feed(b"HTTP/1.1 404 Not Found\r\nContent-Length: 4\r\n\r\nnope");
    assert_eq!(describe(&ev), vec!["failed:daemon returned 404: nope"]);
    assert!(s.close().is_none());
}

#[test]
fn chunked_error_body_is_read_to_its_end() {
    let mut s = StreamSession::new();
    let ev = s.feed(b"HTTP/1.1 500 Oops\r\nTransfer-Encoding: chunked\r\n\r\n4\r\nboom\r\n0\r\n\r\n");
    assert_eq!(describe(&ev), vec!["failed:daemon returned 500: boom"]);
}

#[test]
fn error_body_without_framing_ends_at_close() {
    let mut s = StreamSession::new();
    let mut ev = s.feed(b"HTTP/1.1 503 Busy\r\n\r\ntry later");
    assert!(ev.is_empty());
    ev.extend(s.close());
    assert_eq!(describe(&ev), vec!["failed:daemon returned 503: try later"]);
}

#[test]
fn connection_closed_before_any_response_fails() {
    let mut s = StreamSession::new();
    let ev: Vec<StreamEvent> = s.close().into_iter().collect();
    assert_eq!(describe(&ev), vec!["failed:daemon returned 500: "]);
}

#[test]
fn upstream_error_message() {
    assert_eq!(upstream_error(502, b"bad gateway"), b"daemon returned 502: bad gateway".to_vec());
}

#[test]
fn frames_are_classified_by_their_data() {
    let f = |d: &[u8]| SseFrame { event_type: b"x".to_vec(), data: d.to_vec() };
    assert!(matches!(classify_frame(f(b"[DONE]")), Some(StreamEvent::Done)));
    assert!(matches!(classify_frame(f(b"")), Some(StreamEvent::Done)));
    assert!(matches!(classify_frame(f(b" [1, 2] ")), Some(StreamEvent::Message(_))));
    assert!(classify_frame(f(b"[1, 2")).is_none());
    assert!(classify_frame(f(b"{} {}")).is_none());
}
