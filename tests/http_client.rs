use hecate_web::http::{build_request, build_stream_request, parse_status, parse_status_code, ResponseError};
use hecate_web::response::{read_response, ResponseReader};

#[test]
fn status_code_of_a_status_line() {
    assert_eq!(parse_status_code(b"HTTP/1.1 200 OK\r\n"), Ok(200));
    assert_eq!(parse_status_code(b"HTTP/1.1 404 Not Found\r\n"), Ok(404));
    assert_eq!(parse_status_code(b"  HTTP/1.1\t+201  Created"), Ok(201));
}

#[test]
fn status_line_with_one_word_is_malformed() {
    assert_eq!(parse_status_code(b"HTTP/1.1\r\n"), Err(ResponseError::MalformedStatusLine));
    assert_eq!(parse_status_code(b""), Err(ResponseError::MalformedStatusLine));
}

#[test]
fn status_code_that_is_not_a_number_is_invalid() {
    assert_eq!(parse_status_code(b"HTTP/1.1 abc OK"), Err(ResponseError::InvalidStatusCode));
    assert_eq!(parse_status_code(b"HTTP/1.1 70000 Big"), Err(ResponseError::InvalidStatusCode));
}

#[test]
fn lenient_status_defaults_to_500() {
    assert_eq!(parse_status(b"HTTP/1.1 204 No Content"), 204);
    assert_eq!(parse_status(b"garbage"), 500);
}

#[test]
fn request_head_without_body() {
    let r = build_request("GET", "/api/x", "y=1", 0, None);
    assert_eq!(r, b"GET /api/x?y=1 HTTP/1.1\r\nHost: localhost\r\nConnection: close\r\n\r\n".to_vec());
}

#[test]
fn request_head_with_body_and_accept() {
    let r = build_request("POST", "/api/llm/chat", "", 123, Some("text/event-stream"));
    let expected = "POST /api/llm/chat HTTP/1.1\r\nHost: localhost\r\nConnection: close\r\n\
                    Content-Type: application/json\r\nContent-Length: 123\r\n\
                    Accept: text/event-stream\r\n\r\n";
    assert_eq!(String::from_utf8(r).unwrap(), expected);
}

#[test]
fn stream_request_head() {
    let r = build_stream_request("/api/events");
    let expected =
        "GET /api/events HTTP/1.1\r\nHost: localhost\r\nAccept: text/event-stream\r\nConnection: keep-alive\r\n\r\n";
    assert_eq!(String::from_utf8(r).unwrap(), expected);
}

#[test]
fn not_found_is_a_response_not_a_connection_error() {
    let wire = b"HTTP/1.1 404 Not Found\r\nContent-Type: text/plain\r\nContent-Length: 9\r\n\r\nnot found";
    let resp = read_response(wire).unwrap();
    assert_eq!(resp.status, 404);
    assert_eq!(resp.body, b"not found".to_vec());
    assert_eq!(resp.content_type, b"text/plain".to_vec());
}

#[test]
fn content_length_body_completes_without_close() {
    let mut r = ResponseReader::new();
    r.feed(b"HTTP/1.1 200 OK\r\nContent-Length: 5\r\n\r\nhel");
    assert!(!r.is_finished());
    r.feed(b"lo");
    assert!(r.is_finished());
    r.feed(b"trailing bytes are never read");
    let resp = r.outcome().unwrap().unwrap();
    assert_eq!(resp.body, b"hello".to_vec());
    assert_eq!(resp.content_type, b"application/json".to_vec());
}

#[test]
fn zero_length_body_completes_with_the_head() {
    let mut r = ResponseReader::new();
    r.feed(b"HTTP/1.1 204 No Content\r\ncontent-length: 0\r\n\r\n");
    assert!(r.is_finished());
    assert_eq!(r.outcome().unwrap().unwrap().body, Vec::<u8>::new());
}

#[test]
fn chunked_response_is_decoded() {
    let wire = b"HTTP/1.1 200 OK\r\nTransfer-Encoding: Chunked\r\n\r\n3\r\nabc\r\n2\r\nde\r\n0\r\n\r\n";
    let mut r = ResponseReader::new();
    r.feed(wire);
    assert!(r.is_finished());
    assert_eq!(r.outcome().unwrap().unwrap().body, b"abcde".to_vec());
}

#[test]
fn content_length_takes_precedence_over_chunked() {
    let wire = b"HTTP/1.1 200 OK\r\nTransfer-Encoding: chunked\r\nContent-Length: 3\r\n\r\n3\r\nabc";
    assert_eq!(read_response(wire).unwrap().body, b"3\r\n".to_vec());
}

#[test]
fn body_without_framing_runs_to_close() {
    let mut r = ResponseReader::new();
    r.feed(b"HTTP/1.0 200 OK\r\nX-Other: 1\r\n\r\n{\"ok\":true}");
    assert!(!r.is_finished());
    r.close();
    assert_eq!(r.outcome().unwrap().unwrap().body, b"{\"ok\":true}".to_vec());
}

#[test]
fn malformed_status_line_fails_the_call() {
    assert_eq!(read_response(b"garbage\r\n\r\n").unwrap_err(), ResponseError::MalformedStatusLine);
    assert_eq!(read_response(b"HTTP/1.1 two hundred\r\n\r\n").unwrap_err(), ResponseError::InvalidStatusCode);
}

#[test]
fn short_body_is_truncated() {
    let wire = b"HTTP/1.1 200 OK\r\nContent-Length: 10\r\n\r\nabc";
    assert_eq!(read_response(wire).unwrap_err(), ResponseError::Truncated);
}

#[test]
fn bad_chunk_size_fails_the_call() {
    let wire = b"HTTP/1.1 200 OK\r\nTransfer-Encoding: chunked\r\n\r\nxyz\r\n";
    assert_eq!(read_response(wire).unwrap_err(), ResponseError::MalformedChunk);
}

#[test]
fn invalid_content_length_is_ignored() {
    let wire = b"HTTP/1.1 200 OK\r\nContent-Length: many\r\n\r\nall of it";
    assert_eq!(read_response(wire).unwrap().body, b"all of it".to_vec());
}
