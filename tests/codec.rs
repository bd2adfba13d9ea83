use hecate_web::chunked::{decode_chunked, encode_chunk, BadSize, BodyEnd, ChunkPhase, ChunkedDecoder};
use hecate_web::sse::{SseDecoder, SseFrame};

fn frames(v: &[SseFrame]) -> Vec<(String, String)> {
    v.iter()
        .map(|f| (String::from_utf8(f.event_type.clone()).unwrap(), String::from_utf8(f.data.clone()).unwrap()))
        .collect()
}

#[test]
fn chunked_body_decodes_to_its_payloads() {
    let body = b"5\r\nhello\r\n6\r\n world\r\n0\r\n\r\n";
    assert_eq!(decode_chunked(body), Ok(b"hello world".to_vec()));
}

#[test]
fn encoded_chunks_decode_back_to_the_same_bytes() {
    let pieces: [&[u8]; 3] = [b"{\"a\":1}", b"x", &[0u8, 10, 13, 255, 48]];
    let mut wire = Vec::new();
    let mut joined = Vec::new();
    for p in pieces.iter() {
        wire.extend_from_slice(&encode_chunk(p));
        joined.extend_from_slice(p);
    }
    wire.extend_from_slice(b"0\r\n\r\n");
    assert_eq!(decode_chunked(&wire), Ok(joined));
}

#[test]
fn encode_chunk_writes_hex_size() {
    let payload = vec![b'a'; 26];
    let enc = encode_chunk(&payload);
    assert_eq!(&enc[..4], b"1a\r\n");
    assert_eq!(&enc[enc.len() - 2..], b"\r\n");
    assert_eq!(enc.len(), 4 + 26 + 2);
}

#[test]
fn uppercase_hex_and_padding_are_accepted() {
    assert_eq!(decode_chunked(b" A \r\n0123456789\r\n0\r\n"), Ok(b"0123456789".to_vec()));
}

#[test]
fn malformed_size_fails_strict_decoding() {
    assert_eq!(decode_chunked(b"zz\r\nhello\r\n0\r\n\r\n"), Err(BodyEnd::Malformed));
}

#[test]
fn body_cut_inside_a_chunk_is_truncated() {
    assert_eq!(decode_chunked(b"5\r\nhel"), Err(BodyEnd::Truncated));
}

#[test]
fn body_without_terminal_chunk_is_malformed() {
    assert_eq!(decode_chunked(b"5\r\nhello\r\n"), Err(BodyEnd::Malformed));
}

#[test]
fn lenient_decoder_skips_heartbeat_lines() {
    let mut d = ChunkedDecoder::new(BadSize::Skip);
    let out = d.feed(b": ping\r\n5\r\nhello\r\n\r\n0\r\n");
    assert_eq!(out, b"hello".to_vec());
    assert!(d.is_complete());
    assert_eq!(d.phase(), ChunkPhase::End);
}

#[test]
fn stopping_decoder_ends_at_a_bad_line() {
    let mut d = ChunkedDecoder::new(BadSize::Stop);
    let out = d.feed(b"3\r\nabc\r\nnope\r\n3\r\ndef\r\n");
    assert_eq!(out, b"abc".to_vec());
    assert!(d.is_complete());
}

#[test]
fn decoder_state_at_eof() {
    let mut d = ChunkedDecoder::new(BadSize::Skip);
    d.feed(b"3\r\nab");
    assert_eq!(d.at_eof(), BodyEnd::Truncated);
    let mut e = ChunkedDecoder::new(BadSize::Skip);
    e.feed(b"3\r\nabc\r\n");
    assert_eq!(e.at_eof(), BodyEnd::Complete);
    let mut f = ChunkedDecoder::new(BadSize::Fail);
    f.feed(b"3\r\nabc\r\n");
    assert_eq!(f.at_eof(), BodyEnd::Malformed);
}

#[test]
fn chunk_split_across_feeds_decodes_the_same() {
    let wire = b"5\r\nab\ncd\r\n3\r\nxyz\r\n0\r\n\r\n";
    let mut whole = ChunkedDecoder::new(BadSize::Fail);
    let all = whole.feed(wire);
    let mut parts = ChunkedDecoder::new(BadSize::Fail);
    let mut got = Vec::new();
    for b in wire.iter() {
        got.extend(parts.feed(&[*b]));
    }
    assert_eq!(all, got);
    assert_eq!(got, b"ab\ncdxyz".to_vec());
}

#[test]
fn sse_dispatches_on_blank_line() {
    let mut d = SseDecoder::new();
    let out = d.feed(b"event: update\ndata: {\"x\":1}\n\n");
    assert_eq!(frames(&out), vec![("update".to_string(), "{\"x\":1}".to_string())]);
}

#[test]
fn sse_split_at_every_byte_gives_the_same_frames() {
    let stream = b": hi\r\nevent:a\r\ndata: 1\r\n\r\ndata:2 \r\n\r\nevent: b\n\ndata: 3\n\n";
    let mut one = SseDecoder::new();
    let all = frames(&one.feed(stream));
    for cut in 0..stream.len() {
        let mut d = SseDecoder::new();
        let mut got = d.feed(&stream[..cut]);
        got.extend(d.feed(&stream[cut..]));
        assert_eq!(frames(&got), all);
    }
    let mut bytewise = SseDecoder::new();
    let mut got = Vec::new();
    for b in stream.iter() {
        got.extend(bytewise.feed(&[*b]));
    }
    assert_eq!(frames(&got), all);
    assert_eq!(
        all,
        vec![
            ("a".to_string(), "1".to_string()),
            ("".to_string(), "2".to_string()),
            ("".to_string(), "3".to_string()),
        ]
    );
}

#[test]
fn sse_last_data_line_wins() {
    let mut d = SseDecoder::new();
    let out = d.feed(b"data: one\ndata: two\n\n");
    assert_eq!(frames(&out), vec![("".to_string(), "two".to_string())]);
}

#[test]
fn sse_data_with_space_keeps_value_verbatim() {
    let mut d = SseDecoder::new();
    let out = d.feed(b"data:  padded \n\ndata:  trimmed \r\n\r\n");
    assert_eq!(frames(&out)[0].1, " padded ");
    let mut e = SseDecoder::new();
    let out = e.feed(b"data:x \n\n");
    assert_eq!(frames(&out)[0].1, "x");
}

#[test]
fn sse_comments_and_unknown_lines_change_nothing() {
    let mut d = SseDecoder::new();
    let out = d.feed(b": keepalive\nid: 7\nretry: 10\n\n");
    assert!(out.is_empty());
}

#[test]
fn sse_blank_line_without_data_clears_event_type() {
    let mut d = SseDecoder::new();
    let out = d.feed(b"event: lost\n\ndata: 5\n\n");
    assert_eq!(frames(&out), vec![("".to_string(), "5".to_string())]);
}

#[test]
fn sse_unfinished_line_waits_for_more() {
    let mut d = SseDecoder::new();
    assert!(d.feed(b"data: {\"a\"").is_empty());
    let out = d.feed(b":2}\n\n");
    assert_eq!(frames(&out), vec![("".to_string(), "{\"a\":2}".to_string())]);
}
