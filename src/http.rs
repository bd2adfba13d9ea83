//! HTTP/1.1 over a local socket: the request head, the status line, the
//! response head, and a reader that frames a complete response by
//! `Content-Length`, chunked transfer-encoding, or the closing of the connection.
use vstd::prelude::*;
use vstd::string::StringSliceAdditionalSpecFns;
use crate::bytes::{
    contains_ascii_ignore_case, contains_ignore_case, copy_range, eq_ignore_ascii_case,
    eq_ignore_case, is_space, parse_unsigned, parse_usize, push_decimal, decimal_of, trim,
    trim_bounds, trimmed,
};

verus! {

/// Why a response could not be read.
#[derive(Clone, Copy, PartialEq, Eq, Structural, Debug)]
pub enum ResponseError {
    /// The status line has fewer than two words.
    MalformedStatusLine,
    /// The status line's second word is not a number from 0 to 65535.
    InvalidStatusCode,
    /// The connection closed before the body was complete.
    Truncated,
    /// A chunk size line is not a hexadecimal number.
    MalformedChunk,
}

/// Words separated by ASCII whitespace: the finished ones, and the one being read.
pub open spec fn words_scan(s: Seq<u8>) -> (Seq<Seq<u8>>, Seq<u8>)
    decreases s.len(),
{
    if s.len() == 0 {
        (Seq::empty(), Seq::empty())
    } else {
        let (done, cur) = words_scan(s.drop_last());
        let b = s.last();
        if is_space(b) {
            if cur.len() > 0 {
                (done.push(cur), Seq::empty())
            } else {
                (done, Seq::empty())
            }
        } else {
            (done, cur.push(b))
        }
    }
}

/// The words of `s`, as `split_whitespace` gives them for ASCII text.
pub open spec fn words(s: Seq<u8>) -> Seq<Seq<u8>> {
    let (done, cur) = words_scan(s);
    if cur.len() > 0 {
        done.push(cur)
    } else {
        done
    }
}

/// The status code of a status line such as `HTTP/1.1 200 OK`.
pub open spec fn status_of(line: Seq<u8>) -> Result<u16, ResponseError> {
    let w = words(line);
    if w.len() < 2 {
        Err(ResponseError::MalformedStatusLine)
    } else {
        match parse_unsigned(w[1], 10, 65535) {
            Some(v) => Ok(v as u16),
            None => Err(ResponseError::InvalidStatusCode),
        }
    }
}

/// The status code of a status line, or 500 where it has none.
pub open spec fn status_or_500(line: Seq<u8>) -> u16 {
    match status_of(line) {
        Ok(v) => v,
        Err(_) => 500,
    }
}

/// The second word of `s`.
fn second_word(s: &[u8]) -> (r: Option<Vec<u8>>)
    ensures
        r matches Some(w) ==> words(s@).len() >= 2 && w@ == words(s@)[1],
        r is None ==> words(s@).len() < 2,
{
    let mut count: usize = 0;
    let mut cur: Vec<u8> = Vec::new();
    let mut second: Option<Vec<u8>> = None;
    let ghost mut done: Seq<Seq<u8>> = Seq::empty();
    let mut k: usize = 0;
    while k < s.len()
        invariant
            k <= s@.len(),
            words_scan(s@.subrange(0, k as int)) == (done, cur@),
            count == done.len(),
            count <= k,
            second matches Some(w) ==> done.len() >= 2 && w@ == done[1],
            second is None ==> done.len() < 2,
        decreases s@.len() - k,
    {
        assert(s@.subrange(0, k + 1).drop_last() =~= s@.subrange(0, k as int));
        let b = s[k];
        if b == 32u8 || (9u8 <= b && b <= 13u8) {
            if cur.len() > 0 {
                proof {
                    done = done.push(cur@);
                }
                if count == 1 {
                    second = Some(cur);
                }
                cur = Vec::new();
                count = count + 1;
            }
        } else {
            cur.push(b);
        }
        k = k + 1;
    }
    assert(s@.subrange(0, k as int) =~= s@);
    if second.is_some() {
        second
    } else if count == 1 && cur.len() > 0 {
        Some(cur)
    } else {
        None
    }
}

proof fn lemma_u16_bound(w: Seq<u8>)
    ensures
        parse_unsigned(w, 10, usize::MAX as int) matches Some(v) ==> (v <= 65535 <==> parse_unsigned(w, 10, 65535) == Some(v)),
        parse_unsigned(w, 10, usize::MAX as int) is None ==> parse_unsigned(w, 10, 65535) is None,
{
}

/// The status code of a status line; an error where there is none.
pub fn parse_status_code(line: &[u8]) -> (r: Result<u16, ResponseError>)
    ensures
        r == status_of(line@),
{
    match second_word(line) {
        None => Err(ResponseError::MalformedStatusLine),
        Some(w) => {
            proof {
                lemma_u16_bound(w@);
            }
            match parse_usize(w.as_slice(), 10) {
                Some(v) => if v <= 65535 {
                    Ok(v as u16)
                } else {
                    Err(ResponseError::InvalidStatusCode)
                },
                None => Err(ResponseError::InvalidStatusCode),
            }
        },
    }
}

/// The status code of a status line, or 500 where it has none.
pub fn parse_status(line: &[u8]) -> (r: u16)
    ensures
        r == status_or_500(line@),
{
    match parse_status_code(line) {
        Ok(v) => v,
        Err(_) => 500,
    }
}

/// What has been read of a response head.
pub struct HeadModel {
    /// The unfinished line.
    pub line: Seq<u8>,
    /// The status line, once complete.
    pub status_line: Option<Seq<u8>>,
    pub content_type: Option<Seq<u8>>,
    pub content_length: Option<usize>,
    pub chunked: bool,
    /// The blank line that ends the head was read.
    pub complete: bool,
}

pub open spec fn empty_head() -> HeadModel {
    HeadModel {
        line: Seq::empty(),
        status_line: None,
        content_type: None,
        content_length: None,
        chunked: false,
        complete: false,
    }
}

/// `i` is the position of the first colon in `s`.
pub open spec fn first_colon(s: Seq<u8>, i: int) -> bool {
    0 <= i < s.len() && s[i] == 58u8 && forall|t: int| 0 <= t < i ==> s[t] != 58u8
}

/// The effect of one header line: `Content-Type`, `Content-Length` and
/// `Transfer-Encoding` are recorded (names in any case, values trimmed, a
/// `Content-Length` that is not a number recorded as absent); other lines change nothing.
pub open spec fn header_line(h: HeadModel, line: Seq<u8>) -> HeadModel {
    let t = trim(line);
    if exists|i: int| first_colon(t, i) {
        let i = choose|i: int| first_colon(t, i);
        let key = trim(t.subrange(0, i));
        let value = trim(t.subrange(i + 1, t.len() as int));
        if eq_ignore_case(key, "content-type".spec_bytes()) {
            HeadModel { content_type: Some(value), ..h }
        } else if eq_ignore_case(key, "content-length".spec_bytes()) {
            HeadModel {
                content_length: match parse_unsigned(value, 10, usize::MAX as int) {
                    Some(n) => Some(n as usize),
                    None => None,
                },
                ..h
            }
        } else if eq_ignore_case(key, "transfer-encoding".spec_bytes()) {
            HeadModel { chunked: contains_ignore_case(value, "chunked".spec_bytes()), ..h }
        } else {
            h
        }
    } else {
        h
    }
}

/// The effect of one complete line of the head: the status line first, then
/// header lines up to a line that is blank once trimmed.
pub open spec fn head_line(h: HeadModel, line: Seq<u8>) -> HeadModel {
    if h.status_line is None {
        HeadModel { status_line: Some(line), line: Seq::empty(), ..h }
    } else if trim(line).len() == 0 {
        HeadModel { complete: true, line: Seq::empty(), ..h }
    } else {
        HeadModel { line: Seq::empty(), ..header_line(h, line) }
    }
}

/// One byte of the head.
pub open spec fn head_step(h: HeadModel, b: u8) -> HeadModel {
    if h.complete {
        h
    } else if b == 10u8 {
        head_line(h, h.line)
    } else {
        HeadModel { line: h.line.push(b), ..h }
    }
}

/// The head when the connection closes: an unfinished line counts as a line,
/// and the head ends there.
pub open spec fn head_eof(h: HeadModel) -> HeadModel {
    if h.complete {
        h
    } else {
        let h2 = if h.line.len() > 0 || h.status_line is None {
            head_line(h, h.line)
        } else {
            h
        };
        HeadModel { complete: true, line: Seq::empty(), ..h2 }
    }
}

/// An incremental reader of a response head.
pub struct ResponseHead {
    line: Vec<u8>,
    status_line: Option<Vec<u8>>,
    content_type: Option<Vec<u8>>,
    content_length: Option<usize>,
    chunked: bool,
    complete: bool,
}

pub open spec fn opt_bytes(o: Option<Vec<u8>>) -> Option<Seq<u8>> {
    match o {
        Some(v) => Some(v@),
        None => None,
    }
}

impl View for ResponseHead {
    type V = HeadModel;

    closed spec fn view(&self) -> HeadModel {
        HeadModel {
            line: self.line@,
            status_line: opt_bytes(self.status_line),
            content_type: opt_bytes(self.content_type),
            content_length: self.content_length,
            chunked: self.chunked,
            complete: self.complete,
        }
    }
}

/// The position of the first colon in `s`, if any.
fn find_colon(s: &[u8]) -> (r: Option<usize>)
    ensures
        r matches Some(i) ==> first_colon(s@, i as int),
        r is None ==> !exists|i: int| first_colon(s@, i),
{
    let mut k: usize = 0;
    while k < s.len()
        invariant
            k <= s@.len(),
            forall|t: int| 0 <= t < k ==> s@[t] != 58u8,
        decreases s@.len() - k,
    {
        if s[k] == 58u8 {
            return Some(k);
        }
        k = k + 1;
    }
    None
}

impl ResponseHead {
    pub fn new() -> (r: ResponseHead)
        ensures
            r@ == empty_head(),
    {
        ResponseHead {
            line: Vec::new(),
            status_line: None,
            content_type: None,
            content_length: None,
            chunked: false,
            complete: false,
        }
    }

    fn apply_header(&mut self, line: &[u8])
        ensures
            final(self)@ == header_line(old(self)@, line@),
    {
        let t = trimmed(line);
        let tl = t.len();
        match find_colon(t.as_slice()) {
            None => {},
            Some(i) => {
                proof {
                    assert forall|j: int| first_colon(t@, j) implies j == i by {
                        if j < i {
                            assert(t@[j] != 58u8);
                        } else if j > i {
                            assert(t@[i as int] != 58u8);
                        }
                    }
                }
                assert(i < tl);
                let key = trimmed(copy_range(t.as_slice(), 0, i).as_slice());
                let value = trimmed(copy_range(t.as_slice(), i + 1, tl).as_slice());
                if eq_ignore_ascii_case(key.as_slice(), "content-type".as_bytes()) {
                    self.content_type = Some(value);
                } else if eq_ignore_ascii_case(key.as_slice(), "content-length".as_bytes()) {
                    self.content_length = parse_usize(value.as_slice(), 10);
                } else if eq_ignore_ascii_case(key.as_slice(), "transfer-encoding".as_bytes()) {
                    self.chunked = contains_ascii_ignore_case(value.as_slice(), "chunked".as_bytes());
                }
            },
        }
    }

    fn apply_line(&mut self)
        ensures
            final(self)@ == head_line(old(self)@, old(self)@.line),
    {
        let line = copy_range(self.line.as_slice(), 0, self.line.len());
        assert(line@ =~= self.line@);
        self.line = Vec::new();
        if self.status_line.is_none() {
            self.status_line = Some(line);
        } else {
            let (a, b) = trim_bounds(line.as_slice());
            if a == b {
                self.complete = true;
            } else {
                self.apply_header(line.as_slice());
            }
        }
    }

    /// Consumes one byte of the head.
    pub fn step(&mut self, b: u8)
        ensures
            final(self)@ == head_step(old(self)@, b),
    {
        if self.complete {
        } else if b == 10u8 {
            self.apply_line();
        } else {
            self.line.push(b);
        }
    }

    /// Ends the head because the connection closed.
    pub fn close(&mut self)
        ensures
            final(self)@ == head_eof(old(self)@),
    {
        if !self.complete {
            if self.line.len() > 0 || self.status_line.is_none() {
                self.apply_line();
            }
            self.complete = true;
            self.line = Vec::new();
        }
    }

    pub fn status_line_seen(&self) -> (r: bool)
        ensures
            r == self@.status_line is Some,
    {
        self.status_line.is_some()
    }

    pub fn is_complete(&self) -> (r: bool)
        ensures
            r == self@.complete,
    {
        self.complete
    }

    /// The status line, once read (an empty one where the connection closed first).
    pub fn status_line(&self) -> (r: Vec<u8>)
        ensures
            r@ == match self@.status_line {
                Some(l) => l,
                None => Seq::<u8>::empty(),
            },
    {
        match &self.status_line {
            Some(l) => copy_range(l.as_slice(), 0, l.len()),
            None => Vec::new(),
        }
    }

    pub fn content_type(&self) -> (r: Option<Vec<u8>>)
        ensures
            opt_bytes(r) == self@.content_type,
    {
        match &self.content_type {
            Some(l) => Some(copy_range(l.as_slice(), 0, l.len())),
            None => None,
        }
    }

    pub fn content_length(&self) -> (r: Option<usize>)
        ensures
            r == self@.content_length,
    {
        self.content_length
    }

    pub fn is_chunked(&self) -> (r: bool)
        ensures
            r == self@.chunked,
    {
        self.chunked
    }
}

/// How a response body is delimited.
#[derive(Clone, Copy, PartialEq, Eq, Structural, Debug)]
pub enum Framing {
    /// Exactly this many bytes.
    Length(usize),
    /// Chunked transfer-encoding.
    Chunked,
    /// Everything up to the closing of the connection.
    UntilClose,
}

/// `Content-Length` first, then chunked transfer-encoding, else the closing of the connection.
pub open spec fn framing_of(h: HeadModel) -> Framing {
    match h.content_length {
        Some(n) => Framing::Length(n),
        None => if h.chunked {
            Framing::Chunked
        } else {
            Framing::UntilClose
        },
    }
}

pub fn body_framing(head: &ResponseHead) -> (r: Framing)
    ensures
        r == framing_of(head@),
{
    match head.content_length() {
        Some(n) => Framing::Length(n),
        None => if head.is_chunked() {
            Framing::Chunked
        } else {
            Framing::UntilClose
        },
    }
}

/// A response as the caller receives it.
#[derive(Debug)]
pub struct RawResponse {
    pub status: u16,
    pub content_type: Vec<u8>,
    pub body: Vec<u8>,
}

/// Appends `s` to `out`.
pub fn push_all(out: &mut Vec<u8>, s: &[u8])
    ensures
        final(out)@ == old(out)@ + s@,
{
    let ghost start = out@;
    let mut k: usize = 0;
    while k < s.len()
        invariant
            k <= s@.len(),
            out@ == start + s@.subrange(0, k as int),
        decreases s@.len() - k,
    {
        out.push(s[k]);
        k = k + 1;
        assert(out@ =~= start + s@.subrange(0, k as int));
    }
    assert(s@.subrange(0, k as int) =~= s@);
}

/// The request target: the path, and `?` and the query where the query is not empty.
pub open spec fn target_bytes(path: Seq<u8>, query: Seq<u8>) -> Seq<u8> {
    if query.len() == 0 {
        path
    } else {
        path + "?".spec_bytes() + query
    }
}

/// The head of a request that closes the connection after the response.
pub open spec fn request_head(
    method: Seq<u8>,
    target: Seq<u8>,
    body_len: nat,
    accept: Option<Seq<u8>>,
) -> Seq<u8> {
    method + " ".spec_bytes() + target + " HTTP/1.1\r\nHost: localhost\r\nConnection: close\r\n".spec_bytes()
        + (if body_len > 0 {
        "Content-Type: application/json\r\nContent-Length: ".spec_bytes() + decimal_of(body_len)
            + "\r\n".spec_bytes()
    } else {
        Seq::empty()
    }) + match accept {
        Some(a) => "Accept: ".spec_bytes() + a + "\r\n".spec_bytes(),
        None => Seq::empty(),
    } + "\r\n".spec_bytes()
}

/// The head of a request: request line, `Host`, `Connection: close`, the
/// body's type and length where there is a body, and the forwarded `Accept`.
pub fn build_request(
    method: &str,
    path: &str,
    query: &str,
    body_len: usize,
    accept: Option<&str>,
) -> (r: Vec<u8>)
    ensures
        r@ == request_head(
            method.spec_bytes(),
            target_bytes(path.spec_bytes(), query.spec_bytes()),
            body_len as nat,
            match accept {
                Some(a) => Some(a.spec_bytes()),
                None => None,
            },
        ),
{
    let mut r: Vec<u8> = Vec::new();
    push_all(&mut r, method.as_bytes());
    push_all(&mut r, " ".as_bytes());
    push_all(&mut r, path.as_bytes());
    let ghost target = target_bytes(path.spec_bytes(), query.spec_bytes());
    if query.as_bytes().len() > 0 {
        push_all(&mut r, "?".as_bytes());
        push_all(&mut r, query.as_bytes());
    }
    assert(r@ =~= method.spec_bytes() + " ".spec_bytes() + target);
    push_all(&mut r, " HTTP/1.1\r\nHost: localhost\r\nConnection: close\r\n".as_bytes());
    let ghost a1 = r@;
    if body_len > 0 {
        push_all(&mut r, "Content-Type: application/json\r\nContent-Length: ".as_bytes());
        push_decimal(&mut r, body_len);
        push_all(&mut r, "\r\n".as_bytes());
    }
    let ghost a2 = r@;
    match accept {
        Some(a) => {
            push_all(&mut r, "Accept: ".as_bytes());
            push_all(&mut r, a.as_bytes());
            push_all(&mut r, "\r\n".as_bytes());
        },
        None => {},
    }
    push_all(&mut r, "\r\n".as_bytes());
    assert(r@ =~= request_head(
        method.spec_bytes(),
        target,
        body_len as nat,
        match accept {
            Some(a) => Some(a.spec_bytes()),
            None => None,
        },
    ));
    r
}

/// The head of a request that opens an event stream on `path`.
pub open spec fn stream_request_head(path: Seq<u8>) -> Seq<u8> {
    "GET ".spec_bytes() + path
        + " HTTP/1.1\r\nHost: localhost\r\nAccept: text/event-stream\r\nConnection: keep-alive\r\n\r\n".spec_bytes()
}

/// The head of a `GET` that asks for an event stream and keeps the connection open.
pub fn build_stream_request(path: &str) -> (r: Vec<u8>)
    ensures
        r@ == stream_request_head(path.spec_bytes()),
{
    let mut r: Vec<u8> = Vec::new();
    push_all(&mut r, "GET ".as_bytes());
    push_all(&mut r, path.as_bytes());
    push_all(
        &mut r,
        " HTTP/1.1\r\nHost: localhost\r\nAccept: text/event-stream\r\nConnection: keep-alive\r\n\r\n".as_bytes(),
    );
    r
}

} // verus!
