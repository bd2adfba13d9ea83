//! Reading one complete response of a request/response call: status line,
//! head, then the body framed by `Content-Length`, chunked transfer-encoding
//! (strict: a malformed size line is an error), or the closing of the connection.
use vstd::prelude::*;
use crate::bytes::copy_range;
use crate::chunked::{BadSize, BodyEnd, ChunkPhase, ChunkState, ChunkedDecoder, chunk_step, eof_outcome, fresh, opt_seq};
use crate::http::{
    Framing, HeadModel, RawResponse, ResponseError, ResponseHead, body_framing, empty_head,
    framing_of, head_eof, head_step, parse_status_code, status_of,
};
use vstd::string::StringSliceAdditionalSpecFns;

verus! {

/// Where a reader stands.
#[derive(Clone, Copy, PartialEq, Eq, Structural, Debug)]
pub enum ReadPhase {
    Head,
    Body,
    Done,
    Failed(ResponseError),
}

/// The abstract state of a response reader.
pub struct ReaderModel {
    pub phase: ReadPhase,
    pub head: HeadModel,
    pub status: u16,
    pub framing: Framing,
    pub chunk: ChunkState,
    pub body: Seq<u8>,
}

pub open spec fn initial_reader() -> ReaderModel {
    ReaderModel {
        phase: ReadPhase::Head,
        head: empty_head(),
        status: 0,
        framing: Framing::UntilClose,
        chunk: fresh(),
        body: Seq::empty(),
    }
}

/// The reader once the head is complete: the body begins, or is already
/// complete where its length is zero.
pub open spec fn after_head(m: ReaderModel) -> ReaderModel {
    let f = framing_of(m.head);
    ReaderModel {
        phase: if f == Framing::Length(0) {
            ReadPhase::Done
        } else {
            ReadPhase::Body
        },
        framing: f,
        ..m
    }
}

/// The reader once the status line is complete: its code is recorded, or the
/// response fails.
pub open spec fn check_status(m: ReaderModel, line: Seq<u8>) -> ReaderModel {
    match status_of(line) {
        Ok(v) => ReaderModel { status: v, ..m },
        Err(e) => ReaderModel { phase: ReadPhase::Failed(e), ..m },
    }
}

/// One byte of the response.
pub open spec fn reader_step(m: ReaderModel, b: u8) -> ReaderModel {
    match m.phase {
        ReadPhase::Head => {
            let h = head_step(m.head, b);
            let m1 = ReaderModel { head: h, ..m };
            if m.head.status_line is None && h.status_line is Some {
                check_status(m1, h.status_line->Some_0)
            } else if h.complete {
                after_head(m1)
            } else {
                m1
            }
        },
        ReadPhase::Body => match m.framing {
            Framing::Length(n) => {
                let body = m.body.push(b);
                ReaderModel {
                    phase: if body.len() >= n {
                        ReadPhase::Done
                    } else {
                        ReadPhase::Body
                    },
                    body,
                    ..m
                }
            },
            Framing::Chunked => {
                let (c, o) = chunk_step(BadSize::Fail, m.chunk, b);
                ReaderModel {
                    phase: match c.phase {
                        ChunkPhase::End => ReadPhase::Done,
                        ChunkPhase::Failed => ReadPhase::Failed(ResponseError::MalformedChunk),
                        _ => ReadPhase::Body,
                    },
                    chunk: c,
                    body: m.body + opt_seq(o),
                    ..m
                }
            },
            Framing::UntilClose => ReaderModel { body: m.body.push(b), ..m },
        },
        _ => m,
    }
}

pub open spec fn reader_run(m: ReaderModel, input: Seq<u8>) -> ReaderModel
    decreases input.len(),
{
    if input.len() == 0 {
        m
    } else {
        reader_step(reader_run(m, input.drop_last()), input.last())
    }
}

/// The body when the connection closes in state `m`.
pub open spec fn body_at_eof(m: ReaderModel) -> ReaderModel {
    match m.phase {
        ReadPhase::Body => match m.framing {
            Framing::Length(_) => ReaderModel { phase: ReadPhase::Failed(ResponseError::Truncated), ..m },
            Framing::Chunked => ReaderModel {
                phase: match eof_outcome(BadSize::Fail, m.chunk) {
                    BodyEnd::Complete => ReadPhase::Done,
                    BodyEnd::Truncated => ReadPhase::Failed(ResponseError::Truncated),
                    BodyEnd::Malformed => ReadPhase::Failed(ResponseError::MalformedChunk),
                },
                ..m
            },
            Framing::UntilClose => ReaderModel { phase: ReadPhase::Done, ..m },
        },
        _ => m,
    }
}

/// The state when the connection closes in state `m`.
pub open spec fn reader_eof(m: ReaderModel) -> ReaderModel {
    match m.phase {
        ReadPhase::Head => {
            let h = head_eof(m.head);
            let m1 = ReaderModel { head: h, ..m };
            let m2 = if m.head.status_line is None && h.status_line is Some {
                check_status(m1, h.status_line->Some_0)
            } else {
                m1
            };
            if m2.phase == ReadPhase::Head {
                body_at_eof(after_head(m2))
            } else {
                m2
            }
        },
        _ => body_at_eof(m),
    }
}

/// The `Content-Type` of a response: the header's value, or `application/json`.
pub open spec fn content_type_or_json(h: HeadModel) -> Seq<u8> {
    match h.content_type {
        Some(t) => t,
        None => "application/json".spec_bytes(),
    }
}

/// An incremental reader of one response.
pub struct ResponseReader {
    phase: ReadPhase,
    head: ResponseHead,
    status: u16,
    framing: Framing,
    chunk: ChunkedDecoder,
    body: Vec<u8>,
}

impl View for ResponseReader {
    type V = ReaderModel;

    closed spec fn view(&self) -> ReaderModel {
        ReaderModel {
            phase: self.phase,
            head: self.head@,
            status: self.status,
            framing: self.framing,
            chunk: self.chunk@,
            body: self.body@,
        }
    }
}

impl ResponseReader {
    /// The reader's internal invariant: its chunk decoder is strict.
    pub closed spec fn wf(&self) -> bool {
        self.chunk.spec_policy() == BadSize::Fail
    }

    pub fn new() -> (r: ResponseReader)
        ensures
            r.wf(),
            r@ == initial_reader(),
    {
        ResponseReader {
            phase: ReadPhase::Head,
            head: ResponseHead::new(),
            status: 0,
            framing: Framing::UntilClose,
            chunk: ChunkedDecoder::new(BadSize::Fail),
            body: Vec::new(),
        }
    }

    fn check_status(&mut self)
        requires
            old(self)@.head.status_line is Some,
        ensures
            final(self)@ == check_status(old(self)@, old(self)@.head.status_line->Some_0),
            final(self).wf() == old(self).wf(),
    {
        let line = self.head.status_line();
        match parse_status_code(line.as_slice()) {
            Ok(v) => {
                self.status = v;
            },
            Err(e) => {
                self.phase = ReadPhase::Failed(e);
            },
        }
    }

    fn after_head(&mut self)
        ensures
            final(self)@ == after_head(old(self)@),
            final(self).wf() == old(self).wf(),
    {
        let f = body_framing(&self.head);
        self.framing = f;
        self.phase = if f == Framing::Length(0) {
            ReadPhase::Done
        } else {
            ReadPhase::Body
        };
    }

    /// Consumes one byte.
    pub fn step(&mut self, b: u8)
        requires
            old(self).wf(),
        ensures
            final(self).wf(),
            final(self)@ == reader_step(old(self)@, b),
    {
        match self.phase {
            ReadPhase::Head => {
                let had_status = self.head.status_line_seen();
                self.head.step(b);
                if !had_status && self.head.status_line_seen() {
                    self.check_status();
                } else if self.head.is_complete() {
                    self.after_head();
                }
            },
            ReadPhase::Body => match self.framing {
                Framing::Length(n) => {
                    self.body.push(b);
                    if self.body.len() >= n {
                        self.phase = ReadPhase::Done;
                    }
                },
                Framing::Chunked => {
                    let o = self.chunk.step(b);
                    match o {
                        Some(p) => {
                            self.body.push(p);
                        },
                        None => {},
                    }
                    proof {
                        assert(self.body@ =~= old(self)@.body + opt_seq(o));
                    }
                    match self.chunk.phase() {
                        ChunkPhase::End => {
                            self.phase = ReadPhase::Done;
                        },
                        ChunkPhase::Failed => {
                            self.phase = ReadPhase::Failed(ResponseError::MalformedChunk);
                        },
                        _ => {},
                    }
                },
                Framing::UntilClose => {
                    self.body.push(b);
                },
            },
            _ => {},
        }
    }

    /// Consumes `input`.
    pub fn feed(&mut self, input: &[u8])
        requires
            old(self).wf(),
        ensures
            final(self).wf(),
            final(self)@ == reader_run(old(self)@, input@),
    {
        let mut k: usize = 0;
        while k < input.len()
            invariant
                k <= input@.len(),
                self.wf(),
                self@ == reader_run(old(self)@, input@.subrange(0, k as int)),
            decreases input@.len() - k,
        {
            assert(input@.subrange(0, k + 1).drop_last() =~= input@.subrange(0, k as int));
            self.step(input[k]);
            k = k + 1;
        }
        assert(input@.subrange(0, k as int) =~= input@);
    }

    fn body_at_eof(&mut self)
        requires
            old(self).wf(),
        ensures
            final(self).wf(),
            final(self)@ == body_at_eof(old(self)@),
    {
        match self.phase {
            ReadPhase::Body => match self.framing {
                Framing::Length(_) => {
                    self.phase = ReadPhase::Failed(ResponseError::Truncated);
                },
                Framing::Chunked => {
                    self.phase = match self.chunk.at_eof() {
                        BodyEnd::Complete => ReadPhase::Done,
                        BodyEnd::Truncated => ReadPhase::Failed(ResponseError::Truncated),
                        BodyEnd::Malformed => ReadPhase::Failed(ResponseError::MalformedChunk),
                    };
                },
                Framing::UntilClose => {
                    self.phase = ReadPhase::Done;
                },
            },
            _ => {},
        }
    }

    /// Records that the connection closed.
    pub fn close(&mut self)
        requires
            old(self).wf(),
        ensures
            final(self).wf(),
            final(self)@ == reader_eof(old(self)@),
    {
        match self.phase {
            ReadPhase::Head => {
                let had_status = self.head.status_line_seen();
                self.head.close();
                if !had_status && self.head.status_line_seen() {
                    self.check_status();
                }
                if self.phase == ReadPhase::Head {
                    self.after_head();
                    self.body_at_eof();
                }
            },
            _ => {
                self.body_at_eof();
            },
        }
    }

    /// Whether the response is complete or has failed, so that nothing more need be read.
    pub fn is_finished(&self) -> (r: bool)
        ensures
            r == (self@.phase is Done || self@.phase is Failed),
    {
        match self.phase {
            ReadPhase::Done => true,
            ReadPhase::Failed(_) => true,
            _ => false,
        }
    }

    /// The response, once complete; the error, once failed; `None` while more is to come.
    pub fn outcome(&self) -> (r: Option<Result<RawResponse, ResponseError>>)
        ensures
            self@.phase is Done <==> r matches Some(Ok(_)),
            r matches Some(Ok(resp)) ==> (resp.status == self@.status && resp.body@ == self@.body
                && resp.content_type@ == content_type_or_json(self@.head)),
            self@.phase matches ReadPhase::Failed(e) ==> r == Some(Err::<RawResponse, ResponseError>(e)),
            (self@.phase is Head || self@.phase is Body) ==> r is None,
    {
        match self.phase {
            ReadPhase::Done => {
                let ct = match self.head.content_type() {
                    Some(t) => t,
                    None => {
                        let j = "application/json".as_bytes();
                        copy_range(j, 0, j.len())
                    },
                };
                let body = copy_range(self.body.as_slice(), 0, self.body.len());
                Some(Ok(RawResponse { status: self.status, content_type: ct, body }))
            },
            ReadPhase::Failed(e) => Some(Err(e)),
            _ => None,
        }
    }
}

proof fn lemma_length_prefix(m: ReaderModel, body: Seq<u8>, k: int)
    requires
        m.phase is Body,
        m.framing == Framing::Length(body.len() as usize),
        m.body.len() == 0,
        0 < body.len() <= usize::MAX,
        0 <= k <= body.len(),
    ensures
        reader_run(m, body.subrange(0, k)) == (ReaderModel {
            phase: if k == body.len() {
                ReadPhase::Done
            } else {
                ReadPhase::Body
            },
            body: body.subrange(0, k),
            ..m
        }),
    decreases k,
{
    if k == 0 {
        assert(body.subrange(0, 0) =~= Seq::<u8>::empty());
        assert(m.body =~= body.subrange(0, 0));
    } else {
        lemma_length_prefix(m, body, k - 1);
        assert(body.subrange(0, k).drop_last() =~= body.subrange(0, k - 1));
        assert(body.subrange(0, k - 1).push(body[k - 1]) =~= body.subrange(0, k));
    }
}

/// A body of `Content-Length: n` is complete after exactly its `n` bytes,
/// which are the response's body, without waiting for the connection to
/// close; before them, the reader waits for more.
pub proof fn lemma_length_body_completes(m: ReaderModel, body: Seq<u8>)
    requires
        m.phase is Body,
        m.framing == Framing::Length(body.len() as usize),
        m.body.len() == 0,
        0 < body.len() <= usize::MAX,
    ensures
        reader_run(m, body).phase is Done,
        reader_run(m, body).body == body,
        forall|k: int| 0 <= k < body.len() ==> (#[trigger] reader_run(m, body.subrange(0, k))).phase is Body,
{
    lemma_length_prefix(m, body, body.len() as int);
    assert(body.subrange(0, body.len() as int) =~= body);
    assert forall|k: int| 0 <= k < body.len() implies (#[trigger] reader_run(m, body.subrange(0, k))).phase is Body by {
        lemma_length_prefix(m, body, k);
    }
}

pub open spec fn finished(m: ReaderModel) -> bool {
    m.phase is Done || m.phase is Failed
}

/// Closing the connection always settles the response.
pub proof fn lemma_eof_settles(m: ReaderModel)
    ensures
        finished(reader_eof(m)),
{
}

/// The reader's state after a whole response, the connection closing after it
/// where the response is not settled before.
pub open spec fn read_all(input: Seq<u8>) -> ReaderModel {
    let m = reader_run(initial_reader(), input);
    if finished(m) {
        m
    } else {
        reader_eof(m)
    }
}

/// Reads a response held whole in memory.
pub fn read_response(input: &[u8]) -> (r: Result<RawResponse, ResponseError>)
    ensures
        read_all(input@).phase is Done ==> (r matches Ok(resp) && resp.status == read_all(input@).status
            && resp.body@ == read_all(input@).body && resp.content_type@ == content_type_or_json(
            read_all(input@).head,
        )),
        read_all(input@).phase matches ReadPhase::Failed(e) ==> r == Err::<RawResponse, ResponseError>(e),
{
    let mut reader = ResponseReader::new();
    reader.feed(input);
    if !reader.is_finished() {
        reader.close();
    }
    proof {
        lemma_eof_settles(reader_run(initial_reader(), input@));
    }
    match reader.outcome() {
        Some(r) => r,
        None => Err(ResponseError::Truncated),
    }
}

} // verus!
