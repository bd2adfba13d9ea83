//! One long-lived event stream from a daemon: the response head, an error
//! body where the status is 400 or more, otherwise the (possibly chunked) body
//! decoded into SSE frames and turned into events. Every session ends with
//! exactly one terminal event, done or failed, and says nothing after it.
use vstd::prelude::*;
use vstd::string::StringSliceAdditionalSpecFns;
use crate::bytes::{copy_range, decimal_of, push_decimal, same_bytes};
use crate::chunked::{BadSize, BodyEnd, ChunkPhase, ChunkState, ChunkedDecoder, chunk_step, eof_outcome, fresh, opt_seq};
use crate::http::{
    Framing, HeadModel, ResponseHead, body_framing, empty_head, framing_of, head_eof, head_step,
    parse_status, push_all, status_or_500,
};
use crate::sse::{FrameModel, SseDecoder, SseFrame, SseState, initial_sse, sse_step};

verus! {

/// Whether `text` holds exactly one JSON value, with optional whitespace around it.
pub uninterp spec fn is_json(text: Seq<u8>) -> bool;

/// Relies on `serde_json::from_slice` into `serde_json::Value`: it succeeds
/// exactly when the bytes hold one JSON value and nothing but whitespace
/// after it, which depends on the bytes alone.
#[verifier::external_body]
pub(crate) fn json_valid(text: &[u8]) -> (r: bool)
    ensures
        r == is_json(text@),
{
    serde_json::from_slice::<serde_json::Value>(text).is_ok()
}

/// An event of a stream, as values.
pub enum EventModel {
    Message(FrameModel),
    Done,
    Failed(Seq<u8>),
}

/// An event of a stream.
#[derive(Debug)]
pub enum StreamEvent {
    /// A frame whose data is JSON, to be delivered on the stream's chunk channel.
    Message(SseFrame),
    /// The stream ended normally.
    Done,
    /// The stream failed; the description of why.
    Failed(Vec<u8>),
}

impl View for StreamEvent {
    type V = EventModel;

    open spec fn view(&self) -> EventModel {
        match self {
            StreamEvent::Message(f) => EventModel::Message(f@),
            StreamEvent::Done => EventModel::Done,
            StreamEvent::Failed(m) => EventModel::Failed(m@),
        }
    }
}

pub open spec fn events_view(v: Seq<StreamEvent>) -> Seq<EventModel> {
    v.map_values(|e: StreamEvent| e@)
}

pub open spec fn is_terminal(e: EventModel) -> bool {
    e is Done || e is Failed
}

/// Where a session stands.
#[derive(Clone, Copy, PartialEq, Eq, Structural, Debug)]
pub enum StreamPhase {
    /// Reading the response head.
    Head,
    /// Reading the body of a response whose status is 400 or more.
    ErrorBody,
    /// Decoding the event stream.
    Body,
    /// The terminal event was given.
    Finished,
}

/// The abstract state of a session.
pub struct SessionModel {
    pub phase: StreamPhase,
    pub head: HeadModel,
    pub status: u16,
    /// How the error body is delimited.
    pub error_framing: Framing,
    /// Whether the event stream is chunked.
    pub chunked: bool,
    pub policy: BadSize,
    pub chunk: ChunkState,
    pub sse: SseState,
    pub error_body: Seq<u8>,
}

pub open spec fn initial_session() -> SessionModel {
    SessionModel {
        phase: StreamPhase::Head,
        head: empty_head(),
        status: 0,
        error_framing: Framing::UntilClose,
        chunked: false,
        policy: BadSize::Skip,
        chunk: fresh(),
        sse: initial_sse(),
        error_body: Seq::empty(),
    }
}

/// `[DONE]`
pub open spec fn done_marker() -> Seq<u8> {
    "[DONE]".spec_bytes()
}

/// The description of a failed status: `daemon returned <status>: <body>`.
pub open spec fn upstream_message(status: u16, body: Seq<u8>) -> Seq<u8> {
    "daemon returned ".spec_bytes() + decimal_of(status as nat) + ": ".spec_bytes() + body
}

/// The description of a stream that closed inside a chunk.
pub open spec fn truncated_message() -> Seq<u8> {
    "stream ended inside a chunk".spec_bytes()
}

/// The event a dispatched frame gives: done for `[DONE]` or empty data, a
/// message for JSON data, nothing for anything else.
pub open spec fn frame_event(f: FrameModel) -> Option<EventModel> {
    if f.data == done_marker() || f.data.len() == 0 {
        Some(EventModel::Done)
    } else if is_json(f.data) {
        Some(EventModel::Message(f))
    } else {
        None
    }
}

pub open spec fn finish(m: SessionModel) -> SessionModel {
    SessionModel { phase: StreamPhase::Finished, ..m }
}

/// One byte of the event stream itself (after any chunk decoding).
pub open spec fn sse_byte(m: SessionModel, b: u8) -> (SessionModel, Option<EventModel>) {
    let (s, f) = sse_step(m.sse, b);
    let m1 = SessionModel { sse: s, ..m };
    match f {
        Some(frame) => match frame_event(frame) {
            Some(e) => if e is Done {
                (finish(m1), Some(e))
            } else {
                (m1, Some(e))
            },
            None => (m1, None),
        },
        None => (m1, None),
    }
}

/// The session once its head is complete.
pub open spec fn begin_body(m: SessionModel) -> (SessionModel, Option<EventModel>) {
    let status = status_or_500(
        match m.head.status_line {
            Some(l) => l,
            None => Seq::empty(),
        },
    );
    if status >= 400 {
        let f = framing_of(m.head);
        let m1 = SessionModel {
            phase: StreamPhase::ErrorBody,
            status,
            error_framing: f,
            policy: BadSize::Stop,
            chunk: fresh(),
            ..m
        };
        if f == Framing::Length(0) {
            (finish(m1), Some(EventModel::Failed(upstream_message(status, Seq::empty()))))
        } else {
            (m1, None)
        }
    } else {
        (
            SessionModel {
                phase: StreamPhase::Body,
                status,
                chunked: m.head.chunked,
                policy: BadSize::Skip,
                chunk: fresh(),
                ..m
            },
            None,
        )
    }
}

/// One byte of the response.
pub open spec fn session_step(m: SessionModel, b: u8) -> (SessionModel, Option<EventModel>) {
    match m.phase {
        StreamPhase::Head => {
            let h = head_step(m.head, b);
            let m1 = SessionModel { head: h, ..m };
            if h.complete {
                begin_body(m1)
            } else {
                (m1, None)
            }
        },
        StreamPhase::ErrorBody => {
            let (m1, done) = match m.error_framing {
                Framing::Length(n) => {
                    let body = m.error_body.push(b);
                    (SessionModel { error_body: body, ..m }, body.len() >= n)
                },
                Framing::Chunked => {
                    let (c, o) = chunk_step(m.policy, m.chunk, b);
                    (
                        SessionModel { chunk: c, error_body: m.error_body + opt_seq(o), ..m },
                        c.phase is End,
                    )
                },
                Framing::UntilClose => (SessionModel { error_body: m.error_body.push(b), ..m }, false),
            };
            if done {
                (finish(m1), Some(EventModel::Failed(upstream_message(m1.status, m1.error_body))))
            } else {
                (m1, None)
            }
        },
        StreamPhase::Body => {
            if m.chunked {
                let (c, o) = chunk_step(m.policy, m.chunk, b);
                let m1 = SessionModel { chunk: c, ..m };
                if c.phase is End || c.phase is Failed {
                    (finish(m1), Some(EventModel::Done))
                } else {
                    match o {
                        Some(p) => sse_byte(m1, p),
                        None => (m1, None),
                    }
                }
            } else {
                sse_byte(m, b)
            }
        },
        StreamPhase::Finished => (m, None),
    }
}

pub open spec fn opt_event(e: Option<EventModel>) -> Seq<EventModel> {
    match e {
        Some(x) => seq![x],
        None => Seq::empty(),
    }
}

/// The state after `input`, and the events it gives in order.
pub open spec fn session_run(m: SessionModel, input: Seq<u8>) -> (SessionModel, Seq<EventModel>)
    decreases input.len(),
{
    if input.len() == 0 {
        (m, Seq::empty())
    } else {
        let (mid, out) = session_run(m, input.drop_last());
        let (next, e) = session_step(mid, input.last());
        (next, out + opt_event(e))
    }
}

/// The body when the connection closes.
pub open spec fn body_close(m: SessionModel) -> (SessionModel, Option<EventModel>) {
    match m.phase {
        StreamPhase::ErrorBody => (
            finish(m),
            Some(EventModel::Failed(upstream_message(m.status, m.error_body))),
        ),
        StreamPhase::Body => if m.chunked && eof_outcome(m.policy, m.chunk) != BodyEnd::Complete {
            (finish(m), Some(EventModel::Failed(truncated_message())))
        } else {
            (finish(m), Some(EventModel::Done))
        },
        _ => (m, None),
    }
}

/// The session when the connection closes.
pub open spec fn session_close(m: SessionModel) -> (SessionModel, Option<EventModel>) {
    match m.phase {
        StreamPhase::Head => {
            let m1 = SessionModel { head: head_eof(m.head), ..m };
            let (m2, e) = begin_body(m1);
            if e is Some {
                (m2, e)
            } else {
                body_close(m2)
            }
        },
        _ => body_close(m),
    }
}

/// The session when reading fails or the task that runs it faults.
pub open spec fn session_fail(m: SessionModel, why: Seq<u8>) -> (SessionModel, Option<EventModel>) {
    if m.phase is Finished {
        (m, None)
    } else {
        (finish(m), Some(EventModel::Failed(why)))
    }
}

/// What happens to a session: bytes arrive, the connection closes, or reading fails.
pub enum SessionInput {
    Bytes(Seq<u8>),
    Close,
    Fail(Seq<u8>),
}

pub open spec fn session_input(m: SessionModel, i: SessionInput) -> (SessionModel, Seq<EventModel>) {
    match i {
        SessionInput::Bytes(b) => session_run(m, b),
        SessionInput::Close => {
            let (m1, e) = session_close(m);
            (m1, opt_event(e))
        },
        SessionInput::Fail(why) => {
            let (m1, e) = session_fail(m, why);
            (m1, opt_event(e))
        },
    }
}

/// The state after `inputs` in order, and all the events they give.
pub open spec fn session_history(m: SessionModel, inputs: Seq<SessionInput>) -> (SessionModel, Seq<EventModel>)
    decreases inputs.len(),
{
    if inputs.len() == 0 {
        (m, Seq::empty())
    } else {
        let (mid, out) = session_history(m, inputs.drop_last());
        let (next, more) = session_input(mid, inputs.last());
        (next, out + more)
    }
}

/// The number of terminal events in `evs`.
pub open spec fn terminals(evs: Seq<EventModel>) -> nat
    decreases evs.len(),
{
    if evs.len() == 0 {
        0
    } else {
        terminals(evs.drop_last()) + if is_terminal(evs.last()) {
            1nat
        } else {
            0nat
        }
    }
}

/// Events so far agree with the phase: none terminal before the end, exactly
/// one and last once finished.
pub open spec fn consistent(m: SessionModel, evs: Seq<EventModel>) -> bool {
    if m.phase is Finished {
        terminals(evs) == 1 && evs.len() > 0 && is_terminal(evs.last())
    } else {
        terminals(evs) == 0
    }
}

proof fn lemma_terminals_append(a: Seq<EventModel>, b: Seq<EventModel>)
    ensures
        terminals(a + b) == terminals(a) + terminals(b),
    decreases b.len(),
{
    if b.len() == 0 {
        assert(a + b =~= a);
    } else {
        assert((a + b).drop_last() =~= a + b.drop_last());
        lemma_terminals_append(a, b.drop_last());
    }
}

proof fn lemma_one_event(e: EventModel)
    ensures
        terminals(seq![e]) == if is_terminal(e) {
            1nat
        } else {
            0nat
        },
{
    assert(seq![e].drop_last() =~= Seq::<EventModel>::empty());
    assert(seq![e].last() == e);
    assert(terminals(Seq::<EventModel>::empty()) == 0);
}

/// A step gives a terminal event exactly when it finishes the session, and
/// nothing at all once the session is finished.
proof fn lemma_step_shape(m: SessionModel, b: u8)
    ensures
        m.phase is Finished ==> session_step(m, b) == (m, None::<EventModel>),
        !(m.phase is Finished) ==> (match session_step(m, b).1 {
            Some(e) => is_terminal(e) <==> session_step(m, b).0.phase is Finished,
            None => !(session_step(m, b).0.phase is Finished),
        }),
{
}

proof fn lemma_run_consistent(m: SessionModel, evs: Seq<EventModel>, input: Seq<u8>)
    requires
        consistent(m, evs),
    ensures
        consistent(session_run(m, input).0, evs + session_run(m, input).1),
    decreases input.len(),
{
    if input.len() == 0 {
        assert(evs + Seq::<EventModel>::empty() =~= evs);
    } else {
        lemma_run_consistent(m, evs, input.drop_last());
        let (mid, out) = session_run(m, input.drop_last());
        let (next, e) = session_step(mid, input.last());
        lemma_step_shape(mid, input.last());
        let before = evs + out;
        assert(evs + (out + opt_event(e)) =~= before + opt_event(e));
        lemma_terminals_append(before, opt_event(e));
        match e {
            Some(x) => {
                lemma_one_event(x);
                assert((before + opt_event(e)).last() == x);
            },
            None => {
                assert(before + opt_event(e) =~= before);
            },
        }
    }
}

proof fn lemma_input_consistent(m: SessionModel, evs: Seq<EventModel>, i: SessionInput)
    requires
        consistent(m, evs),
    ensures
        consistent(session_input(m, i).0, evs + session_input(m, i).1),
        !(i is Bytes) ==> session_input(m, i).0.phase is Finished,
{
    match i {
        SessionInput::Bytes(b) => {
            lemma_run_consistent(m, evs, b);
        },
        _ => {
            let e = if i is Close {
                session_close(m).1
            } else {
                session_fail(m, i->Fail_0).1
            };
            lemma_terminals_append(evs, opt_event(e));
            match e {
                Some(x) => {
                    lemma_one_event(x);
                    assert((evs + opt_event(e)).last() == x);
                },
                None => {
                    assert(evs + opt_event(e) =~= evs);
                },
            }
        },
    }
}

proof fn lemma_history_consistent(inputs: Seq<SessionInput>)
    ensures
        consistent(session_history(initial_session(), inputs).0, session_history(initial_session(), inputs).1),
        inputs.len() > 0 && !(inputs.last() is Bytes) ==> session_history(initial_session(), inputs).0.phase is Finished,
    decreases inputs.len(),
{
    if inputs.len() == 0 {
    } else {
        lemma_history_consistent(inputs.drop_last());
        let (mid, out) = session_history(initial_session(), inputs.drop_last());
        lemma_input_consistent(mid, out, inputs.last());
    }
}

/// Whatever bytes a stream receives and however they are split, a stream that
/// ends (its connection closes, or reading fails, or its task faults) has
/// given exactly one terminal event, done or failed, and it is the last event.
pub proof fn lemma_exactly_one_terminal(inputs: Seq<SessionInput>)
    requires
        inputs.len() > 0,
        !(inputs.last() is Bytes),
    ensures
        terminals(session_history(initial_session(), inputs).1) == 1,
        is_terminal(session_history(initial_session(), inputs).1.last()),
{
    lemma_history_consistent(inputs);
}

/// A finished session ignores whatever else arrives.
pub proof fn lemma_finished_is_silent(m: SessionModel, input: Seq<u8>)
    requires
        m.phase is Finished,
    ensures
        session_run(m, input) == (m, Seq::<EventModel>::empty()),
    decreases input.len(),
{
    if input.len() > 0 {
        lemma_finished_is_silent(m, input.drop_last());
        assert(Seq::<EventModel>::empty() + opt_event(None) =~= Seq::<EventModel>::empty());
    }
}

/// The byte that the event stream's decoder sees when the session takes `b`:
/// `b` itself, or the payload byte that the chunk decoder yields for it.
pub open spec fn event_byte(m: SessionModel, b: u8) -> Option<u8> {
    if m.chunked {
        let (c, o) = chunk_step(m.policy, m.chunk, b);
        if c.phase is End || c.phase is Failed {
            None
        } else {
            o
        }
    } else {
        Some(b)
    }
}

/// A frame whose data is `[DONE]`, or empty, gives the done event and
/// finishes the stream, which then processes no further bytes; on a chunked
/// stream as on a plain one.
pub proof fn lemma_done_marker_ends(m: SessionModel, b: u8, rest: Seq<u8>)
    requires
        m.phase is Body,
        event_byte(m, b) matches Some(p) && sse_step(m.sse, p).1 matches Some(f) && (f.data == done_marker()
            || f.data.len() == 0),
    ensures
        session_step(m, b).1 == Some(EventModel::Done),
        session_step(m, b).0.phase is Finished,
        session_run(session_step(m, b).0, rest).1 == Seq::<EventModel>::empty(),
{
    lemma_finished_is_silent(session_step(m, b).0, rest);
}

/// A frame whose data is neither a done marker nor JSON is dropped: no event,
/// and the stream goes on, so that later frames are still delivered.
pub proof fn lemma_malformed_frame_skipped(m: SessionModel, b: u8)
    requires
        m.phase is Body,
        event_byte(m, b) matches Some(p) && sse_step(m.sse, p).1 matches Some(f) && f.data != done_marker()
            && f.data.len() > 0 && !is_json(f.data),
    ensures
        session_step(m, b).1 is None,
        session_step(m, b).0.phase is Body,
        session_step(m, b).0.sse == sse_step(m.sse, event_byte(m, b)->Some_0).0,
{
}

/// A frame whose data is JSON is delivered as a message, whatever frames
/// were dropped before it.
pub proof fn lemma_json_frame_delivered(m: SessionModel, b: u8)
    requires
        m.phase is Body,
        event_byte(m, b) matches Some(p) && sse_step(m.sse, p).1 matches Some(f) && f.data != done_marker()
            && f.data.len() > 0 && is_json(f.data),
    ensures
        session_step(m, b).1 == Some(EventModel::Message(sse_step(m.sse, event_byte(m, b)->Some_0).1->Some_0)),
        session_step(m, b).0.phase is Body,
{
}

pub open spec fn event_opt_view(o: Option<StreamEvent>) -> Option<EventModel> {
    match o {
        Some(e) => Some(e@),
        None => None,
    }
}

/// `daemon returned <status>: <body>`
pub fn upstream_error(status: u16, body: &[u8]) -> (r: Vec<u8>)
    ensures
        r@ == upstream_message(status, body@),
{
    let mut r: Vec<u8> = Vec::new();
    push_all(&mut r, "daemon returned ".as_bytes());
    push_decimal(&mut r, status as usize);
    push_all(&mut r, ": ".as_bytes());
    push_all(&mut r, body);
    r
}

/// The event that a dispatched frame gives, if any.
pub fn classify_frame(f: SseFrame) -> (r: Option<StreamEvent>)
    ensures
        event_opt_view(r) == frame_event(f@),
{
    if f.data.len() == 0 || same_bytes(f.data.as_slice(), "[DONE]".as_bytes()) {
        Some(StreamEvent::Done)
    } else if json_valid(f.data.as_slice()) {
        Some(StreamEvent::Message(f))
    } else {
        None
    }
}

/// One event stream, fed the raw bytes of the daemon's response.
pub struct StreamSession {
    phase: StreamPhase,
    head: ResponseHead,
    status: u16,
    error_framing: Framing,
    chunked: bool,
    chunk: ChunkedDecoder,
    sse: SseDecoder,
    error_body: Vec<u8>,
}

impl View for StreamSession {
    type V = SessionModel;

    closed spec fn view(&self) -> SessionModel {
        SessionModel {
            phase: self.phase,
            head: self.head@,
            status: self.status,
            error_framing: self.error_framing,
            chunked: self.chunked,
            policy: self.chunk.spec_policy(),
            chunk: self.chunk@,
            sse: self.sse@,
            error_body: self.error_body@,
        }
    }
}

impl StreamSession {
    pub fn new() -> (r: StreamSession)
        ensures
            r@ == initial_session(),
    {
        StreamSession {
            phase: StreamPhase::Head,
            head: ResponseHead::new(),
            status: 0,
            error_framing: Framing::UntilClose,
            chunked: false,
            chunk: ChunkedDecoder::new(BadSize::Skip),
            sse: SseDecoder::new(),
            error_body: Vec::new(),
        }
    }

    fn begin_body(&mut self) -> (r: Option<StreamEvent>)
        ensures
            (final(self)@, event_opt_view(r)) == begin_body(old(self)@),
    {
        let line = self.head.status_line();
        let status = parse_status(line.as_slice());
        self.status = status;
        if status >= 400 {
            let f = body_framing(&self.head);
            self.phase = StreamPhase::ErrorBody;
            self.error_framing = f;
            self.chunk = ChunkedDecoder::new(BadSize::Stop);
            if f == Framing::Length(0) {
                self.phase = StreamPhase::Finished;
                let empty: Vec<u8> = Vec::new();
                Some(StreamEvent::Failed(upstream_error(status, empty.as_slice())))
            } else {
                None
            }
        } else {
            self.phase = StreamPhase::Body;
            self.chunked = self.head.is_chunked();
            self.chunk = ChunkedDecoder::new(BadSize::Skip);
            None
        }
    }

    fn sse_byte(&mut self, b: u8) -> (r: Option<StreamEvent>)
        ensures
            (final(self)@, event_opt_view(r)) == sse_byte(old(self)@, b),
    {
        match self.sse.step(b) {
            Some(frame) => match classify_frame(frame) {
                Some(e) => {
                    if let StreamEvent::Done = e {
                        self.phase = StreamPhase::Finished;
                    }
                    Some(e)
                },
                None => None,
            },
            None => None,
        }
    }

    fn error_body_step(&mut self, b: u8) -> (r: Option<StreamEvent>)
        requires
            old(self)@.phase is ErrorBody,
        ensures
            (final(self)@, event_opt_view(r)) == session_step(old(self)@, b),
    {
        let done = match self.error_framing {
            Framing::Length(n) => {
                self.error_body.push(b);
                self.error_body.len() >= n
            },
            Framing::Chunked => {
                let o = self.chunk.step(b);
                match o {
                    Some(p) => {
                        self.error_body.push(p);
                    },
                    None => {},
                }
                proof {
                    assert(self.error_body@ =~= old(self)@.error_body + opt_seq(o));
                }
                self.chunk.is_complete()
            },
            Framing::UntilClose => {
                self.error_body.push(b);
                false
            },
        };
        if done {
            self.phase = StreamPhase::Finished;
            Some(StreamEvent::Failed(upstream_error(self.status, self.error_body.as_slice())))
        } else {
            None
        }
    }

    /// Consumes one byte; returns the event it gives, if any.
    pub fn step(&mut self, b: u8) -> (r: Option<StreamEvent>)
        ensures
            (final(self)@, event_opt_view(r)) == session_step(old(self)@, b),
    {
        match self.phase {
            StreamPhase::Head => {
                self.head.step(b);
                if self.head.is_complete() {
                    self.begin_body()
                } else {
                    None
                }
            },
            StreamPhase::ErrorBody => self.error_body_step(b),
            StreamPhase::Body => {
                if self.chunked {
                    let o = self.chunk.step(b);
                    match self.chunk.phase() {
                        ChunkPhase::End => {
                            self.phase = StreamPhase::Finished;
                            Some(StreamEvent::Done)
                        },
                        ChunkPhase::Failed => {
                            self.phase = StreamPhase::Finished;
                            Some(StreamEvent::Done)
                        },
                        _ => match o {
                            Some(p) => self.sse_byte(p),
                            None => None,
                        },
                    }
                } else {
                    self.sse_byte(b)
                }
            },
            StreamPhase::Finished => None,
        }
    }

    /// Consumes bytes of the response; returns the events they give, in order.
    pub fn feed(&mut self, input: &[u8]) -> (r: Vec<StreamEvent>)
        ensures
            session_run(old(self)@, input@) == (final(self)@, events_view(r@)),
    {
        let mut out: Vec<StreamEvent> = Vec::new();
        let mut k: usize = 0;
        while k < input.len()
            invariant
                k <= input@.len(),
                session_run(old(self)@, input@.subrange(0, k as int)) == (self@, events_view(out@)),
            decreases input@.len() - k,
        {
            assert(input@.subrange(0, k + 1).drop_last() =~= input@.subrange(0, k as int));
            match self.step(input[k]) {
                Some(e) => {
                    out.push(e);
                },
                None => {},
            }
            k = k + 1;
            assert(events_view(out@) =~= session_run(old(self)@, input@.subrange(0, k as int)).1);
        }
        assert(input@.subrange(0, k as int) =~= input@);
        out
    }

    fn body_close(&mut self) -> (r: Option<StreamEvent>)
        ensures
            (final(self)@, event_opt_view(r)) == body_close(old(self)@),
    {
        match self.phase {
            StreamPhase::ErrorBody => {
                self.phase = StreamPhase::Finished;
                Some(StreamEvent::Failed(upstream_error(self.status, self.error_body.as_slice())))
            },
            StreamPhase::Body => {
                self.phase = StreamPhase::Finished;
                if self.chunked && self.chunk.at_eof() != BodyEnd::Complete {
                    let m = "stream ended inside a chunk".as_bytes();
                    let v = copy_range(m, 0, m.len());
                    assert(v@ =~= truncated_message());
                    Some(StreamEvent::Failed(v))
                } else {
                    Some(StreamEvent::Done)
                }
            },
            _ => None,
        }
    }

    /// Records that the connection closed; returns the terminal event, unless
    /// one was given before.
    pub fn close(&mut self) -> (r: Option<StreamEvent>)
        ensures
            (final(self)@, event_opt_view(r)) == session_close(old(self)@),
    {
        match self.phase {
            StreamPhase::Head => {
                self.head.close();
                let e = self.begin_body();
                if e.is_some() {
                    e
                } else {
                    self.body_close()
                }
            },
            _ => self.body_close(),
        }
    }

    /// Records that reading failed, or that the task running the session
    /// faulted, for the reason `why`; returns the terminal event, unless one
    /// was given before.
    pub fn fail(&mut self, why: Vec<u8>) -> (r: Option<StreamEvent>)
        ensures
            (final(self)@, event_opt_view(r)) == session_fail(old(self)@, why@),
    {
        match self.phase {
            StreamPhase::Finished => None,
            _ => {
                self.phase = StreamPhase::Finished;
                Some(StreamEvent::Failed(why))
            },
        }
    }

    /// Whether the terminal event was given.
    pub fn is_finished(&self) -> (r: bool)
        ensures
            r == (self@.phase is Finished),
    {
        match self.phase {
            StreamPhase::Finished => true,
            _ => false,
        }
    }
}

} // verus!
