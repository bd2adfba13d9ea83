//! Server-Sent-Events decoding: bytes in, complete `(event type, data)` frames out.
//!
//! Bytes are split into lines at line feeds (trailing carriage returns are
//! dropped); an unfinished line waits for the next call. Per line:
//! an empty line dispatches the pending data (with the pending event type, or
//! an empty one) and clears both; a line that starts with `:` is a comment;
//! `event:` sets the pending event type (trimmed); `data: ` sets the pending
//! data verbatim and `data:` sets it trimmed, the last such line winning;
//! anything else is ignored.
use vstd::prelude::*;
use crate::bytes::{copy_range, has_prefix, starts_with, strip_cr, trim, trimmed, without_cr};
use crate::chunked::joined;

verus! {

/// A dispatched event, as values.
pub struct FrameModel {
    pub event_type: Seq<u8>,
    pub data: Seq<u8>,
}

/// A dispatched event.
#[derive(Debug)]
pub struct SseFrame {
    pub event_type: Vec<u8>,
    pub data: Vec<u8>,
}

impl View for SseFrame {
    type V = FrameModel;

    open spec fn view(&self) -> FrameModel {
        FrameModel { event_type: self.event_type@, data: self.data@ }
    }
}

pub open spec fn frames_view(v: Seq<SseFrame>) -> Seq<FrameModel> {
    v.map_values(|f: SseFrame| f@)
}

/// The decoder's state: the unfinished line and the pending fields.
pub struct SseState {
    pub line: Seq<u8>,
    pub event: Option<Seq<u8>>,
    pub data: Option<Seq<u8>>,
}

pub open spec fn initial_sse() -> SseState {
    SseState { line: Seq::empty(), event: None, data: None }
}

/// `event:`
pub open spec fn event_tag() -> Seq<u8> {
    seq![101u8, 118u8, 101u8, 110u8, 116u8, 58u8]
}

/// `data:`
pub open spec fn data_tag() -> Seq<u8> {
    seq![100u8, 97u8, 116u8, 97u8, 58u8]
}

/// `data: `
pub open spec fn data_space_tag() -> Seq<u8> {
    seq![100u8, 97u8, 116u8, 97u8, 58u8, 32u8]
}

/// The effect of one complete line (without its line feed) on the pending
/// fields, and the frame it dispatches, if any.
pub open spec fn sse_line(
    event: Option<Seq<u8>>,
    data: Option<Seq<u8>>,
    raw: Seq<u8>,
) -> (Option<Seq<u8>>, Option<Seq<u8>>, Option<FrameModel>) {
    let line = strip_cr(raw);
    if line.len() == 0 {
        match data {
            Some(d) => (
                None,
                None,
                Some(
                    FrameModel {
                        event_type: match event {
                            Some(e) => e,
                            None => Seq::empty(),
                        },
                        data: d,
                    },
                ),
            ),
            None => (None, None, None),
        }
    } else if line[0] == 58u8 {
        (event, data, None)
    } else if has_prefix(line, event_tag()) {
        (Some(trim(line.subrange(6, line.len() as int))), data, None)
    } else if has_prefix(line, data_space_tag()) {
        (event, Some(line.subrange(6, line.len() as int)), None)
    } else if has_prefix(line, data_tag()) {
        (event, Some(trim(line.subrange(5, line.len() as int))), None)
    } else {
        (event, data, None)
    }
}

pub open spec fn opt_frame(f: Option<FrameModel>) -> Seq<FrameModel> {
    match f {
        Some(x) => seq![x],
        None => Seq::empty(),
    }
}

/// One byte of input: the next state and the frame it dispatches, if any.
pub open spec fn sse_step(st: SseState, b: u8) -> (SseState, Option<FrameModel>) {
    if b == 10u8 {
        let (e, d, f) = sse_line(st.event, st.data, st.line);
        (SseState { line: Seq::empty(), event: e, data: d }, f)
    } else {
        (SseState { line: st.line.push(b), event: st.event, data: st.data }, None)
    }
}

/// The state after `input`, and the frames it dispatches in order.
pub open spec fn sse_run(st: SseState, input: Seq<u8>) -> (SseState, Seq<FrameModel>)
    decreases input.len(),
{
    if input.len() == 0 {
        (st, Seq::empty())
    } else {
        let (mid, out) = sse_run(st, input.drop_last());
        let (next, f) = sse_step(mid, input.last());
        (next, out + opt_frame(f))
    }
}

/// Feeding `pieces` one call after another: the final state and all frames.
pub open spec fn sse_feed_all(st: SseState, pieces: Seq<Seq<u8>>) -> (SseState, Seq<FrameModel>)
    decreases pieces.len(),
{
    if pieces.len() == 0 {
        (st, Seq::empty())
    } else {
        let (mid, out) = sse_run(st, pieces[0]);
        let (last, rest) = sse_feed_all(mid, pieces.drop_first());
        (last, out + rest)
    }
}

/// Feeding `a` then `b` is feeding `a + b`.
pub proof fn lemma_sse_run_append(st: SseState, a: Seq<u8>, b: Seq<u8>)
    ensures
        sse_run(st, a + b) == (
            sse_run(sse_run(st, a).0, b).0,
            sse_run(st, a).1 + sse_run(sse_run(st, a).0, b).1,
        ),
    decreases b.len(),
{
    if b.len() == 0 {
        assert(a + b =~= a);
        assert(sse_run(st, a).1 + Seq::<FrameModel>::empty() =~= sse_run(st, a).1);
    } else {
        assert((a + b).drop_last() =~= a + b.drop_last());
        assert((a + b).last() == b.last());
        lemma_sse_run_append(st, a, b.drop_last());
        let m = sse_run(st, a);
        let r = sse_run(m.0, b.drop_last());
        let s = sse_step(r.0, b.last());
        assert(m.1 + r.1 + opt_frame(s.1) =~= m.1 + (r.1 + opt_frame(s.1)));
    }
}

/// However a byte stream is split across calls, the decoder dispatches the
/// same frames, in the same order, and ends in the same state as when the
/// whole stream is fed in one call.
pub proof fn lemma_sse_split_independent(st: SseState, pieces: Seq<Seq<u8>>)
    ensures
        sse_feed_all(st, pieces) == sse_run(st, joined(pieces)),
    decreases pieces.len(),
{
    if pieces.len() == 0 {
        assert(sse_run(st, Seq::<u8>::empty()) == (st, Seq::<FrameModel>::empty()));
    } else {
        let mid = sse_run(st, pieces[0]).0;
        lemma_sse_split_independent(mid, pieces.drop_first());
        lemma_sse_run_append(st, pieces[0], joined(pieces.drop_first()));
    }
}

/// An incremental SSE decoder.
pub struct SseDecoder {
    line: Vec<u8>,
    event: Option<Vec<u8>>,
    data: Option<Vec<u8>>,
}

pub open spec fn opt_view(o: Option<Vec<u8>>) -> Option<Seq<u8>> {
    match o {
        Some(v) => Some(v@),
        None => None,
    }
}

impl View for SseDecoder {
    type V = SseState;

    closed spec fn view(&self) -> SseState {
        SseState { line: self.line@, event: opt_view(self.event), data: opt_view(self.data) }
    }
}

fn tail_from(line: &[u8], from: usize) -> (r: Vec<u8>)
    requires
        from <= line@.len(),
    ensures
        r@ == line@.subrange(from as int, line@.len() as int),
{
    copy_range(line, from, line.len())
}

impl SseDecoder {
    pub fn new() -> (r: SseDecoder)
        ensures
            r@ == initial_sse(),
    {
        SseDecoder { line: Vec::new(), event: None, data: None }
    }

    /// Applies the line collected so far, which is now complete.
    fn apply_line(&mut self) -> (r: Option<SseFrame>)
        ensures
            ({
                let (e, d, f) = sse_line(old(self)@.event, old(self)@.data, old(self)@.line);
                &&& final(self)@.event == e
                &&& final(self)@.data == d
                &&& final(self)@.line == Seq::<u8>::empty()
                &&& f == match r {
                    Some(x) => Some(x@),
                    None => None::<FrameModel>,
                }
            }),
    {
        let line = without_cr(self.line.as_slice());
        self.line = Vec::new();
        let ev_arr: [u8; 6] = [101u8, 118u8, 101u8, 110u8, 116u8, 58u8];
        let ds_arr: [u8; 6] = [100u8, 97u8, 116u8, 97u8, 58u8, 32u8];
        let dt_arr: [u8; 5] = [100u8, 97u8, 116u8, 97u8, 58u8];
        let es: &[u8] = &ev_arr;
        let ds: &[u8] = &ds_arr;
        let dt: &[u8] = &dt_arr;
        assert(es@ == event_tag());
        assert(ds@ == data_space_tag());
        assert(dt@ == data_tag());
        if line.len() == 0 {
            let pending = self.data.take();
            let ev = self.event.take();
            match pending {
                Some(d) => {
                    let e = match ev {
                        Some(e) => e,
                        None => Vec::new(),
                    };
                    Some(SseFrame { event_type: e, data: d })
                },
                None => None,
            }
        } else if line[0] == 58u8 {
            None
        } else if starts_with(line.as_slice(), es) {
            let rest = tail_from(line.as_slice(), 6);
            self.event = Some(trimmed(rest.as_slice()));
            None
        } else if starts_with(line.as_slice(), ds) {
            self.data = Some(tail_from(line.as_slice(), 6));
            None
        } else if starts_with(line.as_slice(), dt) {
            let rest = tail_from(line.as_slice(), 5);
            self.data = Some(trimmed(rest.as_slice()));
            None
        } else {
            None
        }
    }

    /// Consumes one byte; returns the frame it completes, if any.
    pub fn step(&mut self, b: u8) -> (r: Option<SseFrame>)
        ensures
            sse_step(old(self)@, b) == (
                final(self)@,
                match r {
                    Some(x) => Some(x@),
                    None => None::<FrameModel>,
                },
            ),
    {
        if b == 10u8 {
            self.apply_line()
        } else {
            self.line.push(b);
            None
        }
    }

    /// Consumes `input`; returns the frames it completes, in order.
    pub fn feed(&mut self, input: &[u8]) -> (r: Vec<SseFrame>)
        ensures
            sse_run(old(self)@, input@) == (final(self)@, frames_view(r@)),
    {
        let mut out: Vec<SseFrame> = Vec::new();
        let mut k: usize = 0;
        while k < input.len()
            invariant
                k <= input@.len(),
                sse_run(old(self)@, input@.subrange(0, k as int)) == (self@, frames_view(out@)),
            decreases input@.len() - k,
        {
            assert(input@.subrange(0, k + 1).drop_last() =~= input@.subrange(0, k as int));
            let ghost before = out@;
            match self.step(input[k]) {
                Some(f) => {
                    out.push(f);
                },
                None => {},
            }
            k = k + 1;
            assert(frames_view(out@) =~= sse_run(old(self)@, input@.subrange(0, k as int)).1);
        }
        assert(input@.subrange(0, k as int) =~= input@);
        out
    }
}

} // verus!
