//! HTTP/1.1 chunked transfer-encoding: an incremental decoder that consumes
//! bytes as they arrive, and the encoder of single chunks.
use vstd::prelude::*;
use crate::bytes::{
    all_digits, digit_in, digits_value, hex_of, hex_char, is_space, parse_unsigned, parse_usize, push_hex, trim,
    trim_end, trim_start, trimmed, unsigned_digits,
};

verus! {

/// What a decoder does with a size line that is not a hexadecimal number.
#[derive(Clone, Copy, PartialEq, Eq, Structural, Debug)]
pub enum BadSize {
    /// The body is malformed.
    Fail,
    /// The line is skipped (heartbeats and stray whitespace on long-lived streams).
    Skip,
    /// The line ends the body, as a zero size would.
    Stop,
}

/// Where a decoder stands in the chunk framing.
#[derive(Clone, Copy, PartialEq, Eq, Structural, Debug)]
pub enum ChunkPhase {
    /// Collecting a size line.
    Size,
    /// This many payload bytes of the current chunk are still to come (never zero).
    Data(usize),
    /// Skipping the line ending that follows a chunk's payload.
    Trailer,
    /// The terminal chunk was seen.
    End,
    /// A size line was malformed under `BadSize::Fail`.
    Failed,
}

/// How a chunked body stands when the connection closes.
#[derive(Clone, Copy, PartialEq, Eq, Structural, Debug)]
pub enum BodyEnd {
    Complete,
    Truncated,
    Malformed,
}

/// The abstract state of a decoder: its phase and the partial size line.
pub struct ChunkState {
    pub phase: ChunkPhase,
    pub line: Seq<u8>,
}

/// The size that a complete size line (without its line feed) announces.
pub open spec fn size_of_line(line: Seq<u8>) -> Option<int> {
    parse_unsigned(trim(line), 16, usize::MAX as int)
}

/// One byte of input: the next state and the payload byte it yields, if any.
pub open spec fn chunk_step(policy: BadSize, st: ChunkState, b: u8) -> (ChunkState, Option<u8>) {
    match st.phase {
        ChunkPhase::Size => {
            if b == 10u8 {
                let next = match size_of_line(st.line) {
                    Some(n) => if n == 0 {
                        ChunkPhase::End
                    } else {
                        ChunkPhase::Data(n as usize)
                    },
                    None => match policy {
                        BadSize::Fail => ChunkPhase::Failed,
                        BadSize::Skip => ChunkPhase::Size,
                        BadSize::Stop => ChunkPhase::End,
                    },
                };
                (ChunkState { phase: next, line: Seq::empty() }, None)
            } else {
                (ChunkState { phase: ChunkPhase::Size, line: st.line.push(b) }, None)
            }
        },
        ChunkPhase::Data(n) => {
            let next = if n <= 1 {
                ChunkPhase::Trailer
            } else {
                ChunkPhase::Data((n - 1) as usize)
            };
            (ChunkState { phase: next, line: st.line }, Some(b))
        },
        ChunkPhase::Trailer => {
            if b == 10u8 {
                (ChunkState { phase: ChunkPhase::Size, line: Seq::empty() }, None)
            } else {
                (st, None)
            }
        },
        _ => (st, None),
    }
}

pub open spec fn opt_seq(o: Option<u8>) -> Seq<u8> {
    match o {
        Some(b) => seq![b],
        None => Seq::empty(),
    }
}

/// The state after `input`, and the payload bytes it yields.
pub open spec fn chunk_run(policy: BadSize, st: ChunkState, input: Seq<u8>) -> (ChunkState, Seq<u8>)
    decreases input.len(),
{
    if input.len() == 0 {
        (st, Seq::empty())
    } else {
        let (mid, out) = chunk_run(policy, st, input.drop_last());
        let (next, b) = chunk_step(policy, mid, input.last());
        (next, out + opt_seq(b))
    }
}

/// How the body stands if the connection closes in state `st`.
pub open spec fn eof_outcome(policy: BadSize, st: ChunkState) -> BodyEnd {
    match st.phase {
        ChunkPhase::End => BodyEnd::Complete,
        ChunkPhase::Failed => BodyEnd::Malformed,
        ChunkPhase::Data(_) => BodyEnd::Truncated,
        _ => {
            let line = if st.phase is Trailer {
                Seq::empty()
            } else {
                st.line
            };
            match size_of_line(line) {
                Some(n) => if n == 0 {
                    BodyEnd::Complete
                } else {
                    BodyEnd::Truncated
                },
                None => if policy == BadSize::Fail {
                    BodyEnd::Malformed
                } else {
                    BodyEnd::Complete
                },
            }
        },
    }
}

pub open spec fn fresh() -> ChunkState {
    ChunkState { phase: ChunkPhase::Size, line: Seq::empty() }
}

/// A chunk as it stands on the wire: size in hex, CRLF, payload, CRLF.
pub open spec fn chunk_wire(c: Seq<u8>) -> Seq<u8> {
    hex_of(c.len()) + seq![13u8, 10u8] + c + seq![13u8, 10u8]
}

/// The terminal chunk and the empty trailer.
pub open spec fn last_chunk_wire() -> Seq<u8> {
    seq![48u8, 13u8, 10u8, 13u8, 10u8]
}

/// A whole chunked body carrying `chunks` in order.
pub open spec fn body_wire(chunks: Seq<Seq<u8>>) -> Seq<u8>
    decreases chunks.len(),
{
    if chunks.len() == 0 {
        last_chunk_wire()
    } else {
        chunk_wire(chunks[0]) + body_wire(chunks.drop_first())
    }
}

/// The payloads of `chunks`, concatenated.
pub open spec fn joined(chunks: Seq<Seq<u8>>) -> Seq<u8>
    decreases chunks.len(),
{
    if chunks.len() == 0 {
        Seq::empty()
    } else {
        chunks[0] + joined(chunks.drop_first())
    }
}

/// Feeding `a` then `b` is feeding `a + b`.
pub proof fn lemma_chunk_run_append(policy: BadSize, st: ChunkState, a: Seq<u8>, b: Seq<u8>)
    ensures
        chunk_run(policy, st, a + b) == (
            chunk_run(policy, chunk_run(policy, st, a).0, b).0,
            chunk_run(policy, st, a).1 + chunk_run(policy, chunk_run(policy, st, a).0, b).1,
        ),
    decreases b.len(),
{
    if b.len() == 0 {
        assert(a + b =~= a);
        assert(chunk_run(policy, st, a).1 + Seq::<u8>::empty() =~= chunk_run(policy, st, a).1);
    } else {
        assert((a + b).drop_last() =~= a + b.drop_last());
        assert((a + b).last() == b.last());
        lemma_chunk_run_append(policy, st, a, b.drop_last());
        let m = chunk_run(policy, st, a);
        let r = chunk_run(policy, m.0, b.drop_last());
        let s = chunk_step(policy, r.0, b.last());
        assert(m.1 + r.1 + opt_seq(s.1) =~= m.1 + (r.1 + opt_seq(s.1)));
    }
}

/// A size line collects bytes up to its line feed.
proof fn lemma_collect_line(policy: BadSize, line: Seq<u8>, s: Seq<u8>)
    requires
        forall|i: int| 0 <= i < s.len() ==> s[i] != 10u8,
    ensures
        chunk_run(policy, ChunkState { phase: ChunkPhase::Size, line }, s) == (
            ChunkState { phase: ChunkPhase::Size, line: line + s },
            Seq::<u8>::empty(),
        ),
    decreases s.len(),
{
    if s.len() == 0 {
        assert(line + s =~= line);
    } else {
        lemma_collect_line(policy, line, s.drop_last());
        assert((line + s.drop_last()).push(s.last()) =~= line + s);
        assert(s.last() == s[s.len() - 1]);
    }
}

/// Payload bytes pass through one for one.
proof fn lemma_pass_data(policy: BadSize, c: Seq<u8>, k: int)
    requires
        0 < c.len() <= usize::MAX,
        0 <= k <= c.len(),
    ensures
        k < c.len() ==> chunk_run(
            policy,
            ChunkState { phase: ChunkPhase::Data(c.len() as usize), line: Seq::empty() },
            c.subrange(0, k),
        ) == (
            ChunkState { phase: ChunkPhase::Data((c.len() - k) as usize), line: Seq::empty() },
            c.subrange(0, k),
        ),
        k == c.len() ==> chunk_run(
            policy,
            ChunkState { phase: ChunkPhase::Data(c.len() as usize), line: Seq::empty() },
            c.subrange(0, k),
        ) == (ChunkState { phase: ChunkPhase::Trailer, line: Seq::empty() }, c.subrange(0, k)),
    decreases k,
{
    if k == 0 {
        assert(c.subrange(0, 0) =~= Seq::<u8>::empty());
    } else {
        lemma_pass_data(policy, c, k - 1);
        assert(c.subrange(0, k).drop_last() =~= c.subrange(0, k - 1));
        assert(c.subrange(0, k - 1) + seq![c[k - 1]] =~= c.subrange(0, k));
    }
}

proof fn lemma_hex_char(d: nat)
    requires
        d < 16,
    ensures
        digit_in(hex_char(d), 16) == d,
        !is_space(hex_char(d)),
        hex_char(d) != 43u8,
        hex_char(d) != 10u8,
{
}

proof fn lemma_hex_of_digits(n: nat)
    ensures
        hex_of(n).len() > 0,
        all_digits(hex_of(n), 16),
        digits_value(hex_of(n), 16) == n,
        !is_space(hex_of(n)[0]),
        !is_space(hex_of(n).last()),
        hex_of(n)[0] != 43u8,
        forall|i: int| 0 <= i < hex_of(n).len() ==> #[trigger] hex_of(n)[i] != 10u8,
    decreases n,
{
    let h = hex_of(n);
    if n >= 16 {
        lemma_hex_of_digits(n / 16);
        lemma_hex_char(n % 16);
        let p = hex_of(n / 16);
        assert(h == p.push(hex_char(n % 16)));
        assert(h.drop_last() =~= p);
        assert(forall|i: int| 0 <= i < p.len() ==> h[i] == p[i]);
        assert(all_digits(h, 16)) by {
            assert forall|i: int| 0 <= i < h.len() implies 0 <= #[trigger] digit_in(h[i], 16) by {
                if i < p.len() {
                    assert(h[i] == p[i]);
                }
            }
        }
        assert(digits_value(h, 16) == digits_value(p, 16) * 16 + digit_in(h.last(), 16));
        assert(n == (n / 16) * 16 + n % 16);
    } else {
        lemma_hex_char(n);
        assert(h == seq![hex_char(n)]);
        assert(h.drop_last() =~= Seq::<u8>::empty());
        assert(digits_value(h.drop_last(), 16) == 0);
    }
}

proof fn lemma_trim_hex_cr(n: nat)
    ensures
        trim(hex_of(n).push(13u8)) == hex_of(n),
{
    lemma_hex_of_digits(n);
    let h = hex_of(n);
    let l = h.push(13u8);
    assert(trim_start(l) == l);
    assert(l.drop_last() =~= h);
    assert(trim_end(l) == trim_end(h));
    assert(trim_end(h) == h);
}

/// A size line holding `hex_of(n)` and a carriage return announces `n`.
proof fn lemma_size_line(n: nat)
    requires
        n <= usize::MAX,
    ensures
        size_of_line(hex_of(n).push(13u8)) == Some(n as int),
{
    lemma_trim_hex_cr(n);
    lemma_hex_of_digits(n);
    assert(unsigned_digits(hex_of(n)) == hex_of(n));
}

/// A size line ending in CRLF, from the start of a line, leaves the decoder in `next`.
proof fn lemma_read_size(policy: BadSize, n: nat)
    requires
        n <= usize::MAX,
    ensures
        chunk_run(policy, fresh(), hex_of(n) + seq![13u8, 10u8]) == (
            ChunkState {
                phase: if n == 0 {
                    ChunkPhase::End
                } else {
                    ChunkPhase::Data(n as usize)
                },
                line: Seq::empty(),
            },
            Seq::<u8>::empty(),
        ),
{
    lemma_hex_of_digits(n);
    let h = hex_of(n);
    let s = h + seq![13u8, 10u8];
    let hc = h.push(13u8);
    assert(s.drop_last() =~= hc);
    assert(s.last() == 10u8);
    assert(hc.drop_last() =~= h);
    lemma_collect_line(policy, Seq::empty(), h);
    assert(Seq::<u8>::empty() + h =~= h);
    let st_h = ChunkState { phase: ChunkPhase::Size, line: h };
    assert(chunk_run(policy, fresh(), h) == (st_h, Seq::<u8>::empty()));
    assert(chunk_step(policy, st_h, 13u8) == (ChunkState { phase: ChunkPhase::Size, line: hc }, None::<u8>));
    assert(chunk_run(policy, fresh(), hc) == (ChunkState { phase: ChunkPhase::Size, line: hc }, Seq::<u8>::empty() + opt_seq(None)));
    assert(Seq::<u8>::empty() + opt_seq(None) =~= Seq::<u8>::empty());
    lemma_size_line(n);
    assert(Seq::<u8>::empty() + Seq::<u8>::empty() =~= Seq::<u8>::empty());
}

/// One chunk, from the start of a size line, yields its payload and ends at the next size line.
proof fn lemma_one_chunk(policy: BadSize, c: Seq<u8>)
    requires
        0 < c.len() <= usize::MAX,
    ensures
        chunk_run(policy, fresh(), chunk_wire(c)) == (fresh(), c),
{
    let head = hex_of(c.len()) + seq![13u8, 10u8];
    lemma_read_size(policy, c.len());
    lemma_pass_data(policy, c, c.len() as int);
    assert(c.subrange(0, c.len() as int) =~= c);
    let tail: Seq<u8> = seq![13u8, 10u8];
    assert(tail.drop_last() =~= seq![13u8]);
    assert(seq![13u8].drop_last() =~= Seq::<u8>::empty());
    let trailer = ChunkState { phase: ChunkPhase::Trailer, line: Seq::empty() };
    assert(chunk_run(policy, trailer, Seq::<u8>::empty()) == (trailer, Seq::<u8>::empty()));
    assert(Seq::<u8>::empty() + opt_seq(None) =~= Seq::<u8>::empty());
    assert(chunk_run(policy, trailer, seq![13u8]) == (trailer, Seq::<u8>::empty()));
    assert(chunk_run(policy, trailer, tail).1 =~= Seq::<u8>::empty());
    lemma_chunk_run_append(policy, fresh(), head, c);
    lemma_chunk_run_append(policy, fresh(), head + c, tail);
    assert(chunk_wire(c) =~= head + c + tail);
    assert(Seq::<u8>::empty() + c =~= c);
    assert(c + Seq::<u8>::empty() =~= c);
}

/// The terminal chunk ends the body, and the decoder then ignores what follows.
proof fn lemma_last_chunk(policy: BadSize)
    ensures
        chunk_run(policy, fresh(), last_chunk_wire()) == (
            ChunkState { phase: ChunkPhase::End, line: Seq::empty() },
            Seq::<u8>::empty(),
        ),
{
    lemma_read_size(policy, 0);
    reveal_with_fuel(hex_of, 1);
    assert(hex_of(0) =~= seq![48u8]);
    let w = last_chunk_wire();
    let head = hex_of(0) + seq![13u8, 10u8];
    let tail: Seq<u8> = seq![13u8, 10u8];
    assert(w =~= head + tail);
    lemma_chunk_run_append(policy, fresh(), head, tail);
    let end = ChunkState { phase: ChunkPhase::End, line: Seq::empty() };
    assert(tail.drop_last() =~= seq![13u8]);
    assert(seq![13u8].drop_last() =~= Seq::<u8>::empty());
    assert(chunk_run(policy, end, Seq::<u8>::empty()) == (end, Seq::<u8>::empty()));
    assert(Seq::<u8>::empty() + opt_seq(None) =~= Seq::<u8>::empty());
    assert(chunk_run(policy, end, seq![13u8]) == (end, Seq::<u8>::empty()));
    assert(chunk_run(policy, end, tail).1 =~= Seq::<u8>::empty());
    assert(Seq::<u8>::empty() + Seq::<u8>::empty() =~= Seq::<u8>::empty());
}

/// Decoding a chunked body gives back exactly the concatenation of its chunk
/// payloads, and leaves the decoder at the end of the body, whatever its policy
/// for malformed size lines.
pub proof fn lemma_decode_encoded(policy: BadSize, chunks: Seq<Seq<u8>>)
    requires
        forall|i: int| 0 <= i < chunks.len() ==> 0 < #[trigger] chunks[i].len() <= usize::MAX,
    ensures
        chunk_run(policy, fresh(), body_wire(chunks)) == (
            ChunkState { phase: ChunkPhase::End, line: Seq::empty() },
            joined(chunks),
        ),
        eof_outcome(policy, chunk_run(policy, fresh(), body_wire(chunks)).0) == BodyEnd::Complete,
    decreases chunks.len(),
{
    if chunks.len() == 0 {
        lemma_last_chunk(policy);
    } else {
        let c = chunks[0];
        let rest = chunks.drop_first();
        assert forall|i: int| 0 <= i < rest.len() implies 0 < #[trigger] rest[i].len() <= usize::MAX by {
            assert(rest[i] == chunks[i + 1]);
        }
        lemma_decode_encoded(policy, rest);
        lemma_one_chunk(policy, c);
        lemma_chunk_run_append(policy, fresh(), chunk_wire(c), body_wire(rest));
    }
}

/// An incremental decoder of a chunked body.
pub struct ChunkedDecoder {
    policy: BadSize,
    phase: ChunkPhase,
    line: Vec<u8>,
}

impl View for ChunkedDecoder {
    type V = ChunkState;

    closed spec fn view(&self) -> ChunkState {
        ChunkState { phase: self.phase, line: self.line@ }
    }
}

impl ChunkedDecoder {
    /// The decoder's policy for malformed size lines.
    pub closed spec fn spec_policy(&self) -> BadSize {
        self.policy
    }

    /// A decoder at the start of a body.
    pub fn new(policy: BadSize) -> (r: ChunkedDecoder)
        ensures
            r@ == fresh(),
            r.spec_policy() == policy,
    {
        ChunkedDecoder { policy, phase: ChunkPhase::Size, line: Vec::new() }
    }

    pub fn phase(&self) -> (r: ChunkPhase)
        ensures
            r == self@.phase,
    {
        self.phase
    }

    /// Consumes one byte; returns the payload byte it carries, if any.
    pub fn step(&mut self, b: u8) -> (r: Option<u8>)
        ensures
            (final(self)@, r) == chunk_step(old(self).spec_policy(), old(self)@, b),
            final(self).spec_policy() == old(self).spec_policy(),
    {
        match self.phase {
            ChunkPhase::Size => {
                if b == 10u8 {
                    let t = trimmed(self.line.as_slice());
                    let next = match parse_usize(t.as_slice(), 16) {
                        Some(n) => if n == 0 {
                            ChunkPhase::End
                        } else {
                            ChunkPhase::Data(n)
                        },
                        None => match self.policy {
                            BadSize::Fail => ChunkPhase::Failed,
                            BadSize::Skip => ChunkPhase::Size,
                            BadSize::Stop => ChunkPhase::End,
                        },
                    };
                    self.phase = next;
                    self.line = Vec::new();
                    None
                } else {
                    self.line.push(b);
                    None
                }
            },
            ChunkPhase::Data(n) => {
                self.phase = if n <= 1 {
                    ChunkPhase::Trailer
                } else {
                    ChunkPhase::Data(n - 1)
                };
                Some(b)
            },
            ChunkPhase::Trailer => {
                if b == 10u8 {
                    self.phase = ChunkPhase::Size;
                    self.line = Vec::new();
                }
                None
            },
            _ => None,
        }
    }

    /// Consumes `input`; returns the payload bytes it carries.
    pub fn feed(&mut self, input: &[u8]) -> (r: Vec<u8>)
        ensures
            (final(self)@, r@) == chunk_run(old(self).spec_policy(), old(self)@, input@),
            final(self).spec_policy() == old(self).spec_policy(),
    {
        let mut out: Vec<u8> = Vec::new();
        let mut k: usize = 0;
        while k < input.len()
            invariant
                k <= input@.len(),
                self.spec_policy() == old(self).spec_policy(),
                (self@, out@) == chunk_run(self.spec_policy(), old(self)@, input@.subrange(0, k as int)),
            decreases input@.len() - k,
        {
            let ghost prefix = input@.subrange(0, k as int);
            assert(input@.subrange(0, k + 1).drop_last() =~= prefix);
            if let Some(p) = self.step(input[k]) {
                out.push(p);
            }
            k = k + 1;
            assert(out@ =~= chunk_run(self.spec_policy(), old(self)@, input@.subrange(0, k as int)).1);
        }
        assert(input@.subrange(0, k as int) =~= input@);
        out
    }

    /// Whether the terminal chunk has been seen.
    pub fn is_complete(&self) -> (r: bool)
        ensures
            r == (self@.phase == ChunkPhase::End),
    {
        self.phase == ChunkPhase::End
    }

    /// How the body stands if the connection closes now.
    pub fn at_eof(&self) -> (r: BodyEnd)
        ensures
            r == eof_outcome(self.spec_policy(), self@),
    {
        match self.phase {
            ChunkPhase::End => BodyEnd::Complete,
            ChunkPhase::Failed => BodyEnd::Malformed,
            ChunkPhase::Data(_) => BodyEnd::Truncated,
            _ => {
                let empty: Vec<u8> = Vec::new();
                let line: &[u8] = if self.phase == ChunkPhase::Trailer {
                    empty.as_slice()
                } else {
                    self.line.as_slice()
                };
                let t = trimmed(line);
                match parse_usize(t.as_slice(), 16) {
                    Some(n) => if n == 0 {
                        BodyEnd::Complete
                    } else {
                        BodyEnd::Truncated
                    },
                    None => if self.policy == BadSize::Fail {
                        BodyEnd::Malformed
                    } else {
                        BodyEnd::Complete
                    },
                }
            },
        }
    }
}

/// Decodes a whole chunked body held in memory: the payload, once the
/// terminal chunk is found, or how the body falls short.
pub fn decode_chunked(input: &[u8]) -> (r: Result<Vec<u8>, BodyEnd>)
    ensures
        r matches Ok(body) ==> eof_outcome(BadSize::Fail, chunk_run(BadSize::Fail, fresh(), input@).0)
            == BodyEnd::Complete && body@ == chunk_run(BadSize::Fail, fresh(), input@).1,
        r matches Err(e) ==> e != BodyEnd::Complete && e == eof_outcome(
            BadSize::Fail,
            chunk_run(BadSize::Fail, fresh(), input@).0,
        ),
{
    let mut d = ChunkedDecoder::new(BadSize::Fail);
    let body = d.feed(input);
    match d.at_eof() {
        BodyEnd::Complete => Ok(body),
        e => Err(e),
    }
}

/// One chunk on the wire: its size in hex, CRLF, the payload, CRLF.
pub fn encode_chunk(payload: &[u8]) -> (r: Vec<u8>)
    ensures
        r@ == chunk_wire(payload@),
{
    let mut r: Vec<u8> = Vec::new();
    push_hex(&mut r, payload.len());
    r.push(13u8);
    r.push(10u8);
    let mut k: usize = 0;
    let ghost head = r@;
    while k < payload.len()
        invariant
            k <= payload@.len(),
            r@ == head + payload@.subrange(0, k as int),
        decreases payload@.len() - k,
    {
        r.push(payload[k]);
        k = k + 1;
        assert(r@ =~= head + payload@.subrange(0, k as int));
    }
    r.push(13u8);
    r.push(10u8);
    assert(payload@.subrange(0, k as int) =~= payload@);
    assert(r@ =~= chunk_wire(payload@));
    r
}

} // verus!
