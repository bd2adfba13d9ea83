//! Character-level helpers for the text formats the library reads.
use vstd::prelude::*;
use vstd::std_specs::iter::IteratorSpec;

verus! {

broadcast use vstd::string::axiom_spec_iter, vstd::string::next_postcondition;

/// The characters of `s`.
pub fn chars_of(s: &str) -> (r: Vec<char>)
    ensures
        r@ == s@,
{
    let mut it = s.chars();
    let mut out: Vec<char> = Vec::new();
    loop
        invariant
            it.obeys_prophetic_iter_laws(),
            out@.len() <= s@.len(),
            it.remaining() == s@.subrange(out@.len() as int, s@.len() as int),
            out@ == s@.subrange(0, out@.len() as int),
        ensures
            out@ == s@,
        decreases s@.len() - out@.len(),
    {
        match it.next() {
            Some(c) => {
                out.push(c);
                assert(out@ =~= s@.subrange(0, out@.len() as int));
            },
            None => {
                assert(out@ =~= s@);
                break;
            },
        }
    }
    out
}

/// `char::is_whitespace`: the characters with the Unicode `White_Space` property.
pub open spec fn is_white(c: char) -> bool {
    ('\u{9}' <= c && c <= '\u{d}') || c == ' ' || c == '\u{85}' || c == '\u{a0}' || c == '\u{1680}'
        || ('\u{2000}' <= c && c <= '\u{200a}') || c == '\u{2028}' || c == '\u{2029}' || c == '\u{202f}'
        || c == '\u{205f}' || c == '\u{3000}'
}

pub fn white(c: char) -> (r: bool)
    ensures
        r == is_white(c),
{
    ('\u{9}' <= c && c <= '\u{d}') || c == ' ' || c == '\u{85}' || c == '\u{a0}' || c == '\u{1680}'
        || ('\u{2000}' <= c && c <= '\u{200a}') || c == '\u{2028}' || c == '\u{2029}' || c == '\u{202f}'
        || c == '\u{205f}' || c == '\u{3000}'
}

pub open spec fn ltrim(s: Seq<char>) -> Seq<char>
    decreases s.len(),
{
    if s.len() > 0 && is_white(s[0]) {
        ltrim(s.drop_first())
    } else {
        s
    }
}

pub open spec fn rtrim(s: Seq<char>) -> Seq<char>
    decreases s.len(),
{
    if s.len() > 0 && is_white(s.last()) {
        rtrim(s.drop_last())
    } else {
        s
    }
}

/// `str::trim`.
pub open spec fn trim_str(s: Seq<char>) -> Seq<char> {
    rtrim(ltrim(s))
}

/// Bounds of the trimmed part of `cs[from..to]`.
pub fn trim_range(cs: &Vec<char>, from: usize, to: usize) -> (r: (usize, usize))
    requires
        from <= to <= cs@.len(),
    ensures
        from <= r.0 <= r.1 <= to,
        cs@.subrange(r.0 as int, r.1 as int) == trim_str(cs@.subrange(from as int, to as int)),
{
    let ghost s = cs@.subrange(from as int, to as int);
    let mut i: usize = from;
    while i < to && white(cs[i])
        invariant
            from <= i <= to <= cs@.len(),
            s == cs@.subrange(from as int, to as int),
            ltrim(s) == ltrim(cs@.subrange(i as int, to as int)),
        decreases to - i,
    {
        assert(cs@.subrange(i as int, to as int).drop_first() =~= cs@.subrange(i + 1, to as int));
        i = i + 1;
    }
    let ghost front = cs@.subrange(i as int, to as int);
    assert(ltrim(front) == front);
    let mut j: usize = to;
    while j > i && white(cs[j - 1])
        invariant
            i <= j <= to <= cs@.len(),
            front == cs@.subrange(i as int, to as int),
            rtrim(front) == rtrim(cs@.subrange(i as int, j as int)),
        decreases j,
    {
        assert(cs@.subrange(i as int, j as int).drop_last() =~= cs@.subrange(i as int, j - 1));
        j = j - 1;
    }
    (i, j)
}

/// Lines as `str::lines` gives them: split at line feeds, a carriage return
/// before a line feed dropped, no empty last line after a final line feed.
pub open spec fn lines_scan(s: Seq<char>) -> (Seq<Seq<char>>, Seq<char>)
    decreases s.len(),
{
    if s.len() == 0 {
        (Seq::empty(), Seq::empty())
    } else {
        let (done, cur) = lines_scan(s.drop_last());
        if s.last() == '\n' {
            (done.push(drop_cr(cur)), Seq::empty())
        } else {
            (done, cur.push(s.last()))
        }
    }
}

pub open spec fn drop_cr(s: Seq<char>) -> Seq<char> {
    if s.len() > 0 && s.last() == '\r' {
        s.drop_last()
    } else {
        s
    }
}

pub open spec fn lines_of(s: Seq<char>) -> Seq<Seq<char>> {
    let (done, cur) = lines_scan(s);
    if cur.len() > 0 {
        done.push(cur)
    } else {
        done
    }
}

pub open spec fn range_view(cs: Seq<char>, r: (usize, usize)) -> Seq<char> {
    cs.subrange(r.0 as int, r.1 as int)
}

/// The bounds of each line of `cs`.
pub fn line_ranges(cs: &Vec<char>) -> (r: Vec<(usize, usize)>)
    ensures
        r@.len() == lines_of(cs@).len(),
        forall|i: int| 0 <= i < r@.len() ==> (#[trigger] r@[i]).0 <= r@[i].1 <= cs@.len(),
        forall|i: int| 0 <= i < r@.len() ==> #[trigger] range_view(cs@, r@[i]) == lines_of(cs@)[i],
{
    let mut out: Vec<(usize, usize)> = Vec::new();
    let mut start: usize = 0;
    let mut k: usize = 0;
    let ghost mut done: Seq<Seq<char>> = Seq::empty();
    while k < cs.len()
        invariant
            start <= k <= cs@.len(),
            lines_scan(cs@.subrange(0, k as int)) == (done, cs@.subrange(start as int, k as int)),
            out@.len() == done.len(),
            forall|i: int| 0 <= i < out@.len() ==> (#[trigger] out@[i]).0 <= out@[i].1 <= cs@.len(),
            forall|i: int| 0 <= i < out@.len() ==> #[trigger] range_view(cs@, out@[i]) == done[i],
        decreases cs@.len() - k,
    {
        assert(cs@.subrange(0, k + 1).drop_last() =~= cs@.subrange(0, k as int));
        if cs[k] == '\n' {
            let end: usize = if k > start && cs[k - 1] == '\r' {
                k - 1
            } else {
                k
            };
            let ghost cur = cs@.subrange(start as int, k as int);
            assert(cs@.subrange(start as int, end as int) =~= drop_cr(cur));
            out.push((start, end));
            proof {
                done = done.push(drop_cr(cur));
            }
            start = k + 1;
        } else {
            assert(cs@.subrange(start as int, k + 1) =~= cs@.subrange(start as int, k as int).push(cs@[k as int]));
        }
        k = k + 1;
        assert(cs@.subrange(start as int, k as int) =~= lines_scan(cs@.subrange(0, k as int)).1);
    }
    assert(cs@.subrange(0, k as int) =~= cs@);
    if start < k {
        out.push((start, k));
    }
    out
}

/// Relies on `String::push`: it appends the character.
#[verifier::external_body]
pub(crate) fn push_char(s: &mut String, c: char)
    ensures
        final(s)@ == old(s)@.push(c),
{
    s.push(c)
}

/// The characters `cs[a..b]` as a string.
pub fn string_of(cs: &Vec<char>, a: usize, b: usize) -> (r: String)
    requires
        a <= b <= cs@.len(),
    ensures
        r@ == cs@.subrange(a as int, b as int),
{
    let mut r = String::new();
    let mut k: usize = a;
    while k < b
        invariant
            a <= k <= b <= cs@.len(),
            r@ == cs@.subrange(a as int, k as int),
        decreases b - k,
    {
        push_char(&mut r, cs[k]);
        k = k + 1;
        assert(r@ =~= cs@.subrange(a as int, k as int));
    }
    r
}

/// Membership in one of four character sets: 0, whitespace; 1, carriage
/// return; 2, carriage return or line feed; 3, double quote.
pub open spec fn in_set(c: char, set: u8) -> bool {
    if set == 0 {
        is_white(c)
    } else if set == 1 {
        c == '\r'
    } else if set == 2 {
        c == '\r' || c == '\n'
    } else {
        c == '"'
    }
}

/// `s` without its trailing characters of the given set.
pub open spec fn skip_trail(s: Seq<char>, set: u8) -> Seq<char>
    decreases s.len(),
{
    if s.len() > 0 && in_set(s.last(), set) {
        skip_trail(s.drop_last(), set)
    } else {
        s
    }
}

fn in_set_exec(c: char, set: u8) -> (r: bool)
    ensures
        r == in_set(c, set),
{
    if set == 0 {
        white(c)
    } else if set == 1 {
        c == '\r'
    } else if set == 2 {
        c == '\r' || c == '\n'
    } else {
        c == '"'
    }
}

/// The end of `cs[from..to]` once its trailing characters of the set are dropped.
pub fn skip_back(cs: &Vec<char>, from: usize, to: usize, set: u8) -> (r: usize)
    requires
        from <= to <= cs@.len(),
    ensures
        from <= r <= to,
        cs@.subrange(from as int, r as int) == skip_trail(cs@.subrange(from as int, to as int), set),
{
    let mut j: usize = to;
    while j > from && in_set_exec(cs[j - 1], set)
        invariant
            from <= j <= to <= cs@.len(),
            skip_trail(cs@.subrange(from as int, to as int), set) == skip_trail(cs@.subrange(from as int, j as int), set),
        decreases j,
    {
        assert(cs@.subrange(from as int, j as int).drop_last() =~= cs@.subrange(from as int, j - 1));
        j = j - 1;
    }
    j
}

/// `s` without its leading characters of the given set.
pub open spec fn skip_lead(s: Seq<char>, set: u8) -> Seq<char>
    decreases s.len(),
{
    if s.len() > 0 && in_set(s[0], set) {
        skip_lead(s.drop_first(), set)
    } else {
        s
    }
}

/// The first position at or after `from` whose character is not in the set.
pub fn skip_from(cs: &Vec<char>, from: usize, set: u8) -> (r: usize)
    requires
        from <= cs@.len(),
    ensures
        from <= r <= cs@.len(),
        cs@.subrange(r as int, cs@.len() as int) == skip_lead(cs@.subrange(from as int, cs@.len() as int), set),
{
    let n = cs.len();
    let mut i: usize = from;
    assert(cs@.subrange(from as int, n as int) =~= cs@.subrange(i as int, n as int));
    loop
        invariant
            from <= i <= n,
            n == cs@.len(),
            skip_lead(cs@.subrange(from as int, n as int), set) == skip_lead(cs@.subrange(i as int, n as int), set),
        ensures
            from <= i <= n,
            skip_lead(cs@.subrange(from as int, n as int), set) == cs@.subrange(i as int, n as int),
        decreases n - i,
    {
        if i == n {
            assert(cs@.subrange(i as int, n as int).len() == 0);
            break;
        }
        let c = cs[i];
        let hit = in_set_exec(c, set);
        assert(cs@.subrange(i as int, n as int)[0] == c);
        if !hit {
            break;
        }
        assert(cs@.subrange(i as int, n as int).drop_first() =~= cs@.subrange(i + 1, n as int));
        i = i + 1;
    }
    i
}

/// `pat` first occurs in `s` at `i`.
pub open spec fn first_occurrence(s: Seq<char>, pat: Seq<char>, i: int) -> bool {
    &&& 0 <= i && i + pat.len() <= s.len()
    &&& s.subrange(i, i + pat.len()) == pat
    &&& forall|j: int| 0 <= j < i ==> #[trigger] s.subrange(j, j + pat.len()) != pat
}

/// Whether `cs[a..a + p.len()]` is `p`.
pub fn matches_here(cs: &Vec<char>, a: usize, p: &Vec<char>) -> (r: bool)
    requires
        a + p@.len() <= cs@.len(),
    ensures
        r == (cs@.subrange(a as int, a + p@.len()) == p@),
{
    let n = cs.len();
    let mut k: usize = 0;
    while k < p.len()
        invariant
            k <= p@.len(),
            n == cs@.len(),
            a + p@.len() <= cs@.len(),
            forall|t: int| 0 <= t < k ==> cs@[a + t] == p@[t],
        decreases p@.len() - k,
    {
        if cs[a + k] != p[k] {
            assert(cs@.subrange(a as int, a + p@.len())[k as int] != p@[k as int]);
            return false;
        }
        k = k + 1;
    }
    assert(cs@.subrange(a as int, a + p@.len()) =~= p@);
    true
}

/// The first occurrence of `p` in `cs[from..]`, as a position in `cs`.
pub fn find_from(cs: &Vec<char>, from: usize, p: &Vec<char>) -> (r: Option<usize>)
    requires
        from <= cs@.len(),
    ensures
        r matches Some(i) ==> from <= i && first_occurrence(
            cs@.subrange(from as int, cs@.len() as int),
            p@,
            i - from,
        ),
        r is None ==> !exists|i: int| first_occurrence(cs@.subrange(from as int, cs@.len() as int), p@, i),
{
    let ghost s = cs@.subrange(from as int, cs@.len() as int);
    let n = cs.len();
    if p.len() > n - from {
        return None;
    }
    let last = n - p.len();
    let mut i: usize = from;
    while i <= last
        invariant
            from <= i,
            last + p@.len() == n,
            n == cs@.len(),
            s == cs@.subrange(from as int, n as int),
            forall|j: int| 0 <= j < i - from ==> #[trigger] s.subrange(j, j + p@.len()) != p@,
        decreases last + 1 - i,
    {
        let here = matches_here(cs, i, p);
        assert(s.subrange(i - from, i - from + p@.len()) =~= cs@.subrange(i as int, i + p@.len()));
        if here {
            return Some(i);
        }
        if i == last {
            proof {
                assert forall|j: int| #![auto] !first_occurrence(s, p@, j) by {
                    if 0 <= j && j + p@.len() <= s.len() {
                        assert(j < i + 1 - from);
                    }
                }
            }
            return None;
        }
        i = i + 1;
    }
    None
}

/// The start of `cs[from..to]` once its leading characters of the set are dropped.
pub fn skip_range(cs: &Vec<char>, from: usize, to: usize, set: u8) -> (r: usize)
    requires
        from <= to <= cs@.len(),
    ensures
        from <= r <= to,
        cs@.subrange(r as int, to as int) == skip_lead(cs@.subrange(from as int, to as int), set),
{
    let mut i: usize = from;
    while i < to && in_set_exec(cs[i], set)
        invariant
            from <= i <= to <= cs@.len(),
            skip_lead(cs@.subrange(from as int, to as int), set) == skip_lead(cs@.subrange(i as int, to as int), set),
        decreases to - i,
    {
        assert(cs@.subrange(i as int, to as int).drop_first() =~= cs@.subrange(i + 1, to as int));
        i = i + 1;
    }
    i
}

/// Whether `cs[a..b]` is `lit`.
pub fn range_is(cs: &Vec<char>, a: usize, b: usize, lit: &str) -> (r: bool)
    requires
        a <= b <= cs@.len(),
    ensures
        r == (cs@.subrange(a as int, b as int) == lit@),
{
    let l = chars_of(lit);
    if b - a != l.len() {
        return false;
    }
    matches_here(cs, a, &l)
}

/// The position of the first `c` in `cs[a..b]`, counted from `a`.
pub fn first_in(cs: &Vec<char>, a: usize, b: usize, c: char) -> (r: Option<usize>)
    requires
        a <= b <= cs@.len(),
    ensures
        r matches Some(j) ==> crate::resolver::first_char_at(cs@.subrange(a as int, b as int), c, j as int),
        r is None ==> !exists|j: int| crate::resolver::first_char_at(cs@.subrange(a as int, b as int), c, j),
{
    let ghost s = cs@.subrange(a as int, b as int);
    let mut k: usize = a;
    while k < b
        invariant
            a <= k <= b <= cs@.len(),
            s == cs@.subrange(a as int, b as int),
            forall|t: int| 0 <= t < k - a ==> s[t] != c,
        decreases b - k,
    {
        if cs[k] == c {
            return Some(k - a);
        }
        k = k + 1;
    }
    None
}

/// A copy of `cs[a..b]`.
pub fn chars_range(cs: &Vec<char>, a: usize, b: usize) -> (r: Vec<char>)
    requires
        a <= b <= cs@.len(),
    ensures
        r@ == cs@.subrange(a as int, b as int),
{
    let mut r: Vec<char> = Vec::new();
    let mut k: usize = a;
    while k < b
        invariant
            a <= k <= b <= cs@.len(),
            r@ == cs@.subrange(a as int, k as int),
        decreases b - k,
    {
        r.push(cs[k]);
        k = k + 1;
        assert(r@ =~= cs@.subrange(a as int, k as int));
    }
    r
}

} // verus!
