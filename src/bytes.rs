//! Byte-level text helpers shared by the protocol parsers: ASCII trimming,
//! case-insensitive comparison, and hexadecimal / decimal numbers.
use vstd::prelude::*;

verus! {

/// ASCII whitespace: space, tab, line feed, vertical tab, form feed, carriage return.
pub open spec fn is_space(b: u8) -> bool {
    b == 32u8 || (9u8 <= b && b <= 13u8)
}

pub open spec fn trim_start(s: Seq<u8>) -> Seq<u8>
    decreases s.len(),
{
    if s.len() > 0 && is_space(s[0]) {
        trim_start(s.drop_first())
    } else {
        s
    }
}

pub open spec fn trim_end(s: Seq<u8>) -> Seq<u8>
    decreases s.len(),
{
    if s.len() > 0 && is_space(s.last()) {
        trim_end(s.drop_last())
    } else {
        s
    }
}

/// The bytes with leading and trailing ASCII whitespace removed.
pub open spec fn trim(s: Seq<u8>) -> Seq<u8> {
    trim_end(trim_start(s))
}

/// Bytes with every trailing carriage return removed.
pub open spec fn strip_cr(s: Seq<u8>) -> Seq<u8>
    decreases s.len(),
{
    if s.len() > 0 && s.last() == 13u8 {
        strip_cr(s.drop_last())
    } else {
        s
    }
}

pub open spec fn to_lower(b: u8) -> u8 {
    if 65u8 <= b && b <= 90u8 {
        (b + 32) as u8
    } else {
        b
    }
}

/// Equal up to ASCII case.
pub open spec fn eq_ignore_case(a: Seq<u8>, b: Seq<u8>) -> bool {
    &&& a.len() == b.len()
    &&& forall|i: int| 0 <= i < a.len() ==> to_lower(#[trigger] a[i]) == to_lower(b[i])
}

/// `needle` occurs in `hay`, up to ASCII case.
pub open spec fn contains_ignore_case(hay: Seq<u8>, needle: Seq<u8>) -> bool {
    exists|i: int|
        0 <= i && i + needle.len() <= hay.len() && #[trigger] eq_ignore_case(
            hay.subrange(i, i + needle.len()),
            needle,
        )
}

pub open spec fn has_prefix(s: Seq<u8>, p: Seq<u8>) -> bool {
    p.len() <= s.len() && s.subrange(0, p.len() as int) == p
}

/// Value of a hexadecimal digit of either case, or -1.
pub open spec fn hex_digit(b: u8) -> int {
    if 48u8 <= b && b <= 57u8 {
        b - 48
    } else if 97u8 <= b && b <= 102u8 {
        b - 87
    } else if 65u8 <= b && b <= 70u8 {
        b - 55
    } else {
        -1
    }
}

pub open spec fn dec_digit(b: u8) -> int {
    if 48u8 <= b && b <= 57u8 {
        b - 48
    } else {
        -1
    }
}

pub open spec fn all_digits(s: Seq<u8>, radix: int) -> bool {
    forall|i: int|
        0 <= i < s.len() ==> 0 <= #[trigger] digit_in(s[i], radix)
}

pub open spec fn digit_in(b: u8, radix: int) -> int {
    if radix == 16 {
        hex_digit(b)
    } else {
        dec_digit(b)
    }
}

/// The number that a run of digits denotes, most significant first.
pub open spec fn digits_value(s: Seq<u8>, radix: int) -> int
    decreases s.len(),
{
    if s.len() == 0 {
        0
    } else {
        digits_value(s.drop_last(), radix) * radix + digit_in(s.last(), radix)
    }
}

/// The digits of an unsigned number: an optional leading `+`, then at least one digit.
pub open spec fn unsigned_digits(s: Seq<u8>) -> Seq<u8> {
    if s.len() > 0 && s[0] == 43u8 {
        s.drop_first()
    } else {
        s
    }
}

/// An unsigned number in the given radix that is at most `max`, in the syntax that
/// `from_str_radix` accepts for unsigned integers.
pub open spec fn parse_unsigned(s: Seq<u8>, radix: int, max: int) -> Option<int> {
    let d = unsigned_digits(s);
    if d.len() > 0 && all_digits(d, radix) && digits_value(d, radix) <= max {
        Some(digits_value(d, radix))
    } else {
        None
    }
}

/// Decimal digits of `n`, without leading zeros.
pub open spec fn decimal_of(n: nat) -> Seq<u8>
    decreases n,
{
    if n < 10 {
        seq![(48 + n) as u8]
    } else {
        decimal_of(n / 10).push((48 + n % 10) as u8)
    }
}

/// Lowercase hexadecimal digits of `n`, without leading zeros.
pub open spec fn hex_of(n: nat) -> Seq<u8>
    decreases n,
{
    if n < 16 {
        seq![hex_char(n)]
    } else {
        hex_of(n / 16).push(hex_char(n % 16))
    }
}

pub open spec fn hex_char(d: nat) -> u8 {
    if d < 10 {
        (48 + d) as u8
    } else {
        (87 + d) as u8
    }
}

proof fn lemma_trim_start_step(s: Seq<u8>, i: int)
    requires
        0 <= i < s.len(),
        is_space(s[i]),
    ensures
        trim_start(s.subrange(i, s.len() as int)) == trim_start(s.subrange(i + 1, s.len() as int)),
{
    assert(s.subrange(i, s.len() as int).drop_first() =~= s.subrange(i + 1, s.len() as int));
}

proof fn lemma_trim_end_step(s: Seq<u8>, j: int)
    requires
        0 < j <= s.len(),
        is_space(s[j - 1]),
    ensures
        trim_end(s.subrange(0, j)) == trim_end(s.subrange(0, j - 1)),
{
    assert(s.subrange(0, j).drop_last() =~= s.subrange(0, j - 1));
}

/// Bounds of the trimmed part of `s`.
pub fn trim_bounds(s: &[u8]) -> (r: (usize, usize))
    ensures
        r.0 <= r.1 <= s@.len(),
        s@.subrange(r.0 as int, r.1 as int) == trim(s@),
{
    let n = s.len();
    let mut i: usize = 0;
    assert(s@.subrange(0, n as int) =~= s@);
    while i < n && (s[i] == 32u8 || (9u8 <= s[i] && s[i] <= 13u8))
        invariant
            i <= n,
            n == s@.len(),
            trim_start(s@) == trim_start(s@.subrange(i as int, n as int)),
        decreases n - i,
    {
        proof {
            lemma_trim_start_step(s@, i as int);
        }
        i = i + 1;
    }
    let ghost front = s@.subrange(i as int, n as int);
    assert(trim_start(front) == front);
    let mut j: usize = n;
    assert(front.subrange(0, (j - i) as int) =~= front);
    while j > i && (s[j - 1] == 32u8 || (9u8 <= s[j - 1] && s[j - 1] <= 13u8))
        invariant
            i <= j <= n,
            n == s@.len(),
            front == s@.subrange(i as int, n as int),
            trim_end(front) == trim_end(front.subrange(0, (j - i) as int)),
        decreases j,
    {
        proof {
            lemma_trim_end_step(front, (j - i) as int);
            assert(front.subrange(0, (j - i - 1) as int) =~= front.subrange(0, (j - 1 - i) as int));
        }
        j = j - 1;
    }
    let ghost back = front.subrange(0, (j - i) as int);
    assert(trim_end(back) == back);
    assert(back =~= s@.subrange(i as int, j as int));
    (i, j)
}

/// A copy of `s[from..to]`.
pub fn copy_range(s: &[u8], from: usize, to: usize) -> (r: Vec<u8>)
    requires
        from <= to <= s@.len(),
    ensures
        r@ == s@.subrange(from as int, to as int),
{
    let mut r: Vec<u8> = Vec::new();
    let mut k: usize = from;
    while k < to
        invariant
            from <= k <= to,
            to <= s@.len(),
            r@ == s@.subrange(from as int, k as int),
        decreases to - k,
    {
        r.push(s[k]);
        k = k + 1;
        assert(r@ =~= s@.subrange(from as int, k as int));
    }
    r
}

/// The trimmed copy of `s`.
pub fn trimmed(s: &[u8]) -> (r: Vec<u8>)
    ensures
        r@ == trim(s@),
{
    let (a, b) = trim_bounds(s);
    copy_range(s, a, b)
}

/// `s` without its trailing carriage returns.
pub fn without_cr(s: &[u8]) -> (r: Vec<u8>)
    ensures
        r@ == strip_cr(s@),
{
    let mut j: usize = s.len();
    assert(s@.subrange(0, j as int) =~= s@);
    while j > 0 && s[j - 1] == 13u8
        invariant
            j <= s@.len(),
            strip_cr(s@) == strip_cr(s@.subrange(0, j as int)),
        decreases j,
    {
        assert(s@.subrange(0, j as int).drop_last() =~= s@.subrange(0, j - 1));
        j = j - 1;
    }
    copy_range(s, 0, j)
}

pub fn lower(b: u8) -> (r: u8)
    ensures
        r == to_lower(b),
{
    if 65u8 <= b && b <= 90u8 {
        b + 32
    } else {
        b
    }
}

/// Whether `a[from..from + b.len()]` equals `b` up to ASCII case.
pub fn matches_at(a: &[u8], from: usize, b: &[u8]) -> (r: bool)
    requires
        from + b@.len() <= a@.len(),
    ensures
        r == eq_ignore_case(a@.subrange(from as int, from + b@.len()), b@),
{
    let ghost w = a@.subrange(from as int, from + b@.len());
    let alen = a.len();
    let mut k: usize = 0;
    while k < b.len()
        invariant
            alen == a@.len(),
            k <= b@.len(),
            from + b@.len() <= a@.len(),
            w == a@.subrange(from as int, from + b@.len()),
            forall|t: int| 0 <= t < k ==> to_lower(#[trigger] w[t]) == to_lower(b@[t]),
        decreases b@.len() - k,
    {
        if lower(a[from + k]) != lower(b[k]) {
            assert(to_lower(w[k as int]) != to_lower(b@[k as int]));
            return false;
        }
        k = k + 1;
    }
    true
}

/// Whether `a` equals `b` up to ASCII case.
pub fn eq_ignore_ascii_case(a: &[u8], b: &[u8]) -> (r: bool)
    ensures
        r == eq_ignore_case(a@, b@),
{
    if a.len() != b.len() {
        return false;
    }
    assert(a@.subrange(0, b@.len() as int) =~= a@);
    matches_at(a, 0, b)
}

/// Whether `needle` occurs in `hay` up to ASCII case.
pub fn contains_ascii_ignore_case(hay: &[u8], needle: &[u8]) -> (r: bool)
    ensures
        r == contains_ignore_case(hay@, needle@),
{
    if needle.len() > hay.len() {
        return false;
    }
    let last = hay.len() - needle.len();
    let mut i: usize = 0;
    while i <= last
        invariant
            last + needle@.len() == hay@.len(),
            forall|t: int|
                0 <= t < i ==> !#[trigger] eq_ignore_case(
                    hay@.subrange(t, t + needle@.len()),
                    needle@,
                ),
        decreases last + 1 - i,
    {
        if matches_at(hay, i, needle) {
            return true;
        }
        if i == last {
            return false;
        }
        i = i + 1;
    }
    false
}

/// Whether `s` begins with `p`, byte for byte.
pub fn starts_with(s: &[u8], p: &[u8]) -> (r: bool)
    ensures
        r == has_prefix(s@, p@),
{
    if p.len() > s.len() {
        return false;
    }
    let mut k: usize = 0;
    while k < p.len()
        invariant
            k <= p@.len() <= s@.len(),
            forall|t: int| 0 <= t < k ==> s@[t] == p@[t],
        decreases p@.len() - k,
    {
        if s[k] != p[k] {
            assert(s@.subrange(0, p@.len() as int)[k as int] != p@[k as int]);
            return false;
        }
        k = k + 1;
    }
    assert(s@.subrange(0, p@.len() as int) =~= p@);
    true
}

/// Whether `a` and `b` are the same bytes.
pub fn same_bytes(a: &[u8], b: &[u8]) -> (r: bool)
    ensures
        r == (a@ == b@),
{
    if a.len() != b.len() {
        return false;
    }
    let r = starts_with(a, b);
    proof {
        if r {
            assert(a@.subrange(0, b@.len() as int) =~= a@);
        } else {
            assert(a@.subrange(0, b@.len() as int) =~= a@);
        }
    }
    r
}

pub fn digit_value(b: u8, radix: u8) -> (r: i16)
    requires
        radix == 10 || radix == 16,
    ensures
        r == digit_in(b, radix as int),
{
    if 48u8 <= b && b <= 57u8 {
        (b - 48) as i16
    } else if radix == 16 && 97u8 <= b && b <= 102u8 {
        (b - 87) as i16
    } else if radix == 16 && 65u8 <= b && b <= 70u8 {
        (b - 55) as i16
    } else {
        -1
    }
}

/// Parses an unsigned number in radix 10 or 16, as `from_str_radix` does for `usize`.
pub fn parse_usize(s: &[u8], radix: u8) -> (r: Option<usize>)
    requires
        radix == 10 || radix == 16,
    ensures
        r matches Some(v) ==> parse_unsigned(s@, radix as int, usize::MAX as int) == Some(v as int),
        r is None ==> parse_unsigned(s@, radix as int, usize::MAX as int) is None,
{
    let ghost d = unsigned_digits(s@);
    let start: usize = if s.len() > 0 && s[0] == 43u8 {
        1
    } else {
        0
    };
    assert(d =~= s@.subrange(start as int, s@.len() as int));
    if start >= s.len() {
        return None;
    }
    let mut acc: usize = 0;
    let mut k: usize = start;
    while k < s.len()
        invariant
            start <= k <= s@.len(),
            d == s@.subrange(start as int, s@.len() as int),
            d == unsigned_digits(s@),
            radix == 10 || radix == 16,
            all_digits(s@.subrange(start as int, k as int), radix as int),
            acc as int == digits_value(s@.subrange(start as int, k as int), radix as int),
        decreases s@.len() - k,
    {
        let ghost pre = s@.subrange(start as int, k as int);
        let ghost next = s@.subrange(start as int, k + 1);
        assert(next.drop_last() =~= pre);
        let v = digit_value(s[k], radix);
        if v < 0 {
            proof {
                assert(d[k - start] == s@[k as int]);
                assert(digit_in(d[k - start], radix as int) < 0);
                assert(!all_digits(d, radix as int));
            }
            return None;
        }
        if acc > (usize::MAX - v as usize) / (radix as usize) {
            proof {
                assert(digits_value(next, radix as int) > usize::MAX) by (nonlinear_arith)
                    requires
                        digits_value(next, radix as int) == acc * radix + v,
                        acc > (usize::MAX - v) / (radix as int),
                        v >= 0,
                        radix > 0,
                ;
                assert(d.subrange(0, (k + 1 - start) as int) =~= next);
                if all_digits(d, radix as int) {
                    lemma_digits_value_grows(d, (k + 1 - start) as int, radix as int);
                }
            }
            return None;
        }
        proof {
            assert((acc * radix + v) <= usize::MAX) by (nonlinear_arith)
                requires
                    acc <= (usize::MAX - v) / (radix as int),
                    v >= 0,
                    radix > 0,
            ;
            assert(all_digits(next, radix as int)) by {
                assert forall|i: int| 0 <= i < next.len() implies 0 <= #[trigger] digit_in(
                    next[i],
                    radix as int,
                ) by {
                    if i < pre.len() {
                        assert(next[i] == pre[i]);
                    }
                }
            }
        }
        acc = acc * (radix as usize) + v as usize;
        k = k + 1;
    }
    assert(s@.subrange(start as int, k as int) =~= d);
    Some(acc)
}

/// Digit values only grow as digits are appended.
proof fn lemma_digits_value_grows(d: Seq<u8>, m: int, radix: int)
    requires
        0 <= m <= d.len(),
        radix == 10 || radix == 16,
        all_digits(d, radix),
    ensures
        digits_value(d.subrange(0, m), radix) <= digits_value(d, radix),
    decreases d.len() - m,
{
    if m < d.len() {
        lemma_digits_value_grows(d, m + 1, radix);
        let a = d.subrange(0, m);
        let b = d.subrange(0, m + 1);
        assert(b.drop_last() =~= a);
        assert(0 <= digit_in(d[m], radix));
        assert(b.last() == d[m]);
        lemma_digits_nonneg(a, radix);
        assert(digits_value(a, radix) <= digits_value(a, radix) * radix) by (nonlinear_arith)
            requires
                digits_value(a, radix) >= 0,
                radix >= 1,
        ;
    } else {
        assert(d.subrange(0, m) =~= d);
    }
}

proof fn lemma_digits_nonneg(d: Seq<u8>, radix: int)
    requires
        radix == 10 || radix == 16,
        all_digits(d, radix),
    ensures
        digits_value(d, radix) >= 0,
    decreases d.len(),
{
    if d.len() > 0 {
        assert(all_digits(d.drop_last(), radix)) by {
            assert forall|i: int| 0 <= i < d.drop_last().len() implies 0 <= #[trigger] digit_in(
                d.drop_last()[i],
                radix,
            ) by {
                assert(d.drop_last()[i] == d[i]);
            }
        }
        lemma_digits_nonneg(d.drop_last(), radix);
        assert(0 <= digit_in(d[d.len() - 1], radix));
        assert(digits_value(d.drop_last(), radix) * radix >= 0) by (nonlinear_arith)
            requires
                digits_value(d.drop_last(), radix) >= 0,
                radix >= 1,
        ;
    }
}

/// Appends the decimal digits of `n` to `out`.
pub fn push_decimal(out: &mut Vec<u8>, n: usize)
    ensures
        final(out)@ == old(out)@ + decimal_of(n as nat),
    decreases n,
{
    if n >= 10 {
        push_decimal(out, n / 10);
    }
    out.push(48u8 + (n % 10) as u8);
    proof {
        if n < 10 {
            assert(decimal_of(n as nat) =~= seq![(48 + n) as u8]);
        }
        assert(final(out)@ =~= old(out)@ + decimal_of(n as nat));
    }
}

/// Appends the lowercase hexadecimal digits of `n` to `out`.
pub fn push_hex(out: &mut Vec<u8>, n: usize)
    ensures
        final(out)@ == old(out)@ + hex_of(n as nat),
    decreases n,
{
    if n >= 16 {
        push_hex(out, n / 16);
    }
    let d: u8 = (n % 16) as u8;
    let c: u8 = if d < 10 {
        48u8 + d
    } else {
        87u8 + d
    };
    out.push(c);
    proof {
        if n < 16 {
            assert(hex_of(n as nat) =~= seq![hex_char(n as nat)]);
        }
        assert(final(out)@ =~= old(out)@ + hex_of(n as nat));
    }
}

} // verus!
