//! Character-level helpers shared by the parsers and renderers: decimal
//! numbers, zero padding, clock times and conversions between `str`, `String`
//! and character vectors.

use vstd::prelude::*;

verus! {

/// The characters of `s`, in order.
pub fn chars_of(s: &str) -> (r: Vec<char>)
    ensures
        r@ == s@,
{
    let mut r: Vec<char> = Vec::new();
    for c in it: s.chars()
        invariant
            it.seq() == s@,
            r@ == s@.take(it.index() as int),
    {
        r.push(c);
    }
    assert(r@ =~= s@);
    r
}

/// Relies on `String`'s `FromIterator<char>`: the string made of these characters.
#[verifier::external_body]
pub(crate) fn string_of(v: &Vec<char>) -> (r: String)
    ensures
        r@ == v@,
{
    v.iter().collect()
}

pub open spec fn is_digit(c: char) -> bool {
    '0' <= c <= '9'
}

pub open spec fn digit_value(c: char) -> nat {
    (c as u32 - '0' as u32) as nat
}

pub open spec fn digit_char(d: nat) -> char {
    if d == 0 {
        '0'
    } else if d == 1 {
        '1'
    } else if d == 2 {
        '2'
    } else if d == 3 {
        '3'
    } else if d == 4 {
        '4'
    } else if d == 5 {
        '5'
    } else if d == 6 {
        '6'
    } else if d == 7 {
        '7'
    } else if d == 8 {
        '8'
    } else {
        '9'
    }
}

/// The decimal digits of `n`, without leading zeros (`"0"` for zero).
pub open spec fn decimal(n: nat) -> Seq<char>
    decreases n,
{
    if n < 10 {
        seq![digit_char(n)]
    } else {
        decimal(n / 10).push(digit_char(n % 10))
    }
}

/// `n` in decimal, left-padded with zeros to at least `width` characters.
pub open spec fn padded(n: nat, width: nat) -> Seq<char> {
    if decimal(n).len() < width {
        Seq::new((width - decimal(n).len()) as nat, |i: int| '0') + decimal(n)
    } else {
        decimal(n)
    }
}

/// The number written by a run of decimal digits.
pub open spec fn value_of(s: Seq<char>) -> nat
    decreases s.len(),
{
    if s.len() == 0 {
        0
    } else {
        value_of(s.drop_last()) * 10 + digit_value(s.last())
    }
}

pub open spec fn all_digits(s: Seq<char>) -> bool {
    forall|i: int| 0 <= i < s.len() ==> is_digit(#[trigger] s[i])
}

fn digit(d: u128) -> (c: char)
    requires
        d < 10,
    ensures
        c == digit_char(d as nat),
{
    if d == 0 {
        '0'
    } else if d == 1 {
        '1'
    } else if d == 2 {
        '2'
    } else if d == 3 {
        '3'
    } else if d == 4 {
        '4'
    } else if d == 5 {
        '5'
    } else if d == 6 {
        '6'
    } else if d == 7 {
        '7'
    } else if d == 8 {
        '8'
    } else {
        '9'
    }
}

/// Appends the decimal digits of `n`.
pub fn push_decimal(out: &mut Vec<char>, n: u128)
    ensures
        final(out)@ == old(out)@ + decimal(n as nat),
    decreases n,
{
    if n >= 10 {
        push_decimal(out, n / 10);
    }
    out.push(digit(n % 10));
    assert(final(out)@ =~= old(out)@ + decimal(n as nat));
}

/// Appends `n` in decimal, zero-padded to at least `width` characters.
pub fn push_padded(out: &mut Vec<char>, n: u64, width: usize)
    ensures
        final(out)@ == old(out)@ + padded(n as nat, width as nat),
{
    let mut digits: Vec<char> = Vec::new();
    push_decimal(&mut digits, n as u128);
    assert(digits@ =~= decimal(n as nat));
    let mut k: usize = digits.len();
    let ghost start = out@;
    while k < width
        invariant
            digits@ == decimal(n as nat),
            digits.len() <= k <= width || (k == digits.len() && k >= width),
            out@ == start + Seq::new((k - digits.len()) as nat, |i: int| '0'),
        decreases width - k,
    {
        out.push('0');
        k = k + 1;
        assert(out@ =~= start + Seq::new((k - digits.len()) as nat, |i: int| '0'));
    }
    out.append(&mut digits);
    assert(out@ =~= start + padded(n as nat, width as nat));
}

/// Appends the characters of `s`.
pub fn push_str(out: &mut Vec<char>, s: &str)
    ensures
        final(out)@ == old(out)@ + s@,
{
    let mut c = chars_of(s);
    out.append(&mut c);
}

/// A signed number of milliseconds as `[-]HH:MM:SS.mmm`.
pub open spec fn clock_text(ms: int) -> Seq<char> {
    let a: nat = if ms < 0 { (-ms) as nat } else { ms as nat };
    (if ms < 0 { seq!['-'] } else { Seq::<char>::empty() })
        + padded(a / 3600000, 2) + seq![':']
        + padded((a / 60000) % 60, 2) + seq![':']
        + padded((a / 1000) % 60, 2) + seq!['.']
        + padded(a % 1000, 3)
}

/// Appends a signed number of milliseconds as `[-]HH:MM:SS.mmm`.
pub fn push_clock(out: &mut Vec<char>, ms: i64)
    ensures
        final(out)@ == old(out)@ + clock_text(ms as int),
{
    let ghost start = out@;
    let a: u64 = if ms < 0 { (0i128 - ms as i128) as u64 } else { ms as u64 };
    if ms < 0 {
        out.push('-');
    }
    let ghost signed = out@;
    push_padded(out, a / 3600000, 2);
    out.push(':');
    push_padded(out, (a / 60000) % 60, 2);
    out.push(':');
    push_padded(out, (a / 1000) % 60, 2);
    out.push('.');
    push_padded(out, a % 1000, 3);
    assert(out@ =~= start + clock_text(ms as int));
}

/// A signed duration in milliseconds as `[-]HH:MM:SS.mmm`, the form the
/// multiplexer and subtitle files take for offsets and cue times.
pub fn format_time_delta(ms: i64) -> (r: String)
    ensures
        r@ == clock_text(ms as int),
{
    let mut v: Vec<char> = Vec::new();
    push_clock(&mut v, ms);
    assert(v@ =~= clock_text(ms as int));
    string_of(&v)
}

/// Reads the run of digits `s[from..to]` as a number; `None` when it does not fit in 64 bits.
pub fn parse_digits(s: &Vec<char>, from: usize, to: usize) -> (r: Option<u64>)
    requires
        from <= to <= s.len(),
        all_digits(s@.subrange(from as int, to as int)),
    ensures
        r == (if value_of(s@.subrange(from as int, to as int)) <= u64::MAX {
            Some(value_of(s@.subrange(from as int, to as int)) as u64)
        } else {
            None::<u64>
        }),
{
    let mut acc: u128 = 0;
    let mut i: usize = from;
    while i < to
        invariant
            from <= i <= to <= s.len(),
            all_digits(s@.subrange(from as int, to as int)),
            acc == value_of(s@.subrange(from as int, i as int)),
            acc <= u64::MAX,
        decreases to - i,
    {
        assert(s@.subrange(from as int, i + 1).drop_last() =~= s@.subrange(from as int, i as int));
        assert(is_digit(s@.subrange(from as int, to as int)[i - from]));
        let d = (s[i] as u32 - '0' as u32) as u128;
        acc = acc * 10 + d;
        i = i + 1;
        if acc > u64::MAX as u128 {
            proof {
                lemma_value_grows(s@.subrange(from as int, to as int), i - from);
                assert(s@.subrange(from as int, to as int).take(i - from) =~= s@.subrange(from as int, i as int));
                assert(s@.subrange(from as int, to as int).take(to - from) =~= s@.subrange(from as int, to as int));
            }
            return None;
        }
    }
    Some(acc as u64)
}

/// A longer run of digits never writes a smaller number.
pub proof fn lemma_value_grows(s: Seq<char>, k: int)
    requires
        0 <= k <= s.len(),
    ensures
        value_of(s.take(k)) <= value_of(s),
    decreases s.len() - k,
{
    if k < s.len() {
        lemma_value_grows(s, k + 1);
        assert(s.take(k + 1).drop_last() =~= s.take(k));
        let v = value_of(s.take(k));
        assert(v * 10 >= v) by (nonlinear_arith);
    } else {
        assert(s.take(k) =~= s);
    }
}

/// A number's decimal form is never empty and starts with a digit.
pub proof fn lemma_decimal_starts_with_digit(n: nat)
    ensures
        decimal(n).len() >= 1,
        is_digit(decimal(n)[0]),
    decreases n,
{
    if n >= 10 {
        lemma_decimal_starts_with_digit(n / 10);
    }
}

/// The end of the run of digits that starts at `i`.
pub open spec fn run_end(s: Seq<char>, i: int) -> int
    decreases s.len() - i,
{
    if 0 <= i < s.len() && is_digit(s[i]) {
        run_end(s, i + 1)
    } else {
        i
    }
}

proof fn lemma_run_end(s: Seq<char>, i: int)
    requires
        0 <= i <= s.len(),
    ensures
        i <= run_end(s, i) <= s.len(),
        all_digits(s.subrange(i, run_end(s, i))),
        run_end(s, i) < s.len() ==> !is_digit(s[run_end(s, i)]),
    decreases s.len() - i,
{
    if i < s.len() && is_digit(s[i]) {
        lemma_run_end(s, i + 1);
        let e = run_end(s, i);
        assert forall|k: int| 0 <= k < e - i implies is_digit(#[trigger] s.subrange(i, e)[k]) by {
            if k > 0 {
                assert(s.subrange(i, e)[k] == s.subrange(i + 1, e)[k - 1]);
            }
        }
    }
}

/// Where the run of digits starting at `i` ends.
pub fn digit_run_end(s: &Vec<char>, i: usize) -> (r: usize)
    requires
        i <= s.len(),
    ensures
        r == run_end(s@, i as int),
        i <= r <= s.len(),
        all_digits(s@.subrange(i as int, r as int)),
{
    proof { lemma_run_end(s@, i as int); }
    let mut j: usize = i;
    while j < s.len() && '0' <= s[j] && s[j] <= '9'
        invariant
            i <= j <= s.len(),
            run_end(s@, i as int) == run_end(s@, j as int),
        decreases s.len() - j,
    {
        j = j + 1;
    }
    j
}

/// Milliseconds written by the digits after a decimal point: the first
/// three count, missing ones are zeros.
pub open spec fn frac_ms(d: Seq<char>) -> nat {
    if d.len() >= 3 {
        value_of(d.take(3))
    } else if d.len() == 2 {
        value_of(d) * 10
    } else if d.len() == 1 {
        value_of(d) * 100
    } else {
        0
    }
}

/// A clock time `H:M:S.F` (each part one or more digits) starting at `i`:
/// its value in milliseconds and where it ends.
pub open spec fn clock_at(s: Seq<char>, i: int) -> Option<(nat, int)> {
    let a = run_end(s, i);
    let b = run_end(s, a + 1);
    let c = run_end(s, b + 1);
    let d = run_end(s, c + 1);
    if a == i || a >= s.len() || s[a] != ':' {
        None
    } else if b == a + 1 || b >= s.len() || s[b] != ':' {
        None
    } else if c == b + 1 || c >= s.len() || s[c] != '.' {
        None
    } else if d == c + 1 {
        None
    } else {
        Some((
            value_of(s.subrange(i, a)) * 3600000 + value_of(s.subrange(a + 1, b)) * 60000
                + value_of(s.subrange(b + 1, c)) * 1000 + frac_ms(s.subrange(c + 1, d)),
            d,
        ))
    }
}

/// A clock time parsed at `i`, when one stands there and fits in 64 bits.
pub open spec fn clock_parsed(s: Seq<char>, i: int) -> Option<(u64, usize)> {
    match clock_at(s, i) {
        Some((v, e)) => if v <= u64::MAX { Some((v as u64, e as usize)) } else { None },
        None => None,
    }
}

fn frac_millis(s: &Vec<char>, from: usize, to: usize) -> (r: u64)
    requires
        from < to <= s.len(),
        all_digits(s@.subrange(from as int, to as int)),
    ensures
        r == frac_ms(s@.subrange(from as int, to as int)),
        r < 1000,
{
    let n = to - from;
    let end = if n >= 3 { from + 3 } else { to };
    assert(all_digits(s@.subrange(from as int, end as int))) by {
        assert forall|k: int| 0 <= k < end - from implies is_digit(#[trigger] s@.subrange(from as int, end as int)[k]) by {
            assert(s@.subrange(from as int, end as int)[k] == s@.subrange(from as int, to as int)[k]);
        }
    }
    proof { lemma_value_bound(s@.subrange(from as int, end as int)); }
    let v = parse_digits(s, from, end).unwrap();
    if n >= 3 {
        assert(s@.subrange(from as int, to as int).take(3) =~= s@.subrange(from as int, end as int));
        v
    } else if n == 2 {
        v * 10
    } else {
        v * 100
    }
}

/// Up to three digits write a number below 1000.
proof fn lemma_value_bound(s: Seq<char>)
    requires
        s.len() <= 3,
        all_digits(s),
    ensures
        s.len() == 0 ==> value_of(s) == 0,
        s.len() == 1 ==> value_of(s) < 10,
        s.len() == 2 ==> value_of(s) < 100,
        s.len() == 3 ==> value_of(s) < 1000,
    decreases s.len(),
{
    if s.len() > 0 {
        assert(all_digits(s.drop_last())) by {
            assert forall|k: int| 0 <= k < s.len() - 1 implies is_digit(#[trigger] s.drop_last()[k]) by {
                assert(s.drop_last()[k] == s[k]);
            }
        }
        lemma_value_bound(s.drop_last());
        assert(is_digit(s[s.len() - 1]));
    }
}

/// Reads a clock time `H:M:S.F` at `i`.
pub fn parse_clock(s: &Vec<char>, i: usize) -> (r: Option<(u64, usize)>)
    requires
        i <= s.len(),
    ensures
        r == clock_parsed(s@, i as int),
{
    let a = digit_run_end(s, i);
    if a == i || a >= s.len() || s[a] != ':' {
        return None;
    }
    let b = digit_run_end(s, a + 1);
    if b == a + 1 || b >= s.len() || s[b] != ':' {
        return None;
    }
    let c = digit_run_end(s, b + 1);
    if c == b + 1 || c >= s.len() || s[c] != '.' {
        return None;
    }
    let d = digit_run_end(s, c + 1);
    if d == c + 1 {
        return None;
    }
    let f = frac_millis(s, c + 1, d);
    let h = parse_digits(s, i, a);
    let m = parse_digits(s, a + 1, b);
    let sec = parse_digits(s, b + 1, c);
    match (h, m, sec) {
        (Some(h), Some(m), Some(sec)) => {
            let total: u128 = h as u128 * 3600000 + m as u128 * 60000 + sec as u128 * 1000 + f as u128;
            if total > u64::MAX as u128 {
                None
            } else {
                Some((total as u64, d))
            }
        },
        _ => None,
    }
}

} // verus!
