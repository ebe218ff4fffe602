//! Character-level helpers shared by the parser and the serialiser.

use vstd::prelude::*;
use vstd::string::*;

verus! {

/// `String::push` appends the character to the end of the string.
pub assume_specification[ String::push ](s: &mut String, c: char)
    ensures
        final(s)@ == old(s)@.push(c),
;

/// The characters of `s`, in order.
pub fn to_chars(s: &str) -> (v: Vec<char>)
    ensures
        v@ == s@,
{
    broadcast use vstd::string::axiom_spec_iter;

    let mut v: Vec<char> = Vec::new();
    for c in it: s.chars()
        invariant
            it.seq() == s@,
            v@ == it.seq().take(it.index() as int),
    {
        v.push(c);
    }
    v
}

/// The string made of `chars[from..to]`.
pub fn string_of(chars: &Vec<char>, from: usize, to: usize) -> (s: String)
    requires
        from <= to <= chars.len(),
    ensures
        s@ == chars@.subrange(from as int, to as int),
{
    let mut s = String::new();
    let mut i: usize = from;
    while i < to
        invariant
            from <= i <= to <= chars.len(),
            s@ == chars@.subrange(from as int, i as int),
        decreases to - i,
    {
        s.push(chars[i]);
        assert(chars@.subrange(from as int, i as int).push(chars@[i as int])
            =~= chars@.subrange(from as int, i as int + 1));
        i += 1;
    }
    s
}

/// A copy of `chars[from..to]`.
pub fn sub_chars(chars: &Vec<char>, from: usize, to: usize) -> (v: Vec<char>)
    requires
        from <= to <= chars.len(),
    ensures
        v@ == chars@.subrange(from as int, to as int),
{
    let mut v: Vec<char> = Vec::new();
    let mut i: usize = from;
    while i < to
        invariant
            from <= i <= to <= chars.len(),
            v@ == chars@.subrange(from as int, i as int),
        decreases to - i,
    {
        v.push(chars[i]);
        assert(chars@.subrange(from as int, i as int).push(chars@[i as int])
            =~= chars@.subrange(from as int, i as int + 1));
        i += 1;
    }
    v
}

/// The characters that trimming removes: those with the Unicode property
/// `White_Space`.
pub open spec fn white_space(c: char) -> bool {
    let n = c as u32;
    ||| 0x09 <= n <= 0x0d
    ||| n == 0x20
    ||| n == 0x85
    ||| n == 0xa0
    ||| n == 0x1680
    ||| 0x2000 <= n <= 0x200a
    ||| n == 0x2028
    ||| n == 0x2029
    ||| n == 0x202f
    ||| n == 0x205f
    ||| n == 0x3000
}

/// Whether trimming removes `c`.
pub fn is_white_space(c: char) -> (r: bool)
    ensures
        r == white_space(c),
{
    let n: u32 = c as u32;
    (0x09 <= n && n <= 0x0d) || n == 0x20 || n == 0x85 || n == 0xa0 || n == 0x1680 || (0x2000 <= n
        && n <= 0x200a) || n == 0x2028 || n == 0x2029 || n == 0x202f || n == 0x205f || n == 0x3000
}

/// The position of the first character at or after `from` that is no white
/// space; the length where there is none.
pub open spec fn trim_start(s: Seq<char>, from: int) -> int
    decreases s.len() - from,
{
    if from >= s.len() {
        s.len() as int
    } else if !white_space(s[from]) {
        from
    } else {
        trim_start(s, from + 1)
    }
}

/// The position after the last character before `to` that is no white
/// space, and not less than `low`.
pub open spec fn trim_end(s: Seq<char>, low: int, to: int) -> int
    decreases to - low,
{
    if to <= low {
        low
    } else if !white_space(s[to - 1]) {
        to
    } else {
        trim_end(s, low, to - 1)
    }
}

/// `s` without the white space at its two ends.
pub open spec fn trimmed(s: Seq<char>) -> Seq<char> {
    let start = trim_start(s, 0);
    s.subrange(start, trim_end(s, start, s.len() as int))
}

/// The two positions are in order and inside the sequence.
pub proof fn lemma_trim_bounds(s: Seq<char>, from: int, to: int)
    requires
        0 <= from <= to <= s.len(),
    ensures
        from <= trim_start(s, from) <= s.len(),
        from <= trim_end(s, from, to) <= to,
    decreases s.len() - from, to - from,
{
    if from < s.len() && white_space(s[from]) {
        lemma_trim_bounds(s, from + 1, s.len() as int);
    }
    if to > from && white_space(s[to - 1]) {
        lemma_trim_bounds(s, from, to - 1);
    }
}

/// Where trimming stops at the front, there is no white space.
pub proof fn lemma_trim_start_stops(s: Seq<char>, from: int)
    requires
        0 <= from,
    ensures
        trim_start(s, from) < s.len() ==> !white_space(s[trim_start(s, from)]),
    decreases s.len() - from,
{
    if from < s.len() && white_space(s[from]) {
        lemma_trim_start_stops(s, from + 1);
    }
}

/// Where trimming stops at the back, there is no white space.
pub proof fn lemma_trim_end_stops(s: Seq<char>, low: int, to: int)
    ensures
        trim_end(s, low, to) > low ==> !white_space(s[trim_end(s, low, to) - 1]),
    decreases to - low,
{
    if to > low && white_space(s[to - 1]) {
        lemma_trim_end_stops(s, low, to - 1);
    }
}

/// Trimming what has been trimmed changes nothing.
pub proof fn lemma_trimmed_idempotent(s: Seq<char>)
    ensures
        trimmed(trimmed(s)) == trimmed(s),
{
    let a = trim_start(s, 0);
    lemma_trim_bounds(s, 0, s.len() as int);
    lemma_trim_bounds(s, a, s.len() as int);
    let b = trim_end(s, a, s.len() as int);
    let r = trimmed(s);
    lemma_trim_start_stops(s, 0);
    lemma_trim_end_stops(s, a, s.len() as int);
    if a < b {
        assert(r[0] == s[a]);
        assert(r[r.len() - 1] == s[b - 1]);
        assert(trim_start(r, 0) == 0);
        assert(trim_end(r, 0, r.len() as int) == r.len());
        assert(r.subrange(0, r.len() as int) =~= r);
    } else {
        assert(r.len() == 0);
        assert(trim_start(r, 0) == 0);
        assert(trim_end(r, 0, 0) == 0);
        assert(r.subrange(0, 0) =~= r);
    }
}

/// The string made of `chars[from..]` without the white space at its two ends.
pub fn trimmed_string(chars: &Vec<char>, from: usize) -> (s: String)
    requires
        from <= chars.len(),
    ensures
        s@ == trimmed(chars@.skip(from as int)),
{
    let ghost rest = chars@.skip(from as int);
    let mut start: usize = from;
    while start < chars.len() && is_white_space(chars[start])
        invariant
            from <= start <= chars.len(),
            rest == chars@.skip(from as int),
            trim_start(rest, start - from) == trim_start(rest, 0),
        decreases chars.len() - start,
    {
        start += 1;
    }
    let mut end: usize = chars.len();
    while end > start && is_white_space(chars[end - 1])
        invariant
            from <= start <= end <= chars.len(),
            rest == chars@.skip(from as int),
            trim_end(rest, start - from, end - from) == trim_end(
                rest,
                start - from,
                rest.len() as int,
            ),
        decreases end - start,
    {
        end -= 1;
    }
    assert(rest.subrange(start - from, end - from) =~= chars@.subrange(start as int, end as int));
    string_of(chars, start, end)
}

/// The character of one decimal digit.
pub open spec fn digit_char(d: nat) -> char {
    if d == 0 {
        '0'
    } else if d == 1 {
        '1'
    } else if d == 2 {
        '2'
    } else if d == 3 {
        '3'
    } else if d == 4 {
        '4'
    } else if d == 5 {
        '5'
    } else if d == 6 {
        '6'
    } else if d == 7 {
        '7'
    } else if d == 8 {
        '8'
    } else {
        '9'
    }
}

/// The decimal digits of a number, without leading zeros; `0` for zero.
pub open spec fn decimal(n: nat) -> Seq<char>
    decreases n,
{
    if n < 10 {
        seq![digit_char(n)]
    } else {
        decimal(n / 10).push(digit_char(n % 10))
    }
}

/// The decimal digits of a number, with a leading zero below ten.
pub open spec fn two_digits(n: nat) -> Seq<char> {
    if n < 10 {
        seq!['0', digit_char(n)]
    } else {
        decimal(n)
    }
}

/// A time as `[hh:mm:ss]`; the hours take as many digits as they need.
pub open spec fn clock(seconds: nat) -> Seq<char> {
    seq!['['] + two_digits(seconds / 3600) + seq![':'] + two_digits((seconds % 3600) / 60) + seq![
        ':',
    ] + two_digits(seconds % 60) + seq![']']
}

/// The character of one decimal digit.
pub fn digit(d: u8) -> (c: char)
    requires
        d < 10,
    ensures
        c == digit_char(d as nat),
{
    if d == 0 {
        '0'
    } else if d == 1 {
        '1'
    } else if d == 2 {
        '2'
    } else if d == 3 {
        '3'
    } else if d == 4 {
        '4'
    } else if d == 5 {
        '5'
    } else if d == 6 {
        '6'
    } else if d == 7 {
        '7'
    } else if d == 8 {
        '8'
    } else {
        '9'
    }
}

/// Appends the decimal digits of `n` to `s`.
pub fn push_decimal(s: &mut String, n: u64)
    ensures
        final(s)@ == old(s)@ + decimal(n as nat),
    decreases n,
{
    if n >= 10 {
        push_decimal(s, n / 10);
    }
    s.push(digit((n % 10) as u8));
    proof {
        if n >= 10 {
            assert(final(s)@ =~= old(s)@ + decimal(n as nat));
        } else {
            assert(final(s)@ =~= old(s)@ + decimal(n as nat));
        }
    }
}

/// Appends the decimal digits of `n` to `s`, with a leading zero below ten.
pub fn push_two_digits(s: &mut String, n: u64)
    ensures
        final(s)@ == old(s)@ + two_digits(n as nat),
{
    if n < 10 {
        s.push('0');
        s.push(digit(n as u8));
        assert(s@ =~= old(s)@ + two_digits(n as nat));
    } else {
        push_decimal(s, n);
    }
}

/// The decimal digits of `n`.
pub fn decimal_string(n: u64) -> (s: String)
    ensures
        s@ == decimal(n as nat),
{
    let mut s = String::new();
    push_decimal(&mut s, n);
    assert(s@ =~= decimal(n as nat));
    s
}

/// A number of seconds as `[hh:mm:ss]`.
pub fn clock_string(seconds: u64) -> (s: String)
    ensures
        s@ == clock(seconds as nat),
{
    let hours = seconds / 3600;
    let minutes = (seconds % 3600) / 60;
    let rest = seconds % 60;
    let mut s = String::new();
    s.push('[');
    push_two_digits(&mut s, hours);
    s.push(':');
    push_two_digits(&mut s, minutes);
    s.push(':');
    push_two_digits(&mut s, rest);
    s.push(']');
    assert(s@ =~= clock(seconds as nat));
    s
}

} // verus!
