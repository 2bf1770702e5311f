//! Dates as the command line takes them.

use crate::text::{chars_of, push_char, trim_chars, trimmed};
use vstd::prelude::*;

verus! {

/// Whether `c` is a decimal digit.
pub open spec fn is_digit(c: char) -> bool {
    '0' <= c && c <= '9'
}

/// The number that a sequence of digits writes.
pub open spec fn digits_value(s: Seq<char>) -> nat
    decreases s.len(),
{
    if s.len() == 0 {
        0
    } else {
        digits_value(s.drop_last()) * 10 + ((s.last() as int) - ('0' as int)) as nat
    }
}

/// Whether every character of `s` is a digit.
pub open spec fn all_digits(s: Seq<char>) -> bool {
    forall|i: int| 0 <= i < s.len() ==> is_digit(#[trigger] s[i])
}

/// `s` without the `+` that may stand at its start.
pub open spec fn unsigned_part(s: Seq<char>) -> Seq<char> {
    if s.len() > 0 && s[0] == '+' {
        s.drop_first()
    } else {
        s
    }
}

/// The number that `s` writes: digits, at least one, after at most one `+`.
pub open spec fn parse_number(s: Seq<char>) -> Option<nat> {
    let body = unsigned_part(s);
    if body.len() > 0 && all_digits(body) {
        Some(digits_value(body))
    } else {
        None
    }
}

/// The position of the first `-` at or after `from`, or the length of `t`
/// where there is none.
pub open spec fn find_dash(t: Seq<char>, from: int) -> int
    decreases t.len() - from,
{
    if from < 0 || from >= t.len() {
        t.len() as int
    } else if t[from] == '-' {
        from
    } else {
        find_dash(t, from + 1)
    }
}

/// The character of a digit.
pub open spec fn digit_char(d: nat) -> char {
    (('0' as int) + (d % 10)) as char
}

/// A number below a hundred in two digits.
pub open spec fn two_digits(n: nat) -> Seq<char> {
    seq![digit_char(n / 10), digit_char(n)]
}

/// A number below ten thousand in four digits.
pub open spec fn four_digits(n: nat) -> Seq<char> {
    seq![digit_char(n / 1000), digit_char(n / 100), digit_char(n / 10), digit_char(n)]
}

/// A date in the form year, month, day from its three numbers, where the
/// year is from 1900 to 2100, the month from 1 to 12 and the day from 1
/// to 31.
pub open spec fn date_of(year: Option<nat>, month: Option<nat>, day: Option<nat>) -> Option<Seq<char>> {
    match (year, month, day) {
        (Some(y), Some(m), Some(d)) => if 1900 <= y <= 2100 && 1 <= m <= 12 && 1 <= d <= 31 {
            Some(four_digits(y) + seq!['-'] + two_digits(m) + seq!['-'] + two_digits(d))
        } else {
            None
        },
        _ => None,
    }
}

/// The date that `s` writes, in the form year, month, day.
///
/// After the white space at both ends is dropped, `s` must have ten
/// characters in three parts divided by `-`: year, month, day where the
/// first part has four characters, else month, day, year where the last has.
pub open spec fn normalized_date(s: Seq<char>) -> Option<Seq<char>> {
    let t = trimmed(s);
    let p = find_dash(t, 0);
    let q = find_dash(t, p + 1);
    if t.len() != 10 || p >= t.len() || q >= t.len() || find_dash(t, q + 1) < t.len() {
        None
    } else {
        let a = t.subrange(0, p);
        let b = t.subrange(p + 1, q);
        let c = t.subrange(q + 1, t.len() as int);
        if a.len() == 4 {
            date_of(parse_number(a), parse_number(b), parse_number(c))
        } else if c.len() == 4 {
            date_of(parse_number(c), parse_number(a), parse_number(b))
        } else {
            None
        }
    }
}

/// Finds the first `-` at or after `from`.
fn first_dash(t: &Vec<char>, from: usize) -> (r: usize)
    requires
        from <= t.len(),
    ensures
        r == find_dash(t@, from as int),
        from <= r <= t.len(),
{
    let mut i = from;
    while i < t.len() && t[i] != '-'
        invariant
            from <= i <= t.len(),
            find_dash(t@, i as int) == find_dash(t@, from as int),
        decreases t.len() - i,
    {
        i = i + 1;
    }
    i
}

proof fn lemma_digits_bound(s: Seq<char>)
    requires
        forall|i: int| 0 <= i < s.len() ==> is_digit(#[trigger] s[i]),
        s.len() <= 8,
    ensures
        digits_value(s) < 100000000,
        s.len() <= 4 ==> digits_value(s) < 10000,
{
    lemma_digits_pow(s);
    reveal_with_fuel(pow10, 10);
}

spec fn pow10(k: nat) -> nat
    decreases k,
{
    if k == 0 {
        1
    } else {
        10 * pow10((k - 1) as nat)
    }
}

proof fn lemma_digits_pow(s: Seq<char>)
    requires
        forall|i: int| 0 <= i < s.len() ==> is_digit(#[trigger] s[i]),
    ensures
        digits_value(s) < pow10(s.len()),
    decreases s.len(),
{
    if s.len() > 0 {
        lemma_digits_pow(s.drop_last());
        assert(is_digit(s.last()));
    }
}

/// Reads the number that the characters from `from` to `to` write.
fn parse_part(t: &Vec<char>, from: usize, to: usize) -> (r: Option<u32>)
    requires
        from <= to <= t.len(),
        to - from <= 8,
    ensures
        r.is_some() == parse_number(t@.subrange(from as int, to as int)).is_some(),
        r matches Some(v) ==> parse_number(t@.subrange(from as int, to as int)) == Some(v as nat),
{
    let ghost part = t@.subrange(from as int, to as int);
    let start = if from < to && t[from] == '+' {
        from + 1
    } else {
        from
    };
    let ghost body = t@.subrange(start as int, to as int);
    assert(body =~= unsigned_part(part));
    if start == to {
        return None;
    }
    let mut acc: u32 = 0;
    let mut i = start;
    while i < to
        invariant
            start <= i <= to <= t.len(),
            to - start <= 8,
            from <= start,
            part == t@.subrange(from as int, to as int),
            body == t@.subrange(start as int, to as int),
            body == unsigned_part(part),
            forall|k: int| 0 <= k < i - start ==> is_digit(#[trigger] body[k]),
            acc == digits_value(body.subrange(0, i - start)),
            acc < 100000000,
        decreases to - i,
    {
        let c = t[i];
        assert(body[i - start] == c);
        if !('0' <= c && c <= '9') {
            proof {
                let k = i - start;
                assert(0 <= k < body.len());
                assert(!is_digit(body[k]));
                assert(parse_number(part).is_none());
            }
            return None;
        }
        let d: u32 = c as u32 - '0' as u32;
        proof {
            let next = body.subrange(0, i - start + 1);
            assert(next.drop_last() =~= body.subrange(0, i - start));
            assert(next.last() == c);
            lemma_digits_bound(next);
        }
        acc = acc * 10 + d;
        i = i + 1;
    }
    assert(body.subrange(0, to - start) =~= body);
    Some(acc)
}

/// Appends the digit of `n % 10`.
fn put_digit(out: &mut String, n: u32)
    ensures
        final(out)@ == old(out)@.push(digit_char(n as nat)),
{
    let d: u8 = (n % 10) as u8;
    let c: char = (48u8 + d) as char;
    push_char(out, c);
}

/// Writes a date as year, month, day.
fn date_text(y: u32, m: u32, d: u32) -> (out: String)
    requires
        y < 10000,
        m < 100,
        d < 100,
    ensures
        out@ == four_digits(y as nat) + seq!['-'] + two_digits(m as nat) + seq!['-'] + two_digits(d as nat),
{
    let mut out = String::new();
    put_digit(&mut out, y / 1000);
    put_digit(&mut out, y / 100);
    put_digit(&mut out, y / 10);
    put_digit(&mut out, y);
    push_char(&mut out, '-');
    put_digit(&mut out, m / 10);
    put_digit(&mut out, m);
    push_char(&mut out, '-');
    put_digit(&mut out, d / 10);
    put_digit(&mut out, d);
    assert(out@ =~= four_digits(y as nat) + seq!['-'] + two_digits(m as nat) + seq!['-'] + two_digits(
        d as nat,
    ));
    out
}

/// Brings a date that is written as year, month, day or as month, day, year
/// into the first form. A text that is no such date gives nothing.
pub fn normalize_date(s: &str) -> (r: Option<String>)
    ensures
        r.is_some() == normalized_date(s@).is_some(),
        r matches Some(text) ==> normalized_date(s@) == Some(text@),
{
    let chars = chars_of(s);
    let t = trim_chars(&chars);
    if t.len() != 10 {
        return None;
    }
    let p = first_dash(&t, 0);
    if p >= t.len() {
        return None;
    }
    let q = first_dash(&t, p + 1);
    if q >= t.len() {
        return None;
    }
    if first_dash(&t, q + 1) < t.len() {
        return None;
    }
    let n = t.len();
    let (year, month, day) = if p == 4 {
        (parse_part(&t, 0, p), parse_part(&t, p + 1, q), parse_part(&t, q + 1, n))
    } else if n - (q + 1) == 4 {
        (parse_part(&t, q + 1, n), parse_part(&t, 0, p), parse_part(&t, p + 1, q))
    } else {
        return None;
    };
    match (year, month, day) {
        (Some(y), Some(m), Some(d)) => {
            if !(1900 <= y && y <= 2100) || !(1 <= m && m <= 12) || !(1 <= d && d <= 31) {
                return None;
            }
            let out = date_text(y, m, d);
            Some(out)
        },
        _ => None,
    }
}

} // verus!
