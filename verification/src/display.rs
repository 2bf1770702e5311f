//! Rules of the output: colour, confirmation of writes, and identifiers
//! short enough for a table.

use crate::cli::ColorMode;
use crate::dates::{all_digits, digits_value, is_digit, parse_number, unsigned_part};
use crate::text::{chars_of, str_eq, str_starts_with, trim_text, trimmed};
use vstd::prelude::*;
use vstd::string::{StringExecFns, StringSliceAdditionalSpecFns};
use vstd::utf8::{decode_utf8, encode_utf8, is_char_boundary};

verus! {

/// Whether the output is coloured: always or never where that is asked for,
/// else where the output goes to a terminal.
pub fn should_color(mode: ColorMode, stdout_is_terminal: bool) -> (b: bool)
    ensures
        b == (match mode {
            ColorMode::Always => true,
            ColorMode::Never => false,
            ColorMode::Auto => stdout_is_terminal,
        }),
{
    match mode {
        ColorMode::Always => true,
        ColorMode::Never => false,
        ColorMode::Auto => stdout_is_terminal,
    }
}

/// What happens before a write.
#[derive(Debug, Clone, Copy, PartialEq, Eq, Structural)]
pub enum WriteDecision {
    /// The write goes ahead.
    Proceed,
    /// The write is refused: nobody can be asked, and `yes` was not given.
    Refuse,
    /// The user is asked.
    Ask,
}

/// Decides what happens before a write: a dry run and a given `yes` go
/// ahead; without them the user is asked where the input is a terminal, and
/// the write is refused where it is not.
pub fn confirm_write(dry_run: bool, yes: bool, stdin_is_terminal: bool) -> (r: WriteDecision)
    ensures
        r == (if dry_run || yes {
            WriteDecision::Proceed
        } else if !stdin_is_terminal {
            WriteDecision::Refuse
        } else {
            WriteDecision::Ask
        }),
{
    if dry_run {
        return WriteDecision::Proceed;
    }
    if yes {
        return WriteDecision::Proceed;
    }
    if !stdin_is_terminal {
        return WriteDecision::Refuse;
    }
    WriteDecision::Ask
}

/// Whether an answer confirms a write: it is `yes` once the white space at
/// its ends is dropped.
pub fn confirms(answer: &str) -> (b: bool)
    ensures
        b == (trimmed(answer@) == "yes"@),
{
    let t = trim_text(answer);
    str_eq(t.as_str(), "yes")
}

/// The colour of an amount in a table.
#[derive(Debug, Clone, Copy, PartialEq, Eq, Structural)]
pub enum AmountColor {
    Red,
    Green,
}

/// The colour in which an amount is shown: none for an empty text, red for
/// one that begins with `-$`, green for every other.
pub fn amount_color(text: &str) -> (r: Option<AmountColor>)
    ensures
        r == (if text@.len() == 0 {
            None
        } else if "-$"@.is_prefix_of(text@) {
            Some(AmountColor::Red)
        } else {
            Some(AmountColor::Green)
        }),
{
    if text.is_empty() {
        None
    } else if str_starts_with(text, "-$") {
        Some(AmountColor::Red)
    } else {
        Some(AmountColor::Green)
    }
}

/// The mark of a reviewed transaction in a table.
pub fn reviewed_mark(reviewed: bool) -> (r: &'static str)
    ensures
        r@ == (if reviewed {
            "âœ“"@
        } else {
            ""@
        }),
{
    if reviewed {
        "âœ“"
    } else {
        ""
    }
}

/// The number of columns that a text takes on a terminal.
pub uninterp spec fn display_width(s: Seq<char>) -> nat;

/// Calls `UnicodeWidthStr::width` of the crate unicode-width. Taken on
/// trust: the width is read from the crate's tables and depends on the
/// characters of `s` alone.
#[verifier::external_body]
fn text_width(s: &str) -> (w: usize)
    ensures
        w == display_width(s@),
{
    unicode_width::UnicodeWidthStr::width(s)
}

/// What stands between the two ends of a shortened identifier.
pub open spec fn gap() -> Seq<char> {
    "â€¦"@
}

/// Whether an identifier is shown whole: it is empty, it is at most 18
/// columns wide, or it has at most 15 bytes.
pub open spec fn shown_whole(t: Seq<char>) -> bool {
    t.len() == 0 || display_width(t) <= 18 || encode_utf8(t).len() <= 15
}

/// Whether the first 8 and the last 6 bytes of an identifier are whole
/// characters.
pub open spec fn cuts_cleanly(t: Seq<char>) -> bool {
    let bytes = encode_utf8(t);
    is_char_boundary(bytes, 8) && is_char_boundary(bytes, bytes.len() - 6)
}

/// An identifier as a table shows it: whole, or its first 8 bytes, the gap,
/// and its last 6 bytes.
pub open spec fn shortened(t: Seq<char>) -> Seq<char> {
    if shown_whole(t) {
        t
    } else {
        let bytes = encode_utf8(t);
        decode_utf8(bytes.subrange(0, 8)) + gap() + decode_utf8(
            bytes.subrange(bytes.len() - 6, bytes.len() as int),
        )
    }
}

/// Shortens an identifier for a table, after dropping the white space at
/// its ends. An identifier that would be cut inside a character gives
/// nothing.
pub fn try_shorten_id(id: &str) -> (r: Option<String>)
    ensures
        r is Some == (shown_whole(trimmed(id@)) || cuts_cleanly(trimmed(id@))),
        r is Some ==> r->0@ == shortened(trimmed(id@)),
{
    let t = trim_text(id);
    let s = t.as_str();
    if s.is_empty() || text_width(s) <= 18 {
        return Some(t);
    }
    let n = s.as_bytes().len();
    if n <= 15 {
        return Some(t);
    }
    if !s.is_char_boundary(8) || !s.is_char_boundary(n - 6) {
        return None;
    }
    Some(shorten_id_for_table(id))
}

/// Shortens an identifier for a table, after dropping the white space at
/// its ends: an identifier that is wider than 18 columns and longer than 15
/// bytes keeps its first 8 and its last 6 bytes.
pub fn shorten_id_for_table(id: &str) -> (r: String)
    requires
        shown_whole(trimmed(id@)) || cuts_cleanly(trimmed(id@)),
    ensures
        r@ == shortened(trimmed(id@)),
{
    broadcast use vstd::utf8::encode_utf8_decode_utf8;

    let t = trim_text(id);
    let s = t.as_str();
    if s.is_empty() || text_width(s) <= 18 {
        return t;
    }
    let n = s.as_bytes().len();
    if n <= 15 {
        return t;
    }
    let (prefix, _) = s.split_at(8);
    let (_, suffix) = s.split_at(n - 6);
    proof {
        let bytes = encode_utf8(t@);
        assert(prefix@ == decode_utf8(encode_utf8(prefix@)));
        assert(suffix@ == decode_utf8(encode_utf8(suffix@)));
        assert(prefix.spec_bytes() == bytes.subrange(0, 8));
        assert(suffix.spec_bytes() == bytes.subrange(bytes.len() - 6, bytes.len() as int));
    }
    let mut out = String::from_str(prefix);
    out.append("â€¦");
    out.append(suffix);
    out
}

/// The width of the terminal that a text gives: the number that it writes,
/// where that is at most 65535.
pub open spec fn columns_of(s: Seq<char>) -> Option<u16> {
    match parse_number(s) {
        Some(n) => if n <= 65535 {
            Some(n as u16)
        } else {
            None
        },
        None => None,
    }
}

/// The number that the first digits of a text write is at most the number
/// that all of them write.
proof fn lemma_digits_grow(s: Seq<char>, k: int)
    requires
        all_digits(s),
        0 <= k <= s.len(),
    ensures
        digits_value(s.subrange(0, k)) <= digits_value(s),
    decreases s.len() - k,
{
    if k < s.len() {
        let next = s.subrange(0, k + 1);
        assert(next.drop_last() =~= s.subrange(0, k));
        assert(is_digit(s[k]));
        assert(next.last() == s[k]);
        lemma_digits_grow(s, k + 1);
    } else {
        assert(s.subrange(0, k) =~= s);
    }
}

/// Reads the width of the terminal from a text: digits, at least one, after
/// at most one `+`, that write a number up to 65535.
pub fn columns_from_text(s: &str) -> (r: Option<u16>)
    ensures
        r == columns_of(s@),
{
    let t = chars_of(s);
    let start: usize = if t.len() > 0 && t[0] == '+' {
        1
    } else {
        0
    };
    let ghost body = unsigned_part(s@);
    assert(body =~= t@.subrange(start as int, t.len() as int));
    if start == t.len() {
        return None;
    }
    let mut acc: u32 = 0;
    let mut i = start;
    while i < t.len()
        invariant
            start <= i <= t.len(),
            t@ == s@,
            body == unsigned_part(s@),
            body == t@.subrange(start as int, t.len() as int),
            forall|k: int| 0 <= k < i - start ==> is_digit(#[trigger] body[k]),
            acc == digits_value(body.subrange(0, i - start)),
            acc <= 65535,
        decreases t.len() - i,
    {
        let c = t[i];
        assert(body[i - start] == c);
        if !('0' <= c && c <= '9') {
            proof {
                let k = i - start;
                assert(!is_digit(body[k]));
                assert(!all_digits(body));
            }
            return None;
        }
        let d: u32 = c as u32 - '0' as u32;
        proof {
            let next = body.subrange(0, i - start + 1);
            assert(next.drop_last() =~= body.subrange(0, i - start));
            assert(next.last() == c);
        }
        acc = acc * 10 + d;
        i = i + 1;
        if acc > 65535 {
            // The digits read so far already write too large a number; whatever
            // follows, the text gives no width.
            proof {
                if all_digits(body) {
                    lemma_digits_grow(body, i - start);
                }
            }
            return None;
        }
    }
    assert(body.subrange(0, t.len() - start) =~= body);
    Some(acc as u16)
}

} // verus!
