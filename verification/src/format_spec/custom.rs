//! The reading written out by hand, one part after the other.

use vstd::prelude::*;
use super::{chars_of, decimal, digits_end, is_digit, number, scan_digits, sign_at, Precision, Sign};

verus! {

/// Whether `c` may stand before the sign and the width: anything but a
/// sign or a decimal digit.
pub open spec fn is_skipped(c: char) -> bool {
    c != '+' && c != '-' && !is_digit(c)
}

/// Where the longest run of skipped characters that starts at `from` ends.
pub open spec fn skipped_end(text: Seq<char>, from: int) -> int
    decreases text.len() - from,
{
    if 0 <= from < text.len() && is_skipped(text[from]) {
        skipped_end(text, from + 1)
    } else {
        from
    }
}

/// Where the width starts: behind the skipped characters and the sign.
pub open spec fn width_start(text: Seq<char>) -> int {
    let at = skipped_end(text, 0);
    if sign_at(text, at) is Some {
        at + 1
    } else {
        at
    }
}

/// Whether `text` has a point behind the width.
pub open spec fn has_point(text: Seq<char>) -> bool {
    let at = digits_end(text, width_start(text));
    at < text.len() && text[at] == '.'
}

/// The digits of the width; none if there is no width.
pub open spec fn width_digits(text: Seq<char>) -> Seq<char> {
    text.subrange(width_start(text), digits_end(text, width_start(text)))
}

/// The digits behind the point; none if there is no point or no digit
/// follows it.
pub open spec fn precision_digits(text: Seq<char>) -> Seq<char> {
    let start = digits_end(text, width_start(text)) + 1;
    if has_point(text) {
        text.subrange(start, digits_end(text, start))
    } else {
        Seq::empty()
    }
}

/// The numbers in `text` fit a `usize`.
pub open spec fn fits(text: Seq<char>) -> bool {
    decimal(width_digits(text)) <= usize::MAX && decimal(precision_digits(text)) <= usize::MAX
}

/// What `text` says of sign, width and precision.
///
/// The text may begin with characters that are neither a sign nor a digit.
/// Then come, each optional, a sign, a width in decimal digits, and a point
/// with a precision: digits and a dollar sign, digits alone, or an
/// asterisk. A point that none of the three follows spoils the whole text:
/// then nothing is read.
pub open spec fn parsed(text: Seq<char>) -> (Option<Sign>, Option<usize>, Option<Precision>) {
    let sign = sign_at(text, skipped_end(text, 0));
    let width = if width_digits(text).len() > 0 {
        Some(decimal(width_digits(text)) as usize)
    } else {
        None
    };
    let after_point = digits_end(text, width_start(text)) + 1;
    let after_digits = digits_end(text, after_point);
    if !has_point(text) {
        (sign, width, None)
    } else if precision_digits(text).len() > 0 {
        if after_digits < text.len() && text[after_digits] == '$' {
            (sign, width, Some(Precision::Argument(decimal(precision_digits(text)) as usize)))
        } else {
            (sign, width, Some(Precision::Integer(decimal(precision_digits(text)) as usize)))
        }
    } else if after_point < text.len() && text[after_point] == '*' {
        (sign, width, Some(Precision::Asterisk))
    } else {
        (None, None, None)
    }
}

/// Reads sign, width and precision out of a format specification.
pub fn parse(input: &str) -> (found: (Option<Sign>, Option<usize>, Option<Precision>))
    requires
        fits(input@),
    ensures
        found == parsed(input@),
{
    let chars = chars_of(input);
    let mut at: usize = 0;
    while at < chars.len() && chars[at] != '+' && chars[at] != '-' && !('0' <= chars[at]
        && chars[at] <= '9')
        invariant
            at <= chars@.len(),
            skipped_end(chars@, 0) == skipped_end(chars@, at as int),
        decreases chars@.len() - at,
    {
        at += 1;
    }
    let sign = if at < chars.len() && chars[at] == '+' {
        at += 1;
        Some(Sign::Plus)
    } else if at < chars.len() && chars[at] == '-' {
        at += 1;
        Some(Sign::Minus)
    } else {
        None
    };
    let width_end = scan_digits(&chars, at);
    let width = if width_end > at {
        number(&chars, at, width_end)
    } else {
        None
    };
    if !(width_end < chars.len() && chars[width_end] == '.') {
        return (sign, width, None);
    }
    let start = width_end + 1;
    let end = scan_digits(&chars, start);
    if end > start {
        let value = number(&chars, start, end).unwrap();
        if end < chars.len() && chars[end] == '$' {
            (sign, width, Some(Precision::Argument(value)))
        } else {
            (sign, width, Some(Precision::Integer(value)))
        }
    } else if start < chars.len() && chars[start] == '*' {
        (sign, width, Some(Precision::Asterisk))
    } else {
        (None, None, None)
    }
}

} // verus!
