//! The reading written down as a regular expression with three named groups.

use regex::Regex;
use vstd::prelude::*;
use super::{chars_of, decimal, is_digit, number, scan_digits, Precision, Sign};

verus! {

/// What the group `group` of the regular expression `pattern` captures in
/// the leftmost match in `input`: nothing if the pattern is not a regular
/// expression, if nothing in `input` matches it, or if the group has no
/// part in the match.
pub uninterp spec fn captured(pattern: Seq<char>, input: Seq<char>, group: Seq<char>) -> Option<
    Seq<char>,
>;

/// Finds what a named group of a regular expression captures in `input`.
///
/// Compiles `pattern` with `Regex::new`, searches `input` with
/// `Regex::captures`, looks the group up with `Captures::name` and copies
/// the text of the match out with `Match::as_str`. The outcome depends on
/// the three texts alone; nothing else is claimed of it.
#[verifier::external_body]
fn capture(pattern: &str, input: &str, group: &str) -> (found: Option<String>)
    ensures
        match found {
            Some(text) => captured(pattern@, input@, group@) == Some(text@),
            None => captured(pattern@, input@, group@) is None,
        },
{
    match Regex::new(pattern) {
        Ok(regex) => regex.captures(input).and_then(|captures| captures.name(group)).map(
            |found| found.as_str().to_string(),
        ),
        Err(_) => None,
    }
}

/// The number that a run of decimal digits stands for, if there is at
/// least one digit, nothing but digits, and the number fits a `usize`.
pub open spec fn digits_value(digits: Seq<char>) -> Option<usize> {
    if digits.len() > 0 && (forall|i: int| 0 <= i < digits.len() ==> is_digit(#[trigger] digits[i]))
        && decimal(digits) <= usize::MAX {
        Some(decimal(digits) as usize)
    } else {
        None
    }
}

/// The number that `text` stands for as `usize` reads it from a string: an
/// optional plus sign and then decimal digits, at least one, whose number
/// fits a `usize`.
pub open spec fn unsigned(text: Seq<char>) -> Option<usize> {
    if text.len() > 0 && text[0] == '+' {
        digits_value(text.drop_first())
    } else {
        digits_value(text)
    }
}

/// The sign that a captured text stands for.
pub open spec fn sign_of(text: Option<Seq<char>>) -> Option<Sign> {
    match text {
        Some(text) => if text == seq!['+'] {
            Some(Sign::Plus)
        } else if text == seq!['-'] {
            Some(Sign::Minus)
        } else {
            None
        },
        None => None,
    }
}

/// The width that a captured text stands for.
pub open spec fn width_of(text: Option<Seq<char>>) -> Option<usize> {
    match text {
        Some(text) => unsigned(text),
        None => None,
    }
}

/// The precision that a captured text stands for: an asterisk, the number
/// before a closing dollar sign, or a number.
pub open spec fn precision_of(text: Option<Seq<char>>) -> Option<Precision> {
    match text {
        Some(text) => if text == seq!['*'] {
            Some(Precision::Asterisk)
        } else if text.len() > 0 && text.last() == '$' {
            match unsigned(text.drop_last()) {
                Some(position) => Some(Precision::Argument(position)),
                None => None,
            }
        } else {
            match unsigned(text) {
                Some(digits) => Some(Precision::Integer(digits)),
                None => None,
            }
        },
        None => None,
    }
}

/// Reads a number as `usize` reads it from a string.
pub fn read_unsigned(chars: &Vec<char>, from: usize, to: usize) -> (value: Option<usize>)
    requires
        from <= to <= chars@.len(),
    ensures
        value == unsigned(chars@.subrange(from as int, to as int)),
{
    let ghost text = chars@.subrange(from as int, to as int);
    let start = if from < to && chars[from] == '+' {
        from + 1
    } else {
        from
    };
    let ghost digits = chars@.subrange(start as int, to as int);
    proof {
        if start > from {
            assert(text[0] == '+');
            assert(text.drop_first() =~= digits);
        } else {
            assert(from < to ==> text[0] != '+');
            assert(text =~= digits);
        }
    }
    let end = scan_digits(chars, start);
    if start == to {
        None
    } else if end < to {
        proof {
            assert(digits[end - start] == chars@[end as int]);
        }
        None
    } else {
        proof {
            assert forall|i: int| 0 <= i < digits.len() implies is_digit(digits[i]) by {
                assert(digits[i] == chars@[start + i]);
            }
        }
        number(chars, start, to)
    }
}

/// What the three captured texts say of sign, width and precision.
pub fn interpret(sign: &Option<String>, width: &Option<String>, precision: &Option<String>) -> (found:
    (Option<Sign>, Option<usize>, Option<Precision>))
    ensures
        found.0 == sign_of(
            match sign {
                Some(text) => Some(text@),
                None => None,
            },
        ),
        found.1 == width_of(
            match width {
                Some(text) => Some(text@),
                None => None,
            },
        ),
        found.2 == precision_of(
            match precision {
                Some(text) => Some(text@),
                None => None,
            },
        ),
{
    let sign = match sign {
        Some(text) => {
            let chars = chars_of(text.as_str());
            if chars.len() == 1 && chars[0] == '+' {
                assert(chars@ =~= seq!['+']);
                Some(Sign::Plus)
            } else if chars.len() == 1 && chars[0] == '-' {
                assert(chars@ =~= seq!['-']);
                Some(Sign::Minus)
            } else {
                assert(chars@ != seq!['+'] && chars@ != seq!['-']) by {
                    assert(seq!['+'].len() == 1 && seq!['+'][0] == '+');
                    assert(seq!['-'].len() == 1 && seq!['-'][0] == '-');
                }
                None
            }
        },
        None => None,
    };
    let width = match width {
        Some(text) => {
            let chars = chars_of(text.as_str());
            assert(chars@.subrange(0, chars@.len() as int) =~= chars@);
            read_unsigned(&chars, 0, chars.len())
        },
        None => None,
    };
    let precision = match precision {
        Some(text) => {
            let chars = chars_of(text.as_str());
            assert(chars@.subrange(0, chars@.len() as int) =~= chars@);
            if chars.len() == 1 && chars[0] == '*' {
                assert(chars@ =~= seq!['*']);
                Some(Precision::Asterisk)
            } else {
                assert(chars@ != seq!['*']) by {
                    assert(seq!['*'].len() == 1 && seq!['*'][0] == '*');
                }
                if chars.len() > 0 && chars[chars.len() - 1] == '$' {
                    assert(chars@.subrange(0, chars@.len() - 1) =~= chars@.drop_last());
                    match read_unsigned(&chars, 0, chars.len() - 1) {
                        Some(position) => Some(Precision::Argument(position)),
                        None => None,
                    }
                } else {
                    match read_unsigned(&chars, 0, chars.len()) {
                        Some(digits) => Some(Precision::Integer(digits)),
                        None => None,
                    }
                }
            }
        },
        None => None,
    };
    (sign, width, precision)
}

/// The regular expression: any characters but digits and signs; then, each
/// optional, a sign, a width, and a point with a precision.
pub open spec fn pattern() -> Seq<char> {
    r"[^\d+-]*(?<sign>(\+|\-))?((?<width>\d*))?(\.(?<precision>(\*|\d+\$|\d*)))?"@
}

/// Reads sign, width and precision out of a format specification.
pub fn parse(input: &str) -> (found: (Option<Sign>, Option<usize>, Option<Precision>))
    ensures
        found.0 == sign_of(captured(pattern(), input@, "sign"@)),
        found.1 == width_of(captured(pattern(), input@, "width"@)),
        found.2 == precision_of(captured(pattern(), input@, "precision"@)),
{
    let pattern = r"[^\d+-]*(?<sign>(\+|\-))?((?<width>\d*))?(\.(?<precision>(\*|\d+\$|\d*)))?";
    let sign = capture(pattern, input, "sign");
    let width = capture(pattern, input, "width");
    let precision = capture(pattern, input, "precision");
    interpret(&sign, &width, &precision)
}

} // verus!
