//! Reading the sign, the width and the precision out of a format
//! specification such as `>+8.*` or `a^#043.8?`.

use vstd::prelude::*;

pub mod custom;
pub mod regexp;

verus! {

/// The sign flag of a format specification.
#[derive(Debug, Clone, Copy, PartialEq, Eq, Structural)]
pub enum Sign {
    Plus,
    Minus,
}

/// The precision of a format specification.
#[derive(Debug, Clone, Copy, PartialEq, Eq, Structural)]
pub enum Precision {
    /// A number of digits.
    Integer(usize),
    /// The position of the argument that holds the number of digits.
    Argument(usize),
    /// The number of digits comes from the next argument.
    Asterisk,
}

/// Whether `c` is one of the ten decimal digits.
pub open spec fn is_digit(c: char) -> bool {
    '0' <= c <= '9'
}

/// The number that a run of decimal digits stands for.
pub open spec fn decimal(digits: Seq<char>) -> nat
    decreases digits.len(),
{
    if digits.len() == 0 {
        0
    } else {
        decimal(digits.drop_last()) * 10 + (digits.last() as nat - '0' as nat) as nat
    }
}

/// Where the longest run of decimal digits that starts at `from` ends.
pub open spec fn digits_end(text: Seq<char>, from: int) -> int
    decreases text.len() - from,
{
    if 0 <= from < text.len() && is_digit(text[from]) {
        digits_end(text, from + 1)
    } else {
        from
    }
}

/// The sign that `text` has at `at`, if it has one there.
pub open spec fn sign_at(text: Seq<char>, at: int) -> Option<Sign> {
    if 0 <= at < text.len() && text[at] == '+' {
        Some(Sign::Plus)
    } else if 0 <= at < text.len() && text[at] == '-' {
        Some(Sign::Minus)
    } else {
        None
    }
}

/// A longer run of digits does not stand for a smaller number.
pub proof fn lemma_decimal_grows(digits: Seq<char>, shorter: int)
    requires
        0 <= shorter <= digits.len(),
        forall|i: int| 0 <= i < digits.len() ==> is_digit(digits[i]),
    ensures
        decimal(digits.take(shorter)) <= decimal(digits),
    decreases digits.len() - shorter,
{
    if shorter < digits.len() {
        lemma_decimal_grows(digits, shorter + 1);
        assert(digits.take(shorter + 1).drop_last() =~= digits.take(shorter));
    } else {
        assert(digits.take(shorter) =~= digits);
    }
}

/// The characters of `input`, one by one.
pub fn chars_of(input: &str) -> (chars: Vec<char>)
    ensures
        chars@ == input@,
{
    let mut chars: Vec<char> = Vec::new();
    for c in iter: input.chars()
        invariant
            iter.seq() == input@,
            chars@ == input@.take(iter.index() as int),
    {
        chars.push(c);
        proof {
            assert(chars@ =~= input@.take(iter.index() + 1));
        }
    }
    proof {
        assert(chars@ =~= input@);
    }
    chars
}

/// Finds where the longest run of decimal digits that starts at `from` ends.
pub fn scan_digits(chars: &Vec<char>, from: usize) -> (end: usize)
    requires
        from <= chars@.len(),
    ensures
        end == digits_end(chars@, from as int),
        from <= end <= chars@.len(),
        forall|i: int| from <= i < end ==> is_digit(chars@[i]),
        end < chars@.len() ==> !is_digit(chars@[end as int]),
{
    let mut end = from;
    while end < chars.len() && '0' <= chars[end] && chars[end] <= '9'
        invariant
            from <= end <= chars@.len(),
            digits_end(chars@, from as int) == digits_end(chars@, end as int),
            forall|i: int| from <= i < end ==> is_digit(chars@[i]),
        decreases chars@.len() - end,
    {
        end += 1;
    }
    end
}

/// The number that the digits from `from` up to `to` stand for, if it
/// fits a `usize`.
pub fn number(chars: &Vec<char>, from: usize, to: usize) -> (value: Option<usize>)
    requires
        from <= to <= chars@.len(),
        forall|i: int| from <= i < to ==> is_digit(chars@[i]),
    ensures
        value == if decimal(chars@.subrange(from as int, to as int)) <= usize::MAX {
            Some(decimal(chars@.subrange(from as int, to as int)) as usize)
        } else {
            None::<usize>
        },
{
    let ghost digits = chars@.subrange(from as int, to as int);
    let mut value: usize = 0;
    let mut at = from;
    while at < to
        invariant
            from <= at <= to <= chars@.len(),
            digits == chars@.subrange(from as int, to as int),
            forall|i: int| from <= i < to ==> is_digit(chars@[i]),
            forall|i: int| 0 <= i < digits.len() ==> is_digit(digits[i]),
            value == decimal(digits.take(at - from)),
        decreases to - at,
    {
        assert(is_digit(chars@[at as int]));
        let digit = (chars[at] as u32 - '0' as u32) as usize;
        proof {
            assert(digits.take(at + 1 - from).drop_last() =~= digits.take(at - from));
            assert(digits.take(at + 1 - from).last() == chars@[at as int]);
            lemma_decimal_grows(digits, at + 1 - from);
        }
        let scaled = match value.checked_mul(10) {
            Some(scaled) => scaled,
            None => {
                return None;
            },
        };
        value = match scaled.checked_add(digit) {
            Some(sum) => sum,
            None => {
                return None;
            },
        };
        at += 1;
    }
    proof {
        assert(digits.take(to - from) =~= digits);
    }
    Some(value)
}

} // verus!
