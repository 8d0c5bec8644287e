//! Integer literals: signed 32-bit numbers written in decimal.

use vstd::prelude::*;

verus! {

/// The character is a decimal digit.
pub open spec fn is_digit(c: char) -> bool {
    '0' <= c <= '9'
}

/// Every character of the text is a decimal digit.
pub open spec fn all_digits(text: Seq<char>) -> bool {
    forall|i: int| 0 <= i < text.len() ==> is_digit(#[trigger] text[i])
}

/// The number that a run of decimal digits writes.
pub open spec fn digits_value(text: Seq<char>) -> int
    decreases text.len(),
{
    if text.len() == 0 {
        0
    } else {
        digits_value(text.drop_last()) * 10 + (text.last() as int - '0' as int)
    }
}

/// The digits of a literal, without its sign.
pub open spec fn literal_digits(text: Seq<char>) -> Seq<char> {
    if text.len() > 0 && (text[0] == '-' || text[0] == '+') {
        text.skip(1)
    } else {
        text
    }
}

/// The number that a literal writes, with its sign.
pub open spec fn literal_value(text: Seq<char>) -> int {
    if text.len() > 0 && text[0] == '-' {
        -digits_value(literal_digits(text))
    } else {
        digits_value(literal_digits(text))
    }
}

/// The value of a literal: an optional sign, then one decimal digit or
/// more, writing a number that a signed 32-bit integer can hold. Any
/// other text is no literal.
pub open spec fn integer_literal(text: Seq<char>) -> Option<i32> {
    if literal_digits(text).len() > 0 && all_digits(literal_digits(text)) && i32::MIN
        <= literal_value(text) <= i32::MAX {
        Some(literal_value(text) as i32)
    } else {
        None
    }
}

/// A longer run of digits writes no smaller a number than its beginning.
proof fn lemma_digits_value_grows(text: Seq<char>, shorter: int)
    requires
        all_digits(text),
        0 <= shorter <= text.len(),
    ensures
        0 <= digits_value(text.take(shorter)) <= digits_value(text),
    decreases text.len(),
{
    if text.len() == 0 {
        assert(text.take(shorter) =~= text);
    } else if shorter == text.len() {
        assert(text.take(shorter) =~= text);
        lemma_digits_value_grows(text.drop_last(), shorter - 1);
        assert(text.drop_last().take(shorter - 1) =~= text.drop_last());
    } else {
        lemma_digits_value_grows(text.drop_last(), shorter);
        assert(text.drop_last().take(shorter) =~= text.take(shorter));
    }
}

/// Reads an integer literal.
pub fn parse_integer(text: &str) -> (value: Option<i32>)
    ensures
        value == integer_literal(text@),
{
    let length: usize = text.unicode_len();
    if length == 0 {
        return None;
    }
    let first: char = text.get_char(0);
    let negative: bool = first == '-';
    let start: usize = if first == '-' || first == '+' {
        1
    } else {
        0
    };
    if start == length {
        assert(literal_digits(text@).len() == 0);
        return None;
    }
    let ghost digits = literal_digits(text@);
    let mut magnitude: i64 = 0;
    let mut i: usize = start;
    while i < length
        invariant
            start <= i <= length,
            length == text@.len(),
            digits == text@.skip(start as int),
            digits == literal_digits(text@),
            all_digits(digits.take(i - start)),
            magnitude == digits_value(digits.take(i - start)),
            0 <= magnitude <= 0x8000_0000,
        decreases length - i,
    {
        let c: char = text.get_char(i);
        assert(c == digits[i - start]);
        if !(c >= '0' && c <= '9') {
            assert(!is_digit(digits[i - start]));
            return None;
        }
        let digit: i64 = (c as u32 - '0' as u32) as i64;
        assert(digits.take(i - start + 1).drop_last() =~= digits.take(i - start));
        assert(digits.take(i - start + 1).last() == c);
        assert forall|j: int| 0 <= j < i - start + 1 implies is_digit(
            #[trigger] digits.take(i - start + 1)[j],
        ) by {
            if j < i - start {
                assert(digits.take(i - start + 1)[j] == digits.take(i - start)[j]);
            }
        }
        let next: i64 = magnitude * 10 + digit;
        if next > 0x8000_0000 {
            proof {
                if all_digits(digits) {
                    lemma_digits_value_grows(digits, i - start + 1);
                }
            }
            return None;
        }
        magnitude = next;
        i += 1;
    }
    assert(digits.take(i - start) =~= digits);
    if negative {
        Some((-magnitude) as i32)
    } else if magnitude > 0x7fff_ffff {
        None
    } else {
        Some(magnitude as i32)
    }
}

} // verus!
