//! Numeric literals: decimal integers and decimal floats.

use crate::classify::{byte_at, is_digit, run_end, scan_run, ByteClass};
use vstd::prelude::*;

verus! {

/// The value of a decimal digit.
pub open spec fn digit_value(b: u8) -> int {
    b - '0' as u8
}

/// Whether `text` is a non-empty sequence of decimal digits.
pub open spec fn is_digits(text: Seq<u8>) -> bool {
    text.len() > 0 && forall|k: int| 0 <= k < text.len() ==> is_digit(#[trigger] text[k])
}

/// The number that a sequence of decimal digits denotes.
pub open spec fn decimal_value(digits: Seq<u8>) -> int
    decreases digits.len(),
{
    if digits.len() == 0 {
        0
    } else {
        decimal_value(digits.drop_last()) * 10 + digit_value(digits.last())
    }
}

/// The integer that `text` denotes: `text` is all digits and its value
/// fits in 64 bits with a sign. Leading zeros are allowed.
pub open spec fn integer_value(text: Seq<u8>) -> Option<i64> {
    if is_digits(text) && decimal_value(text) <= i64::MAX {
        Some(decimal_value(text) as i64)
    } else {
        None
    }
}

/// Whether the text from offset `at` on is an exponent: `e` or `E`, an
/// optional minus sign, and one or more digits up to the end of the text.
pub open spec fn is_exponent(text: Seq<u8>, at: int) -> bool {
    let digits = if byte_at(text, at + 1) == Some('-' as u8) {
        at + 2
    } else {
        at + 1
    };
    &&& byte_at(text, at) == Some('e' as u8) || byte_at(text, at) == Some('E' as u8)
    &&& digits < text.len()
    &&& run_end(text, digits, ByteClass::Digit) == text.len()
}

/// Whether `text` is a decimal float: one or more digits, optionally a point
/// and any number of digits, optionally an exponent. Every such text is a
/// number in the syntax of the standard library's float parser.
pub open spec fn is_decimal_float(text: Seq<u8>) -> bool {
    let whole = run_end(text, 0, ByteClass::Digit);
    let fraction = if byte_at(text, whole) == Some('.' as u8) {
        run_end(text, whole + 1, ByteClass::Digit)
    } else {
        whole
    };
    whole > 0 && (fraction == text.len() || is_exponent(text, fraction))
}

/// The value of a digit sequence is not negative and does not shrink when
/// digits are appended.
pub proof fn lemma_decimal_value_grows(digits: Seq<u8>, n: int)
    requires
        0 <= n <= digits.len(),
        forall|k: int| 0 <= k < digits.len() ==> is_digit(#[trigger] digits[k]),
    ensures
        0 <= decimal_value(digits.take(n)) <= decimal_value(digits),
    decreases digits.len() - n,
{
    if n == 0 {
        assert(digits.take(0).len() == 0);
        lemma_decimal_value_nonnegative(digits);
    } else if n == digits.len() {
        assert(digits.take(n) =~= digits);
        lemma_decimal_value_nonnegative(digits);
    } else {
        lemma_decimal_value_grows(digits, n + 1);
        assert(digits.take(n + 1).drop_last() =~= digits.take(n));
    }
}

proof fn lemma_decimal_value_nonnegative(digits: Seq<u8>)
    requires
        forall|k: int| 0 <= k < digits.len() ==> is_digit(#[trigger] digits[k]),
    ensures
        0 <= decimal_value(digits),
    decreases digits.len(),
{
    if digits.len() > 0 {
        lemma_decimal_value_nonnegative(digits.drop_last());
    }
}

/// Reads `text` as a decimal integer.
pub fn parse_integer(text: &[u8]) -> (r: Option<i64>)
    ensures
        r == integer_value(text@),
{
    if text.len() == 0 {
        return None;
    }
    let mut value: i64 = 0;
    let mut i: usize = 0;
    while i < text.len()
        invariant
            i <= text@.len(),
            forall|k: int| 0 <= k < i ==> is_digit(#[trigger] text@[k]),
            value == decimal_value(text@.take(i as int)),
            0 <= value,
        decreases text@.len() - i,
    {
        let b: u8 = text[i];
        if !is_digit(b) {
            return None;
        }
        let digit: i64 = (b - '0' as u8) as i64;
        proof {
            assert(text@.take(i + 1).drop_last() =~= text@.take(i as int));
        }
        if value > (i64::MAX - digit) / 10 {
            proof {
                if is_digits(text@) {
                    lemma_decimal_value_grows(text@, i + 1);
                }
            }
            return None;
        }
        value = value * 10 + digit;
        i += 1;
    }
    proof {
        assert(text@.take(i as int) =~= text@);
    }
    Some(value)
}

/// Decides whether `text` is a decimal float.
pub fn is_float(text: &[u8]) -> (r: bool)
    ensures
        r == is_decimal_float(text@),
{
    let len: usize = text.len();
    let whole: usize = scan_run(text, 0, ByteClass::Digit);
    if whole == 0 {
        return false;
    }
    let fraction: usize = if whole < len && text[whole] == '.' as u8 {
        scan_run(text, whole + 1, ByteClass::Digit)
    } else {
        whole
    };
    if fraction == len {
        return true;
    }
    if text[fraction] != 'e' as u8 && text[fraction] != 'E' as u8 {
        return false;
    }
    let digits: usize = if fraction + 1 < len && text[fraction + 1] == '-' as u8 {
        fraction + 2
    } else {
        fraction + 1
    };
    if digits >= len {
        return false;
    }
    scan_run(text, digits, ByteClass::Digit) == len
}

} // verus!
