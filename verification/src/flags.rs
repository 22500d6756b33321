//! Reading option values from text.
//!
//! Widths, paddings and limits are written as plain decimal numbers; the field
//! delimiter of the input is written as the one byte that it is.

use vstd::prelude::*;
use vstd::string::*;

verus! {

/// An option value that cannot be used.
#[derive(Clone, Copy, Debug, PartialEq, Eq, Structural)]
pub enum FlagError {
    /// The text is not a decimal number that fits the machine word.
    InvalidNumber,
    /// The text is not exactly one byte long.
    InvalidDelimiter,
}

/// The field delimiter of the input where none is given: the comma.
pub const DEFAULT_DELIMITER: u8 = 0x2c;

/// The byte is one of the digits `0` to `9`.
pub open spec fn is_digit(byte: u8) -> bool {
    0x30 <= byte <= 0x39
}

/// The text is one decimal digit or more, and nothing else.
pub open spec fn is_decimal(text: Seq<u8>) -> bool {
    &&& text.len() > 0
    &&& forall|i: int| 0 <= i < text.len() ==> is_digit(#[trigger] text[i])
}

/// The number that a string of decimal digits writes.
pub open spec fn decimal_value(digits: Seq<u8>) -> nat
    decreases digits.len(),
{
    if digits.len() == 0 {
        0
    } else {
        10 * decimal_value(digits.drop_last()) + (digits.last() - 0x30) as nat
    }
}

/// A number does not get smaller as digits are written behind it.
proof fn lemma_decimal_value_grows(digits: Seq<u8>, k: int)
    requires
        0 <= k <= digits.len(),
        forall|i: int| 0 <= i < digits.len() ==> is_digit(#[trigger] digits[i]),
    ensures
        decimal_value(digits.take(k)) <= decimal_value(digits),
    decreases digits.len() - k,
{
    if k == digits.len() {
        assert(digits.take(k) =~= digits);
    } else {
        lemma_decimal_value_grows(digits, k + 1);
        assert(digits.take(k + 1).drop_last() =~= digits.take(k));
        assert(digits.take(k + 1).last() == digits[k]);
    }
}

/// Reads a width, a padding or a limit.
///
/// The text must be decimal digits only, at least one, and the number must fit
/// a `usize`.
pub fn parse_count(text: &str) -> (res: Result<usize, FlagError>)
    ensures
        res matches Ok(n) ==> n == decimal_value(text.spec_bytes()),
        res is Ok <==> is_decimal(text.spec_bytes()) && decimal_value(text.spec_bytes())
            <= usize::MAX,
        res is Err ==> res == Err::<usize, FlagError>(FlagError::InvalidNumber),
{
    let bytes = text.as_bytes();
    if bytes.len() == 0 {
        return Err(FlagError::InvalidNumber);
    }
    let mut value: usize = 0;
    let mut i: usize = 0;
    while i < bytes.len()
        invariant
            i <= bytes.len(),
            bytes@ == text.spec_bytes(),
            forall|j: int| 0 <= j < i ==> is_digit(#[trigger] bytes@[j]),
            value == decimal_value(bytes@.take(i as int)),
        decreases bytes.len() - i,
    {
        let byte: u8 = bytes[i];
        if byte < 0x30 || byte > 0x39 {
            return Err(FlagError::InvalidNumber);
        }
        let digit: usize = (byte - 0x30) as usize;
        proof {
            assert(bytes@.take(i + 1).drop_last() =~= bytes@.take(i as int));
            assert(bytes@.take(i + 1).last() == byte);
        }
        if value > (usize::MAX - digit) / 10 {
            proof {
                assert(decimal_value(bytes@.take(i + 1)) > usize::MAX) by (nonlinear_arith)
                    requires
                        decimal_value(bytes@.take(i + 1)) == 10 * value + digit,
                        value > (usize::MAX - digit) / 10,
                        digit <= usize::MAX,
                ;
                if is_decimal(bytes@) {
                    lemma_decimal_value_grows(bytes@, i + 1);
                }
            }
            return Err(FlagError::InvalidNumber);
        }
        assert(10 * value + digit <= usize::MAX) by (nonlinear_arith)
            requires
                value <= (usize::MAX - digit) / 10,
                digit <= usize::MAX,
        ;
        value = 10 * value + digit;
        i += 1;
    }
    assert(bytes@.take(i as int) =~= bytes@);
    Ok(value)
}

/// Reads the field delimiter of the input: the text must be exactly one byte,
/// and that byte is the delimiter.
pub fn parse_delimiter(text: &str) -> (res: Result<u8, FlagError>)
    ensures
        text.spec_bytes().len() == 1 ==> res == Ok::<u8, FlagError>(text.spec_bytes()[0]),
        text.spec_bytes().len() != 1 ==> res == Err::<u8, FlagError>(FlagError::InvalidDelimiter),
{
    let bytes = text.as_bytes();
    if bytes.len() == 1 {
        Ok(bytes[0])
    } else {
        Err(FlagError::InvalidDelimiter)
    }
}

} // verus!
