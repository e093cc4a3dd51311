//! The run's configuration: how the number of tasks is read from the one
//! argument of the command line.

use vstd::prelude::*;

verus! {

/// Why a run cannot be set up. No task is started in either case.
#[derive(Clone, Copy, Debug, PartialEq, Eq, Structural)]
pub enum ConfigurationError {
    /// The number of tasks is zero or negative.
    NonPositiveTaskCount,
    /// The number of tasks is more than this machine can index.
    TaskCountTooLarge,
    /// The number of tasks is not written as a decimal number.
    MalformedTaskCount,
}

/// The number of tasks of a run where none is given.
pub const DEFAULT_TASK_COUNT: i64 = 100_000;

/// The byte is one of the ten decimal digits.
pub open spec fn is_digit(byte: u8) -> bool {
    48 <= byte <= 57
}

/// The text is one decimal digit or more, and nothing else.
pub open spec fn is_decimal(text: Seq<u8>) -> bool {
    &&& text.len() > 0
    &&& forall|i: int| 0 <= i < text.len() ==> is_digit(#[trigger] text[i])
}

/// The number that a text of decimal digits writes.
pub open spec fn decimal_value(digits: Seq<u8>) -> nat
    decreases digits.len(),
{
    if digits.len() == 0 {
        0
    } else {
        decimal_value(digits.drop_last()) * 10 + (digits.last() - 48) as nat
    }
}

/// The text without a plus sign at its start.
pub open spec fn unsigned_part(text: Seq<u8>) -> Seq<u8> {
    if text.len() > 0 && text[0] == 43 {
        text.skip(1)
    } else {
        text
    }
}

/// The number of tasks that the argument asks for, or why it asks for none.
pub open spec fn task_count_of(arg: Option<Seq<u8>>) -> Result<i64, ConfigurationError> {
    match arg {
        None => Ok(DEFAULT_TASK_COUNT),
        Some(text) => {
            let digits = unsigned_part(text);
            if !is_decimal(digits) {
                Err(ConfigurationError::MalformedTaskCount)
            } else if decimal_value(digits) == 0 {
                Err(ConfigurationError::NonPositiveTaskCount)
            } else if decimal_value(digits) > i64::MAX {
                Err(ConfigurationError::TaskCountTooLarge)
            } else {
                Ok(decimal_value(digits) as i64)
            }
        },
    }
}

/// A text of digits writes a number no smaller than any of its beginnings
/// does.
pub proof fn lemma_decimal_value_grows(digits: Seq<u8>, len: int)
    requires
        0 <= len <= digits.len(),
        forall|i: int| 0 <= i < digits.len() ==> is_digit(#[trigger] digits[i]),
    ensures
        decimal_value(digits.take(len)) <= decimal_value(digits),
    decreases digits.len(),
{
    if len == digits.len() {
        assert(digits.take(len) =~= digits);
    } else {
        let rest = digits.drop_last();
        assert forall|i: int| 0 <= i < rest.len() implies is_digit(#[trigger] rest[i]) by {
            assert(rest[i] == digits[i]);
        }
        lemma_decimal_value_grows(rest, len);
        assert(rest.take(len) =~= digits.take(len));
        assert(is_digit(digits[digits.len() - 1]));
    }
}

/// Reads the number of tasks from the argument of the command line. With no
/// argument the number is `DEFAULT_TASK_COUNT`. An argument is a decimal
/// number, with or without a plus sign before it; anything else is
/// malformed, zero is refused, and so is a number beyond the range of `i64`.
pub fn parse_task_count(arg: Option<&[u8]>) -> (result: Result<i64, ConfigurationError>)
    ensures
        result == task_count_of(
            match arg {
                Some(text) => Some(text@),
                None => None,
            },
        ),
        result is Ok ==> result->Ok_0 >= 1,
{
    let text: &[u8] = match arg {
        Some(text) => text,
        None => {
            return Ok(DEFAULT_TASK_COUNT);
        },
    };
    let start: usize = if text.len() > 0 && text[0] == 43u8 {
        1
    } else {
        0
    };
    let ghost digits = unsigned_part(text@);
    assert(digits =~= text@.skip(start as int));
    if start == text.len() {
        return Err(ConfigurationError::MalformedTaskCount);
    }
    let mut i: usize = start;
    while i < text.len()
        invariant
            start <= i <= text.len(),
            arg == Some(text),
            digits == unsigned_part(text@),
            digits == text@.skip(start as int),
            forall|j: int| 0 <= j < i - start ==> is_digit(#[trigger] digits[j]),
        decreases text.len() - i,
    {
        let byte: u8 = text[i];
        if byte < 48u8 || byte > 57u8 {
            assert(digits[i - start] == text@[i as int]);
            return Err(ConfigurationError::MalformedTaskCount);
        }
        i = i + 1;
    }
    assert(is_decimal(digits));
    let mut value: i64 = 0;
    let mut k: usize = start;
    while k < text.len()
        invariant
            start <= k <= text.len(),
            arg == Some(text),
            digits == unsigned_part(text@),
            digits == text@.skip(start as int),
            is_decimal(digits),
            0 <= value,
            value == decimal_value(digits.take(k - start)),
        decreases text.len() - k,
    {
        proof {
            let next = digits.take(k - start + 1);
            assert(next.drop_last() =~= digits.take(k - start));
            assert(next.last() == digits[k - start]);
            assert(digits[k - start] == text@[k as int]);
            assert(is_digit(digits[k - start]));
            lemma_decimal_value_grows(digits, k - start + 1);
        }
        let digit: i64 = (text[k] - 48u8) as i64;
        if value > (i64::MAX - digit) / 10 {
            return Err(ConfigurationError::TaskCountTooLarge);
        }
        value = value * 10 + digit;
        k = k + 1;
    }
    assert(digits.take(k - start) =~= digits);
    if value == 0 {
        return Err(ConfigurationError::NonPositiveTaskCount);
    }
    Ok(value)
}

} // verus!
