use vstd::prelude::*;
use std::num::ParseIntError;
use crate::counts::{parse_u32, spec_u32_text, u32_parse_error};
use crate::digits::{all_digits, chars_of, decimal_at_most, decimal_value, digits_only};
use crate::nonzero::NonZero16;

verus! {

/// Why a limit was rejected.
#[derive(Debug, Clone, Copy, PartialEq, Eq)]
pub enum LimitError {
    /// The text is empty or holds something other than ASCII digits.
    InvalidDigits,
    /// The digits denote more than 65,535.
    OutOfRange,
    /// The digits denote zero.
    Zero,
}

/// What a limit's text denotes: one or more ASCII digits, leading zeroes
/// allowed, denoting a value in 1..=65535.
pub open spec fn spec_parse_limit(text: Seq<char>) -> Result<u16, LimitError> {
    if text.len() == 0 || !all_digits(text) {
        Err(LimitError::InvalidDigits)
    } else if decimal_value(text) > u16::MAX {
        Err(LimitError::OutOfRange)
    } else if decimal_value(text) == 0 {
        Err(LimitError::Zero)
    } else {
        Ok(decimal_value(text) as u16)
    }
}

/// Parses a limit: one or more ASCII decimal digits, including leading
/// zeroes, with a value in `1..=65535`.
pub fn parse_limit(text: &str) -> (result: Result<NonZero16, LimitError>)
    ensures
        match spec_parse_limit(text@) {
            Ok(value) => result matches Ok(limit) && limit.spec_get() == value,
            Err(error) => result == Err::<NonZero16, LimitError>(error),
        },
{
    let chars = chars_of(text);
    assert(chars@.skip(0) =~= chars@);
    if chars.len() == 0 || !digits_only(&chars, 0) {
        return Err(LimitError::InvalidDigits);
    }
    let value = match decimal_at_most(&chars, 0, 0xffff) {
        None => return Err(LimitError::OutOfRange),
        Some(value) => value as u16,
    };
    match NonZero16::new(value) {
        None => Err(LimitError::Zero),
        Some(limit) => Ok(limit),
    }
}

/// Parses a present text as a `u32` and keeps absence: `None` stays `None`,
/// and the text's parse error is returned as the error.
pub fn parse_optional(input: Option<&str>) -> (result: Result<Option<u32>, ParseIntError>)
    ensures
        match input {
            None => result == Ok::<Option<u32>, ParseIntError>(None),
            Some(text) => match spec_u32_text(text@) {
                Some(value) => result == Ok::<Option<u32>, ParseIntError>(Some(value)),
                None => result == Err::<Option<u32>, ParseIntError>(u32_parse_error(text@)),
            },
        },
{
    match input {
        None => Ok(None),
        Some(text) => match parse_u32(text) {
            Ok(value) => Ok(Some(value)),
            Err(error) => Err(error),
        },
    }
}

} // verus!
