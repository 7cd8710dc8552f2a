use vstd::prelude::*;
use crate::digits::{all_digits, decimal_value};
use std::num::ParseIntError;

verus! {

/// `std::num::ParseIntError`, the reason a text is not a `u32`.
#[verifier::external_type_specification]
#[verifier::external_body]
pub struct ExParseIntError(ParseIntError);

/// The `u32` that a text denotes: an optional `+` followed by one or more
/// ASCII decimal digits whose value fits in a `u32`.
pub open spec fn spec_u32_text(text: Seq<char>) -> Option<u32> {
    let digits = if text.len() > 0 && text[0] == '+' {
        text.drop_first()
    } else {
        text
    };
    if digits.len() > 0 && all_digits(digits) && decimal_value(digits) <= u32::MAX {
        Some(decimal_value(digits) as u32)
    } else {
        None
    }
}

/// The error that `<u32 as FromStr>::from_str` reports for a text that is
/// not a `u32`; it depends on the text alone.
pub uninterp spec fn u32_parse_error(text: Seq<char>) -> ParseIntError;

/// Calls `<u32 as FromStr>::from_str`, which accepts an optional `+` and
/// then only decimal digits, and fails when the value exceeds `u32::MAX`.
/// Its error is named by `u32_parse_error`; which kind that is, is not
/// stated here.
#[verifier::external_body]
pub(crate) fn parse_u32(text: &str) -> (parsed: Result<u32, ParseIntError>)
    ensures
        match spec_u32_text(text@) {
            Some(value) => parsed == Ok::<u32, ParseIntError>(value),
            None => parsed == Err::<u32, ParseIntError>(u32_parse_error(text@)),
        },
{
    text.parse::<u32>()
}

/// Whether every text in `inputs` before position `end` denotes a `u32`.
pub open spec fn all_parse(inputs: Seq<&str>, end: int) -> bool {
    forall|i: int| 0 <= i < end ==> (#[trigger] spec_u32_text(inputs[i]@)) is Some
}

/// Parses each input as an unsigned 32-bit integer.
///
/// # Errors
///
/// Returns the error of the first input that is not a `u32`, the one that
/// parsing that input gives. No partial output is returned.
pub fn parse_counts(inputs: &[&str]) -> (parsed: Result<Vec<u32>, ParseIntError>)
    ensures
        match parsed {
            Ok(values) => all_parse(inputs@, inputs@.len() as int) && values@.len()
                == inputs@.len() && forall|i: int|
                0 <= i < inputs@.len() ==> Some(#[trigger] values@[i]) == spec_u32_text(inputs@[i]@),
            Err(error) => !all_parse(inputs@, inputs@.len() as int) && exists|i: int|
                0 <= i < inputs@.len() && all_parse(inputs@, i) && spec_u32_text(
                    #[trigger] inputs@[i]@,
                ) is None && error == u32_parse_error(inputs@[i]@),
        },
{
    let mut values: Vec<u32> = Vec::new();
    let mut i: usize = 0;
    while i < inputs.len()
        invariant
            i <= inputs@.len(),
            values@.len() == i,
            all_parse(inputs@, i as int),
            forall|j: int| 0 <= j < i ==> Some(#[trigger] values@[j]) == spec_u32_text(inputs@[j]@),
        decreases inputs@.len() - i,
    {
        match parse_u32(inputs[i]) {
            Ok(value) => values.push(value),
            Err(error) => {
                assert(spec_u32_text(inputs@[i as int]@) is None);
                assert(error == u32_parse_error(inputs@[i as int]@));
                return Err(error);
            },
        }
        i = i + 1;
    }
    Ok(values)
}

} // verus!
