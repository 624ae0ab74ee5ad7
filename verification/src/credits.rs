//! The credit hours of a course, as the catalog writes them.

use crate::catalog::Credits;
use crate::text::{
    at_most, chars_of, find_char, first_index, parse_decimal_floor, parse_integer,
    read_decimal_floor, read_integer,
};
use vstd::prelude::*;

verus! {

/// Why a string could not be read as credit hours.
#[derive(Debug, Clone, Copy, PartialEq, Eq)]
pub enum CreditsError {
    /// The string holds no `-` and is not an integer between 0 and 255.
    InvalidNumber,
    /// What stands before the first `-` is not a decimal number.
    InvalidLowerBound,
    /// What stands after the first `-` is not a decimal number.
    InvalidUpperBound,
}

/// What reading `s` as credit hours gives.
///
/// A string with a `-` in it is a range: what stands before the first `-` and what stands
/// after it are decimal numbers, of which the whole parts are kept, 255 standing for any
/// larger one. A string without is a single integer of at most 255.
pub open spec fn parse_credits(s: Seq<char>) -> Result<Credits, CreditsError> {
    let dash = first_index(s, '-');
    if dash < s.len() {
        match (parse_decimal_floor(s.take(dash)), parse_decimal_floor(s.skip(dash + 1))) {
            (None, _) => Err(CreditsError::InvalidLowerBound),
            (Some(_), None) => Err(CreditsError::InvalidUpperBound),
            (Some(lower), Some(upper)) => Ok(
                (at_most(lower, 255) as u8, Some(at_most(upper, 255) as u8)),
            ),
        }
    } else {
        match parse_integer(s) {
            Some(n) => if n <= 255 {
                Ok((n as u8, None))
            } else {
                Err(CreditsError::InvalidNumber)
            },
            None => Err(CreditsError::InvalidNumber),
        }
    }
}

/// Reads the credit hours of a course: `"3"` is three hours, `"1.0-3.0"` one to three.
pub fn parse_course_credits(credits_str: &str) -> (r: Result<Credits, CreditsError>)
    ensures
        r == parse_credits(credits_str@),
{
    let chars = chars_of(credits_str);
    let end: usize = chars.len();
    let dash: usize = find_char(&chars, 0, end, '-');
    proof {
        assert(chars@.subrange(0, end as int) == chars@);
        assert(chars@.take(dash as int) == chars@.subrange(0, dash as int));
    }
    if dash < end {
        proof {
            assert(chars@.skip(dash + 1) == chars@.subrange(dash + 1, end as int));
        }
        let lower = match read_decimal_floor(&chars, 0, dash, 255) {
            Some(lower) => lower,
            None => {
                return Err(CreditsError::InvalidLowerBound);
            },
        };
        let upper = match read_decimal_floor(&chars, dash + 1, end, 255) {
            Some(upper) => upper,
            None => {
                return Err(CreditsError::InvalidUpperBound);
            },
        };
        Ok((lower as u8, Some(upper as u8)))
    } else {
        match read_integer(&chars, 0, end, 255) {
            Some(n) => Ok((n as u8, None)),
            None => Err(CreditsError::InvalidNumber),
        }
    }
}

impl CreditsError {
    /// The error in words.
    pub open spec fn text(self) -> Seq<char> {
        match self {
            CreditsError::InvalidNumber => "credits are not an integer between 0 and 255"@,
            CreditsError::InvalidLowerBound => "lower bound of credits is not a number"@,
            CreditsError::InvalidUpperBound => "upper bound of credits is not a number"@,
        }
    }

    /// The error in words.
    pub fn message(&self) -> (r: &'static str)
        ensures
            r@ == self.text(),
    {
        match self {
            CreditsError::InvalidNumber => "credits are not an integer between 0 and 255",
            CreditsError::InvalidLowerBound => "lower bound of credits is not a number",
            CreditsError::InvalidUpperBound => "upper bound of credits is not a number",
        }
    }
}

} // verus!
