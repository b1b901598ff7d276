//! Reading points in time given on the command line.

use vstd::prelude::*;

verus! {

/// Whether `c` is an ASCII decimal digit.
pub open spec fn is_digit(c: char) -> bool {
    '0' <= c && c <= '9'
}

/// The value of a string of decimal digits.
pub open spec fn digits_value(s: Seq<char>) -> int
    decreases s.len(),
{
    if s.len() == 0 {
        0
    } else {
        digits_value(s.drop_last()) * 10 + (s.last() as int - '0' as int)
    }
}

/// What `i64`'s `FromStr` reads from `s`: an optional `+` or `-`, then one
/// or more decimal digits and nothing else, whose value fits in an `i64`.
pub open spec fn decimal_i64(s: Seq<char>) -> Option<i64> {
    let negative = s.len() > 0 && s[0] == '-';
    let digits = if s.len() > 0 && (s[0] == '-' || s[0] == '+') { s.drop_first() } else { s };
    let value = if negative { -digits_value(digits) } else { digits_value(digits) };
    if digits.len() == 0 || exists|i: int| 0 <= i < digits.len() && !is_digit(#[trigger] digits[i]) {
        None
    } else if value < i64::MIN || value > i64::MAX {
        None
    } else {
        Some(value as i64)
    }
}

/// Relies on `str::parse::<i64>`: its documented grammar, an optional sign
/// followed by decimal digits, within the range of `i64`.
#[verifier::external_body]
fn parse_i64(s: &str) -> (r: Option<i64>)
    ensures
        r == decimal_i64(s@),
{
    s.parse::<i64>().ok()
}

/// Why a string is not a Unix time.
#[derive(Debug, Clone, Copy, PartialEq, Eq)]
pub enum EpochError {
    /// It is not a decimal integer.
    NotANumber,
    /// As seconds, it does not fit in milliseconds.
    OutOfRange,
}

/// Unix times above this many milliseconds (2000-01-01) are read as
/// milliseconds, the others as seconds.
pub const MILLIS_THRESHOLD: i64 = 946684800000;

/// The milliseconds that `s` stands for: a decimal integer above
/// `MILLIS_THRESHOLD` is milliseconds already, any other is seconds.
pub open spec fn epoch_ms_view(s: Seq<char>) -> Result<i64, EpochError> {
    match decimal_i64(s) {
        None => Err(EpochError::NotANumber),
        Some(v) => if v > MILLIS_THRESHOLD {
            Ok(v)
        } else if i64::MIN <= v * 1000 <= i64::MAX {
            Ok((v * 1000) as i64)
        } else {
            Err(EpochError::OutOfRange)
        },
    }
}

/// A Unix time in seconds or milliseconds, as milliseconds.
pub fn parse_as_epoch_ms(candidate: &str) -> (r: Result<i64, EpochError>)
    ensures
        r == epoch_ms_view(candidate@),
{
    let ms = match parse_i64(candidate) {
        Some(v) => v,
        None => return Err(EpochError::NotANumber),
    };
    if ms > MILLIS_THRESHOLD {
        Ok(ms)
    } else {
        match ms.checked_mul(1000) {
            Some(v) => Ok(v),
            None => Err(EpochError::OutOfRange),
        }
    }
}

} // verus!
