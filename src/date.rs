//! Request dates: the compact `X-Amz-Date` form and the three forms of the
//! HTTP `Date` header, read as seconds since the Unix epoch.
use vstd::prelude::*;
use vstd::string::*;

verus! {

/// What chrono's `NaiveDateTime::parse_from_str` reads from `value` with
/// format `fmt`, as seconds since the epoch, taking the time as UTC.
pub uninterp spec fn naive_datetime_seconds(value: Seq<char>, fmt: Seq<char>) -> Option<int>;

/// Relies on `chrono::NaiveDateTime::parse_from_str`, which returns an error
/// rather than panicking on input that does not match the format; the result
/// is a function of the two strings alone.
#[verifier::external_body]
fn parse_naive_datetime(value: &str, fmt: &str) -> (r: Option<i64>)
    ensures
        match r {
            Some(t) => naive_datetime_seconds(value@, fmt@) == Some(t as int),
            None => naive_datetime_seconds(value@, fmt@) is None,
        },
{
    chrono::NaiveDateTime::parse_from_str(value, fmt).ok().map(|d| d.and_utc().timestamp())
}

pub open spec fn amz_format() -> Seq<char> {
    "%Y%m%dT%H%M%S"@
}

pub open spec fn imf_fixdate_format() -> Seq<char> {
    "%a, %d %b %Y %T GMT"@
}

pub open spec fn rfc850_format() -> Seq<char> {
    "%A, %d-%b-%y %T GMT"@
}

pub open spec fn asctime_format() -> Seq<char> {
    "%a %b %e %T %Y"@
}

#[derive(Debug, PartialEq, Eq, Structural)]
pub enum AmzDateError {
    /// The text before the `Z` is not a date.
    Parse,
    /// There is no trailing `Z`.
    Invalid,
}

/// An `X-Amz-Date` value `YYYYMMDDTHHMMSSZ`.
pub open spec fn amz_date_of(value: Seq<char>) -> Result<int, AmzDateError> {
    if value.len() == 0 || value.last() != 'Z' {
        Err(AmzDateError::Invalid)
    } else {
        match naive_datetime_seconds(value.drop_last(), amz_format()) {
            Some(t) => Ok(t),
            None => Err(AmzDateError::Parse),
        }
    }
}

/// Reads the date of an `X-Amz-Date` header.
pub fn parse_amz_date(value: &str) -> (r: Result<i64, AmzDateError>)
    ensures
        match r {
            Ok(t) => amz_date_of(value@) == Ok::<int, AmzDateError>(t as int),
            Err(e) => amz_date_of(value@) == Err::<int, AmzDateError>(e),
        },
{
    let n = value.unicode_len();
    if n == 0 || value.get_char(n - 1) != 'Z' {
        return Err(AmzDateError::Invalid);
    }
    let stripped = value.substring_char(0, n - 1);
    assert(stripped@ =~= value@.drop_last());
    match parse_naive_datetime(stripped, "%Y%m%dT%H%M%S") {
        Some(t) => Ok(t),
        None => Err(AmzDateError::Parse),
    }
}

#[derive(Debug, PartialEq, Eq, Structural)]
pub struct InvalidHttpDate;

/// A `Date` value in IMF-fixdate, RFC 850 or asctime form, tried in that
/// order.
pub open spec fn http_date_of(value: Seq<char>) -> Option<int> {
    match naive_datetime_seconds(value, imf_fixdate_format()) {
        Some(t) => Some(t),
        None => match naive_datetime_seconds(value, rfc850_format()) {
            Some(t) => Some(t),
            None => naive_datetime_seconds(value, asctime_format()),
        },
    }
}

/// Reads the date of a `Date` header.
pub fn parse_http_date(value: &str) -> (r: Result<i64, InvalidHttpDate>)
    ensures
        match r {
            Ok(t) => http_date_of(value@) == Some(t as int),
            Err(_) => http_date_of(value@) is None,
        },
{
    match parse_naive_datetime(value, "%a, %d %b %Y %T GMT") {
        Some(t) => Ok(t),
        None => match parse_naive_datetime(value, "%A, %d-%b-%y %T GMT") {
            Some(t) => Ok(t),
            None => match parse_naive_datetime(value, "%a %b %e %T %Y") {
                Some(t) => Ok(t),
                None => Err(InvalidHttpDate),
            },
        },
    }
}

} // verus!
