//! Dates as mail and HTTP headers write them. The parsing is chrono's.
use vstd::prelude::*;

use crate::errors::{ErrorKind, Errors};

verus! {

/// The seconds since the Unix epoch of the date that `text` writes in the
/// form of RFC 2822, as chrono reads it, or `None` where chrono refuses it.
pub uninterp spec fn rfc2822_timestamp(text: Seq<char>) -> Option<i64>;

/// `chrono::DateTime::parse_from_rfc2822`, and `DateTime::timestamp` of the
/// date it read. The contract claims only that the outcome depends on the
/// text alone.
#[verifier::external_body]
pub(crate) fn parse_rfc2822(text: &str) -> (r: Result<i64, chrono::ParseError>)
    ensures
        match r {
            Ok(seconds) => rfc2822_timestamp(text@) == Some(seconds),
            Err(_) => rfc2822_timestamp(text@) is None,
        },
{
    chrono::DateTime::parse_from_rfc2822(text).map(|date| date.timestamp())
}

/// Turns the outcome of reading a date into a timestamp or this library's
/// error, which keeps chrono's.
pub fn timestamp_from(read: Result<i64, chrono::ParseError>) -> (r: Result<i64, Errors>)
    ensures
        match (r, read) {
            (Ok(t), Ok(seconds)) => t == seconds,
            (Err(e), Err(_)) => e@ == ErrorKind::DateTimeConversionError,
            _ => false,
        },
{
    match read {
        Ok(seconds) => Ok(seconds),
        Err(e) => Err(Errors::DateTimeConversionError(e)),
    }
}

} // verus!
