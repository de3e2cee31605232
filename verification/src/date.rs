//! Rendering Unix timestamps as the feed's required calendar/time text.

use vstd::prelude::*;

use crate::error::{Error, ErrorKind};

verus! {

/// The smallest Unix timestamp whose UTC year the required format accepts
/// (1900-01-01T00:00:00Z; the format refuses earlier years).
pub const FEED_DATE_MIN_TIMESTAMP: i64 = -2208988800;

/// The largest representable Unix timestamp (9999-12-31T23:59:59Z).
pub const FEED_DATE_MAX_TIMESTAMP: i64 = 253402300799;

/// The RFC 2822 rendering of the UTC date and time at the given Unix
/// timestamp, for example `Tue, 14 Nov 2023 22:13:20 +0000`.
pub uninterp spec fn rfc2822_of(ts: int) -> Seq<char>;

/// Why a timestamp could not be rendered.
#[derive(Clone, Copy, Debug, PartialEq, Eq, Structural)]
pub enum DateRenderError {
    /// The timestamp lies outside the representable datetime range.
    OutOfRange,
    /// The datetime cannot be rendered in the required format.
    Unformattable,
}

/// Relies on time's `OffsetDateTime::from_unix_timestamp`, which accepts
/// exactly the timestamps of the years -9999..=9999, and on its RFC 2822
/// formatter, which accepts a UTC datetime exactly from year 1900 on and
/// renders it deterministically.
#[verifier::external_body]
fn format_rfc2822(ts: i64) -> (r: Result<String, DateRenderError>)
    ensures
        r is Ok <==> FEED_DATE_MIN_TIMESTAMP <= ts <= FEED_DATE_MAX_TIMESTAMP,
        r matches Ok(s) ==> s@ == rfc2822_of(ts as int),
        r matches Err(e) ==> (e is OutOfRange <==> !(-377705116800 <= ts
            <= FEED_DATE_MAX_TIMESTAMP)),
{
    let dt = match time::OffsetDateTime::from_unix_timestamp(ts) {
        Ok(dt) => dt,
        Err(_) => return Err(DateRenderError::OutOfRange),
    };
    match dt.format(&time::format_description::well_known::Rfc2822) {
        Ok(s) => Ok(s),
        Err(_) => Err(DateRenderError::Unformattable),
    }
}

/// Renders an entry's publication timestamp in the feed's date format, or
/// fails with a `Range` error for a timestamp beyond the representable range
/// (a `Format` error is reserved for a datetime the format itself refuses,
/// which cannot happen for timestamps at or after the Unix epoch).
pub fn pub_date_text(ts: u64) -> (r: Result<String, Error>)
    ensures
        r is Ok <==> ts <= FEED_DATE_MAX_TIMESTAMP as u64,
        r matches Ok(s) ==> s@ == rfc2822_of(ts as int),
        r matches Err(e) ==> e.kind == ErrorKind::Range,
{
    if ts > 9223372036854775807 {
        return Err(Error::new(ErrorKind::Range, "timestamp is too large".to_owned()));
    }
    match format_rfc2822(ts as i64) {
        Ok(s) => Ok(s),
        Err(DateRenderError::OutOfRange) => Err(
            Error::new(
                ErrorKind::Range,
                "timestamp is outside the representable date range".to_owned(),
            ),
        ),
        Err(DateRenderError::Unformattable) => Err(
            Error::new(
                ErrorKind::Format,
                "date cannot be rendered in the required format".to_owned(),
            ),
        ),
    }
}

} // verus!
