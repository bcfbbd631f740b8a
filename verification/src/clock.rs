//! The wall clock, and calendar rendering of timestamps.

use vstd::prelude::*;

verus! {

/// Relies on `chrono::Utc::now`: seconds since the Unix epoch at whatever
/// moment the call happens. Nothing is promised of the value.
#[verifier::external_body]
pub(crate) fn now_timestamp() -> i64 {
    chrono::Utc::now().timestamp()
}

/// The `YYYY-MM-DD` rendering (UTC) of a Unix timestamp.
pub uninterp spec fn ymd_of(ts: int) -> Seq<char>;

/// Relies on `chrono::DateTime::from_timestamp` and `format("%Y-%m-%d")`:
/// the rendered date is a pure function of the timestamp, always in UTC;
/// a timestamp outside chrono's range renders as the empty string.
#[verifier::external_body]
pub(crate) fn format_ymd(ts: i64) -> (r: String)
    ensures
        r@ == ymd_of(ts as int),
{
    match chrono::DateTime::<chrono::Utc>::from_timestamp(ts, 0) {
        Some(dt) => dt.format("%Y-%m-%d").to_string(),
        None => String::new(),
    }
}

} // verus!
