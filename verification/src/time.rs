//! The trusted boundary to the clock and the timestamp formatter.

use vstd::prelude::*;

verus! {

/// The RFC 3339 text of an instant given as nanoseconds since the epoch:
/// UTC, nanosecond precision, a `Z` suffix. A function of the instant alone.
pub uninterp spec fn rfc3339_nanos_of(t: i64) -> Seq<char>;

/// Relies on chrono's `DateTime::<Utc>::from_timestamp_nanos`, total on all
/// of `i64`, and on `DateTime::to_rfc3339_opts` with nanosecond seconds and
/// a `Z` suffix: the text depends on the instant alone.
#[verifier::external_body]
pub(crate) fn format_rfc3339_nanos(t: i64) -> (r: String)
    ensures
        r@ == rfc3339_nanos_of(t),
{
    chrono::DateTime::<chrono::Utc>::from_timestamp_nanos(t)
        .to_rfc3339_opts(chrono::SecondsFormat::Nanos, true)
}

/// Relies on chrono's `Utc::now`: the current wall-clock instant, reduced to
/// nanoseconds since the epoch. An instant outside the range that `i64`
/// nanoseconds can carry (roughly the years 1677 to 2262) is reported as 0.
/// Nothing is promised of the result: it depends on the machine's clock.
#[verifier::external_body]
pub(crate) fn now_nanos() -> i64 {
    chrono::Utc::now().timestamp_nanos_opt().unwrap_or(0)
}

} // verus!
