//! Timestamps as seconds since the Unix epoch, and the small calendar
//! arithmetic the billing logic needs: flooring to the hour, the hour of
//! the day, the calendar day, and parsing of RFC 3339 timestamp strings.

use vstd::prelude::*;

verus! {

/// Seconds in one hour.
pub const SECONDS_PER_HOUR: i64 = 3600;

/// Seconds in one calendar day.
pub const SECONDS_PER_DAY: i64 = 86400;

/// Seconds in one five-hour billing window.
pub const SESSION_DURATION_SECONDS: i64 = 18000;

/// The smallest epoch second a parsed timestamp can hold; the parser's
/// calendar only reaches back about 262,000 years.
pub const MIN_TIMESTAMP: i64 = -0x800_0000_0000;

/// The largest epoch second a parsed timestamp can hold; the parser's
/// calendar only reaches forward about 262,000 years.
pub const MAX_TIMESTAMP: i64 = 0x800_0000_0000;

/// A timestamp within the calendar range that parsed timestamps inhabit.
/// Far from the extremes of `i64`, so adding or subtracting spans of hours
/// or days never overflows.
pub open spec fn ts_in_range(t: int) -> bool {
    MIN_TIMESTAMP <= t <= MAX_TIMESTAMP
}

/// A timestamp a caller may pin as a block start: within a week of the
/// calendar range, so that flooring it to the hour and comparing it with
/// entry timestamps stays far from overflow.
pub open spec fn ts_settable(t: int) -> bool {
    MIN_TIMESTAMP - 604800 <= t <= MAX_TIMESTAMP + 604800
}

/// A timestamp as the override store holds it: a settable timestamp
/// floored to the hour, so at most one hour below the settable range.
pub open spec fn ts_stored(t: int) -> bool {
    MIN_TIMESTAMP - 608400 <= t <= MAX_TIMESTAMP + 604800
}

/// What an RFC 3339 timestamp string denotes: the UTC epoch second it
/// names, or `None` when the string is not a valid RFC 3339 timestamp.
/// The outside parser computes this from the string alone.
pub uninterp spec fn rfc3339_epoch(s: Seq<char>) -> Option<i64>;

/// Relies on chrono's `DateTime::parse_from_rfc3339` followed by
/// `DateTime::timestamp`: both are pure functions of the input string, so
/// together they compute one value per string, named `rfc3339_epoch`.
/// The range bound follows from chrono's `NaiveDate` covering years
/// -262143 to 262142 only, so any parsed timestamp is within about
/// 8.3e12 seconds of the epoch.
#[verifier::external_body]
pub fn parse_rfc3339_utc(s: &str) -> (r: Option<i64>)
    ensures
        r == rfc3339_epoch(s@),
        r matches Some(t) ==> ts_in_range(t as int),
{
    match chrono::DateTime::parse_from_rfc3339(s) {
        Ok(dt) => Some(dt.timestamp()),
        Err(_) => None,
    }
}

/// Euclidean division with a positive divisor, as the calendar arithmetic
/// below needs it: the result is the floor of the exact quotient.
fn floor_div(a: i64, b: i64) -> (r: i64)
    requires
        b > 0,
    ensures
        r == a as int / b as int,
{
    match a.checked_div_euclid(b) {
        Some(q) => q,
        None => {
            proof {
                assert(i64::MIN <= a as int / b as int <= i64::MAX) by (nonlinear_arith)
                    requires
                        b > 0,
                        i64::MIN <= a <= i64::MAX,
                ;
            }
            0
        },
    }
}

/// Euclidean remainder with a positive divisor: the result is in `[0, b)`.
fn floor_rem(a: i64, b: i64) -> (r: i64)
    requires
        b > 0,
    ensures
        r == a as int % b as int,
        0 <= r < b,
{
    match a.checked_rem_euclid(b) {
        Some(q) => q,
        None => {
            proof {
                assert(0 <= (a as int % b as int) < b) by (nonlinear_arith)
                    requires
                        b > 0,
                ;
            }
            0
        },
    }
}

/// The epoch second of the start of the hour containing `t`.
pub open spec fn spec_floor_to_hour(t: int) -> int {
    t - (t % (SECONDS_PER_HOUR as int))
}

/// Floor a timestamp down to the start of its hour (minutes, seconds
/// dropped), as the override store requires of every stored start time.
pub fn floor_to_hour(timestamp: i64) -> (r: i64)
    requires
        i64::MIN + SECONDS_PER_HOUR < timestamp,
    ensures
        r == spec_floor_to_hour(timestamp as int),
        r <= timestamp,
{
    let rem = floor_rem(timestamp, SECONDS_PER_HOUR);
    timestamp - rem
}

/// The hour of the day (0 to 23, UTC) containing the timestamp.
pub open spec fn spec_hour_of_day(t: int) -> int {
    (t % (SECONDS_PER_DAY as int)) / (SECONDS_PER_HOUR as int)
}

/// The hour of the day (0 to 23, UTC) containing the timestamp.
pub fn hour_of_day(timestamp: i64) -> (h: i64)
    ensures
        h == spec_hour_of_day(timestamp as int),
        0 <= h < 24,
{
    let seconds_into_day = floor_rem(timestamp, SECONDS_PER_DAY);
    let h = floor_div(seconds_into_day, SECONDS_PER_HOUR);
    proof {
        assert(0 <= seconds_into_day as int / (SECONDS_PER_HOUR as int) < 24) by (nonlinear_arith)
            requires
                0 <= seconds_into_day < 86400,
        ;
    }
    h
}

/// The calendar day (UTC) containing the timestamp, counted in days since
/// the Unix epoch; negative for timestamps before it.
pub open spec fn spec_day_of(t: int) -> int {
    t / (SECONDS_PER_DAY as int)
}

/// The calendar day (UTC) containing the timestamp, counted in days since
/// the Unix epoch.
pub fn day_of(timestamp: i64) -> (d: i64)
    ensures
        d == spec_day_of(timestamp as int),
{
    floor_div(timestamp, SECONDS_PER_DAY)
}

} // verus!
