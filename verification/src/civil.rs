//! The proleptic Gregorian calendar: civil dates against days since the Unix epoch.

use vstd::prelude::*;
use time::OffsetDateTime;

verus! {

pub open spec fn is_leap(y: int) -> bool {
    y % 4 == 0 && (y % 100 != 0 || y % 400 == 0)
}

/// Days in `month` of `year`; 0 for a month that does not exist.
pub open spec fn days_in_month(year: int, month: int) -> int {
    if month == 1 || month == 3 || month == 5 || month == 7 || month == 8 || month == 10 || month
        == 12 {
        31
    } else if month == 4 || month == 6 || month == 9 || month == 11 {
        30
    } else if month == 2 {
        if is_leap(year) {
            29
        } else {
            28
        }
    } else {
        0
    }
}

/// Days from 0001-01-01 to the first day of `y`.
pub open spec fn days_before_year(y: int) -> int {
    365 * (y - 1) + (y - 1) / 4 - (y - 1) / 100 + (y - 1) / 400
}

/// Days from the first of the year to the first of `month`.
pub open spec fn days_before_month(y: int, month: int) -> int
    decreases month,
{
    if month <= 1 {
        0
    } else {
        days_before_month(y, month - 1) + days_in_month(y, month - 1)
    }
}

/// Days since 1970-01-01 of the civil date `y-m-d` (negative before it).
pub open spec fn epoch_days(y: int, m: int, d: int) -> int {
    days_before_year(y) + days_before_month(y, m) + d - 1 - 719162
}

/// A valid time of day and date, month and day in range.
pub open spec fn valid_civil(y: int, m: int, d: int, h: int, mi: int, s: int) -> bool {
    1 <= m <= 12 && 1 <= d <= days_in_month(y, m) && 0 <= h < 24 && 0 <= mi < 60 && 0 <= s < 60
}

/// The seconds since the epoch of a civil date and time of day.
pub open spec fn epoch_seconds(y: int, m: int, d: int, h: int, mi: int, s: int) -> int {
    epoch_days(y, m, d) * 86400 + h * 3600 + mi * 60 + s
}

/// The first and last timestamps the `time` crate represents (years -9999 through 9999).
pub open spec fn min_timestamp() -> int {
    epoch_seconds(-9999, 1, 1, 0, 0, 0)
}

pub open spec fn max_timestamp() -> int {
    epoch_seconds(9999, 12, 31, 23, 59, 59)
}

/// The last local midnight at or before `now`, as a Unix timestamp, for a zone
/// `offset_secs` ahead of UTC: a daily limit resets at the viewer's midnight, not UTC's.
pub fn start_of_local_day(now: i64, offset_secs: i64) -> (r: i64)
    requires
        i64::MIN <= now + offset_secs <= i64::MAX,
        i64::MIN <= (now + offset_secs) - (now + offset_secs) % 86400,
        i64::MIN <= (now + offset_secs) - (now + offset_secs) % 86400 - offset_secs <= i64::MAX,
    ensures
        r == (now + offset_secs) - (now + offset_secs) % 86400 - offset_secs,
        r <= now < r + 86400,
        (r + offset_secs) % 86400 == 0,
{
    let local = now + offset_secs;
    let mut into_day = local % 86400;
    if into_day < 0 {
        into_day = into_day + 86400;
    }
    assert(into_day == local % 86400);
    let midnight_local = local - into_day;
    midnight_local - offset_secs
}

/// A civil date and time in UTC.
#[derive(Debug, Clone, Copy, PartialEq, Eq)]
pub struct Civil {
    pub year: i32,
    pub month: u8,
    pub day: u8,
    pub hour: u8,
    pub minute: u8,
    pub second: u8,
}

/// `OffsetDateTime::from_unix_timestamp`, read back as a civil date and time in UTC.
///
/// Trusted: the contract claims what the `time` crate documents and its source shows —
/// a timestamp between the first second of year -9999 and the last of year 9999 gives
/// the one valid UTC date and time that many seconds from the epoch; any other gives
/// nothing.
#[verifier::external_body]
pub fn civil_from_unix(timestamp: i64) -> (r: Option<Civil>)
    ensures
        match r {
            Some(c) => valid_civil(
                c.year as int,
                c.month as int,
                c.day as int,
                c.hour as int,
                c.minute as int,
                c.second as int,
            ) && epoch_seconds(
                c.year as int,
                c.month as int,
                c.day as int,
                c.hour as int,
                c.minute as int,
                c.second as int,
            ) == timestamp,
            None => timestamp < min_timestamp() || timestamp > max_timestamp(),
        },
{
    let t = OffsetDateTime::from_unix_timestamp(timestamp).ok()?;
    Some(Civil {
        year: t.year(),
        month: u8::from(t.month()),
        day: t.day(),
        hour: t.hour(),
        minute: t.minute(),
        second: t.second(),
    })
}

/// An offset from UTC the `time` crate can represent: at most 25:59:59 either way.
pub open spec fn offset_in_range(secs: int) -> bool {
    -93599 <= secs <= 93599
}

/// A timestamp the `time` crate can represent.
pub open spec fn timestamp_in_range(t: int) -> bool {
    min_timestamp() <= t <= max_timestamp()
}

/// Shifting a representable timestamp by a representable offset stays representable.
pub open spec fn local_time_in_range(timestamp: int, offset_secs: int) -> bool {
    offset_in_range(offset_secs) && timestamp_in_range(timestamp) ==> timestamp_in_range(
        timestamp + offset_secs,
    )
}

/// `UtcOffset::from_whole_seconds`, `OffsetDateTime::from_unix_timestamp`, then
/// `to_offset`: the date and time `offset_secs` east of UTC, with its weekday counted
/// from Monday.
///
/// Trusted: the contract claims what the `time` crate documents — nothing for an offset
/// beyond 25:59:59 or a timestamp outside years -9999 through 9999, and otherwise the
/// valid date and time that lies `timestamp + offset_secs` seconds from the epoch, with
/// the weekday of that date. `to_offset` panics when the shifted time leaves the
/// supported range; the precondition excludes that.
#[verifier::external_body]
pub fn local_civil(timestamp: i64, offset_secs: i32) -> (r: Option<(Civil, u8)>)
    requires
        local_time_in_range(timestamp as int, offset_secs as int),
    ensures
        match r {
            Some((c, w)) => {
                &&& offset_in_range(offset_secs as int)
                &&& timestamp_in_range(timestamp as int)
                &&& valid_civil(c.year as int, c.month as int, c.day as int, c.hour as int, c.minute as int, c.second as int)
                &&& epoch_seconds(c.year as int, c.month as int, c.day as int, c.hour as int, c.minute as int, c.second as int)
                    == timestamp + offset_secs
                &&& w as int == (epoch_days(c.year as int, c.month as int, c.day as int) + 3) % 7
            },
            None => !offset_in_range(offset_secs as int) || !timestamp_in_range(timestamp as int),
        },
{
    let offset = time::UtcOffset::from_whole_seconds(offset_secs).ok()?;
    let t = OffsetDateTime::from_unix_timestamp(timestamp).ok()?.to_offset(offset);
    let c = Civil {
        year: t.year(),
        month: u8::from(t.month()),
        day: t.day(),
        hour: t.hour(),
        minute: t.minute(),
        second: t.second(),
    };
    Some((c, t.weekday().number_days_from_monday()))
}

/// The day count and the time of day of a civil date and time are those of its
/// timestamp.
pub proof fn lemma_civil_split(y: int, m: int, d: int, h: int, mi: int, s: int)
    requires
        valid_civil(y, m, d, h, mi, s),
    ensures
        epoch_seconds(y, m, d, h, mi, s) / 86400 == epoch_days(y, m, d),
        (epoch_seconds(y, m, d, h, mi, s) % 86400) / 60 == h * 60 + mi,
{
    let e = epoch_days(y, m, d);
    let rem = h * 3600 + mi * 60 + s;
    assert(0 <= rem < 86400);
    vstd::arithmetic::div_mod::lemma_fundamental_div_mod_converse(e * 86400 + rem, 86400, e, rem);
    assert(rem / 60 == h * 60 + mi) by {
        vstd::arithmetic::div_mod::lemma_fundamental_div_mod_converse(rem, 60, h * 60 + mi, s);
    }
}

proof fn lemma_shift_div(x: int, k: int, q: int)
    requires
        k > 0,
        q >= 0,
    ensures
        (x + q * k) / k == x / k + q,
{
    let qx = x / k;
    let rx = x % k;
    vstd::arithmetic::div_mod::lemma_fundamental_div_mod(x, k);
    assert(x + q * k == (qx + q) * k + rx) by (nonlinear_arith)
        requires
            x == k * qx + rx,
    ;
    vstd::arithmetic::div_mod::lemma_fundamental_div_mod_converse(x + q * k, k, qx + q, rx);
}

/// Days since the epoch for a civil date of a year between 0 and 9999, as `epoch_days`.
pub fn days_from_civil(y: i64, m: i64, d: i64) -> (r: i64)
    requires
        0 <= y <= 9999,
        1 <= m <= 12,
        1 <= d <= 31,
    ensures
        r == epoch_days(y as int, m as int, d as int),
{
    // Shift the year by four hundred so every quotient is of a non-negative number.
    let yy: i64 = y - 1 + 400;
    proof {
        lemma_shift_div(y - 1, 4, 100);
        lemma_shift_div(y - 1, 100, 4);
        lemma_shift_div(y - 1, 400, 1);
    }
    let before_year: i64 = 365 * (y - 1) + (yy / 4 - 100) - (yy / 100 - 4) + (yy / 400 - 1);
    let leap = (y % 4 == 0) && (y % 100 != 0 || y % 400 == 0);
    let feb: i64 = if leap {
        29
    } else {
        28
    };
    let before_month: i64 = if m == 1 {
        0
    } else if m == 2 {
        31
    } else if m == 3 {
        31 + feb
    } else if m == 4 {
        62 + feb
    } else if m == 5 {
        92 + feb
    } else if m == 6 {
        123 + feb
    } else if m == 7 {
        153 + feb
    } else if m == 8 {
        184 + feb
    } else if m == 9 {
        215 + feb
    } else if m == 10 {
        245 + feb
    } else if m == 11 {
        276 + feb
    } else {
        306 + feb
    };
    proof {
        reveal_with_fuel(days_before_month, 13);
    }
    before_year + before_month + d - 1 - 719162
}

} // verus!
