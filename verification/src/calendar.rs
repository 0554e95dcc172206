//! Dates as day numbers: a date is the number of days since 1970-01-01 in
//! the proleptic Gregorian calendar (`i32`, as chrono's
//! `NaiveDate::from_epoch_days` counts them), a point in time is a UNIX
//! timestamp in seconds. Calendar fields come from chrono; `civil_day`
//! states what they are.

use vstd::prelude::*;
use chrono::Datelike;
use chrono::TimeZone;
use crate::format::rfc3339_text;

verus! {

/// Seconds in a day.
pub const SECONDS_PER_DAY: i64 = 86400;

/// The day number of chrono's earliest date, January 1 of year -262143.
pub const MIN_EPOCH_DAY: i32 = -96465292;

/// The day number of chrono's latest date, December 31 of year 262142.
pub const MAX_EPOCH_DAY: i32 = 95026236;

/// The earliest timestamp a `DateTime<Utc>` holds (start of `MIN_EPOCH_DAY`).
pub const MIN_TIMESTAMP: i64 = -8334601228800;

/// The latest timestamp a `DateTime<Utc>` holds (end of `MAX_EPOCH_DAY`).
pub const MAX_TIMESTAMP: i64 = 8210266876799;

/// The number chrono's `num_days_from_ce` gives 1970-01-01 (0001-01-01 being 1).
pub const CE_DAY_OF_EPOCH: i32 = 719163;

/// A timestamp that a `DateTime<Utc>` can hold.
pub open spec fn valid_timestamp(t: int) -> bool {
    MIN_TIMESTAMP <= t <= MAX_TIMESTAMP
}

/// The UTC date of timestamp `t`, as a day number.
pub open spec fn epoch_day(t: int) -> int {
    t / (SECONDS_PER_DAY as int)
}

/// `day` is a date chrono holds.
pub open spec fn day_in_range(day: int) -> bool {
    MIN_EPOCH_DAY <= day <= MAX_EPOCH_DAY
}

/// Days since the last Monday (0 for Monday .. 6 for Sunday); day 0 was a Thursday.
pub open spec fn days_from_monday(day: int) -> int {
    (day + 3) % 7
}

/// The Monday that starts the week of `day`.
pub open spec fn week_start(day: int) -> int {
    day - days_from_monday(day)
}

/// The earliest year chrono holds.
pub const MIN_YEAR: i32 = -262143;

/// The latest year chrono holds.
pub const MAX_YEAR: i32 = 262142;

/// A leap year of the proleptic Gregorian calendar.
pub open spec fn is_leap_year(y: int) -> bool {
    (y % 4 == 0 && y % 100 != 0) || y % 400 == 0
}

/// The number of days of month `m` (1..=12) of year `y`.
pub open spec fn days_in_month(y: int, m: int) -> int {
    if m == 2 {
        if is_leap_year(y) {
            29
        } else {
            28
        }
    } else if m == 4 || m == 6 || m == 9 || m == 11 {
        30
    } else {
        31
    }
}

/// The leap years among years 1..=y, counted as the calendar's rule counts
/// them (negative for the years before year 1).
pub open spec fn leap_years_through(y: int) -> int {
    y / 4 - y / 100 + y / 400
}

/// The days of year `y` before the first of month `m` (1..=12).
pub open spec fn days_before_month(y: int, m: int) -> int {
    let common = if m == 1 {
        0int
    } else if m == 2 {
        31
    } else if m == 3 {
        59
    } else if m == 4 {
        90
    } else if m == 5 {
        120
    } else if m == 6 {
        151
    } else if m == 7 {
        181
    } else if m == 8 {
        212
    } else if m == 9 {
        243
    } else if m == 10 {
        273
    } else if m == 11 {
        304
    } else {
        334
    };
    if m > 2 && is_leap_year(y) {
        common + 1
    } else {
        common
    }
}

/// The day number of the date `y`-`m`-`d` of the proleptic Gregorian
/// calendar (days since 1970-01-01).
pub open spec fn civil_day(y: int, m: int, d: int) -> int {
    365 * (y - 1) + leap_years_through(y - 1) + days_before_month(y, m) + d - CE_DAY_OF_EPOCH
}

/// A date of the calendar: a month and a day of that month.
pub open spec fn is_date(y: int, m: int, d: int) -> bool {
    &&& 1 <= m <= 12
    &&& 1 <= d <= days_in_month(y, m)
}

/// A date chrono holds: a date with a year in its range.
pub open spec fn valid_date(y: int, m: int, d: int) -> bool {
    &&& MIN_YEAR <= y <= MAX_YEAR
    &&& is_date(y, m, d)
}

/// The year, month and day of the day number `day` (there is at most one:
/// `lemma_civil_day_injective`).
pub open spec fn date_of_day(day: int) -> (int, int, int) {
    choose|y: int, m: int, d: int| is_date(y, m, d) && civil_day(y, m, d) == day
}

/// The month index `12 * year + (month - 1)`: consecutive months, consecutive numbers.
pub open spec fn month_index(year: int, month: int) -> int {
    year * 12 + (month - 1)
}

/// The year of a month index.
pub open spec fn index_year(k: int) -> int {
    k / 12
}

/// The month (1..=12) of a month index.
pub open spec fn index_month(k: int) -> int {
    k % 12 + 1
}

/// The day number of the first day of the month with index `k`.
pub open spec fn month_start(k: int) -> int {
    civil_day(index_year(k), index_month(k), 1)
}

/// The length of the month with index `k`.
pub open spec fn month_length(k: int) -> int {
    days_in_month(index_year(k), index_month(k))
}

proof fn lemma_div_step(y: int, n: int)
    requires
        n > 0,
    ensures
        y / n - (y - 1) / n == if y % n == 0 {
            1int
        } else {
            0int
        },
{
    vstd::arithmetic::div_mod::lemma_fundamental_div_mod(y, n);
    let q = y / n;
    let r = y % n;
    assert(y == q * n + r) by (nonlinear_arith)
        requires
            y == n * q + r,
    ;
    if r == 0 {
        assert(y - 1 == (q - 1) * n + (n - 1)) by (nonlinear_arith)
            requires
                y == q * n + r,
                r == 0,
        ;
        vstd::arithmetic::div_mod::lemma_fundamental_div_mod_converse(y - 1, n, q - 1, n - 1);
    } else {
        vstd::arithmetic::div_mod::lemma_fundamental_div_mod_converse(y - 1, n, q, r - 1);
    }
}

proof fn lemma_divides_chain(y: int)
    ensures
        y % 400 == 0 ==> y % 100 == 0,
        y % 100 == 0 ==> y % 4 == 0,
{
    if y % 400 == 0 {
        vstd::arithmetic::div_mod::lemma_fundamental_div_mod(y, 400);
        vstd::arithmetic::div_mod::lemma_fundamental_div_mod_converse(y, 100, 4 * (y / 400), 0);
    }
    if y % 100 == 0 {
        vstd::arithmetic::div_mod::lemma_fundamental_div_mod(y, 100);
        vstd::arithmetic::div_mod::lemma_fundamental_div_mod_converse(y, 4, 25 * (y / 100), 0);
    }
}

proof fn lemma_leap_step(y: int)
    ensures
        leap_years_through(y) - leap_years_through(y - 1) == if is_leap_year(y) {
            1int
        } else {
            0int
        },
{
    lemma_div_step(y, 4);
    lemma_div_step(y, 100);
    lemma_div_step(y, 400);
    lemma_divides_chain(y);
}

/// The first day of the next month is the first day of this one plus its length.
pub proof fn lemma_month_step(k: int)
    ensures
        month_start(k + 1) == month_start(k) + month_length(k),
{
    let y = k / 12;
    let mm = k % 12;
    vstd::arithmetic::div_mod::lemma_fundamental_div_mod(k, 12);
    if mm < 11 {
        vstd::arithmetic::div_mod::lemma_fundamental_div_mod_converse(k + 1, 12, y, mm + 1);
        assert(index_year(k + 1) == y && index_month(k + 1) == mm + 2);
    } else {
        vstd::arithmetic::div_mod::lemma_fundamental_div_mod_converse(k + 1, 12, y + 1, 0);
        assert(index_year(k + 1) == y + 1 && index_month(k + 1) == 1);
        lemma_leap_step(y);
    }
}

/// Every month is at least 28 days long.
pub proof fn lemma_month_length_positive(k: int)
    ensures
        28 <= month_length(k) <= 31,
{
}

/// Months come in order: an earlier month ends no later than a later one starts.
pub proof fn lemma_month_starts_ordered(k1: int, k2: int)
    requires
        k1 < k2,
    ensures
        month_start(k1) + month_length(k1) <= month_start(k2),
    decreases k2 - k1,
{
    lemma_month_step(k1);
    if k1 + 1 < k2 {
        lemma_month_starts_ordered(k1 + 1, k2);
        lemma_month_length_positive(k1 + 1);
    }
}

/// The first days of months increase with the month index.
pub proof fn lemma_month_start_increasing(k1: int, k2: int)
    requires
        k1 < k2,
    ensures
        month_start(k1) < month_start(k2),
{
    lemma_month_starts_ordered(k1, k2);
    lemma_month_length_positive(k1);
}

/// A date's day number is its month's first day plus the days before it.
pub proof fn lemma_civil_in_month(y: int, m: int, d: int)
    requires
        1 <= m <= 12,
    ensures
        index_year(month_index(y, m)) == y,
        index_month(month_index(y, m)) == m,
        civil_day(y, m, d) == month_start(month_index(y, m)) + d - 1,
        month_length(month_index(y, m)) == days_in_month(y, m),
{
    vstd::arithmetic::div_mod::lemma_fundamental_div_mod_converse(month_index(y, m), 12, y, m - 1);
}

/// Distinct dates have distinct day numbers.
pub proof fn lemma_civil_day_injective(y1: int, m1: int, d1: int, y2: int, m2: int, d2: int)
    requires
        is_date(y1, m1, d1),
        is_date(y2, m2, d2),
        civil_day(y1, m1, d1) == civil_day(y2, m2, d2),
    ensures
        y1 == y2 && m1 == m2 && d1 == d2,
{
    let k1 = month_index(y1, m1);
    let k2 = month_index(y2, m2);
    lemma_civil_in_month(y1, m1, d1);
    lemma_civil_in_month(y2, m2, d2);
    if k1 < k2 {
        lemma_month_starts_ordered(k1, k2);
    } else if k2 < k1 {
        lemma_month_starts_ordered(k2, k1);
    }
}

/// The date of a valid date's day number is that date.
pub proof fn lemma_date_of_day(y: int, m: int, d: int)
    requires
        is_date(y, m, d),
    ensures
        date_of_day(civil_day(y, m, d)) == (y, m, d),
{
    let day = civil_day(y, m, d);
    assert(is_date(y, m, d) && civil_day(y, m, d) == day);
    let (y2, m2, d2) = date_of_day(day);
    lemma_civil_day_injective(y, m, d, y2, m2, d2);
}

/// Every date chrono holds has a day number in its range.
pub proof fn lemma_valid_date_in_range(y: int, m: int, d: int)
    requires
        valid_date(y, m, d),
    ensures
        day_in_range(civil_day(y, m, d)),
{
    let k = month_index(y, m);
    let k0 = month_index(MIN_YEAR as int, 1);
    let k1 = month_index(MAX_YEAR as int, 12);
    lemma_civil_in_month(y, m, d);
    lemma_civil_in_month(MIN_YEAR as int, 1, 1);
    lemma_civil_in_month(MAX_YEAR as int, 12, 31);
    assert(civil_day(MIN_YEAR as int, 1, 1) == MIN_EPOCH_DAY);
    assert(civil_day(MAX_YEAR as int, 12, 31) == MAX_EPOCH_DAY);
    if k0 < k {
        lemma_month_start_increasing(k0, k);
    }
    if k < k1 {
        lemma_month_starts_ordered(k, k1);
    }
}

/// Calls `chrono::NaiveDate::from_epoch_days` and reads the year, month and
/// day of the date. Claims: `Some` exactly within chrono's date range
/// (`NaiveDate::MIN`..=`NaiveDate::MAX`), holding the proleptic Gregorian
/// date whose day number is `day`.
#[verifier::external_body]
pub(crate) fn calendar_of_epoch_day(day: i32) -> (r: Option<(i32, u32, u32)>)
    ensures
        r is Some <==> day_in_range(day as int),
        r matches Some(c) ==> valid_date(c.0 as int, c.1 as int, c.2 as int) && civil_day(
            c.0 as int,
            c.1 as int,
            c.2 as int,
        ) == day,
{
    match chrono::NaiveDate::from_epoch_days(day) {
        Some(d) => Some((d.year(), d.month(), d.day())),
        None => None,
    }
}

/// Calls `chrono::NaiveDate::from_ymd_opt` and reads the date's
/// `num_days_from_ce`. Claims: `Some` exactly for a date chrono holds (a year
/// in its range, a month, a day of that month), holding the date's number of
/// days counted with 0001-01-01 as day 1.
#[verifier::external_body]
pub(crate) fn ce_day_of_date(year: i32, month: u32, day: u32) -> (r: Option<i32>)
    ensures
        r == if valid_date(year as int, month as int, day as int) {
            Some((civil_day(year as int, month as int, day as int) + CE_DAY_OF_EPOCH) as i32)
        } else {
            None
        },
{
    match chrono::NaiveDate::from_ymd_opt(year, month, day) {
        Some(d) => Some(d.num_days_from_ce()),
        None => None,
    }
}

/// Calls `chrono::Utc.timestamp_opt(secs, 0).single()` and tells whether it
/// gave a date-time. Claims: exactly for the timestamps within chrono's range.
#[verifier::external_body]
pub(crate) fn utc_timestamp_exists(secs: i64) -> (r: bool)
    ensures
        r == valid_timestamp(secs as int),
{
    chrono::Utc.timestamp_opt(secs, 0).single().is_some()
}

/// Calls `chrono::DateTime::from_timestamp(secs, 0)`, places it at
/// `FixedOffset::east_opt(offset_seconds)` and writes it with `to_rfc3339`.
/// Claims: `Some` exactly when the timestamp is in chrono's range and the
/// offset is less than a day either way, holding the local date and time and
/// the offset as `to_rfc3339` writes them (see `rfc3339_text`).
#[verifier::external_body]
pub(crate) fn rfc3339_at(secs: i64, offset_seconds: i32) -> (r: Option<String>)
    ensures
        r is Some <==> (valid_timestamp(secs as int) && -86400 < offset_seconds < 86400),
        r matches Some(text) ==> text@ == rfc3339_text(secs as int, offset_seconds as int),
{
    let offset = chrono::FixedOffset::east_opt(offset_seconds)?;
    let utc = chrono::DateTime::from_timestamp(secs, 0)?.naive_utc();
    Some(chrono::DateTime::<chrono::FixedOffset>::from_naive_utc_and_offset(utc, offset).to_rfc3339())
}

/// The UTC date of timestamp `t`, as a day number (what chrono's `date_naive`
/// gives for a `DateTime<Utc>`).
pub fn epoch_day_of(t: i64) -> (d: i64)
    ensures
        d == epoch_day(t as int),
{
    if t >= 0 {
        let q = t / SECONDS_PER_DAY;
        proof {
            vstd::arithmetic::div_mod::lemma_fundamental_div_mod(t as int, 86400);
        }
        q
    } else {
        let a: u64 = (-(t + 1)) as u64;
        let q: u64 = a / 86400;
        let d = -(q as i64) - 1;
        proof {
            let r = (a % 86400) as int;
            vstd::arithmetic::div_mod::lemma_fundamental_div_mod(a as int, 86400);
            assert(a as int == 86400 * (q as int) + r);
            assert(0 <= r < 86400);
            assert(t as int == (-(q as int) - 1) * 86400 + (86400 - r - 1));
            vstd::arithmetic::div_mod::lemma_fundamental_div_mod_converse(
                t as int,
                86400,
                -(q as int) - 1,
                86400 - r - 1,
            );
        }
        d
    }
}

/// Days since the last Monday for a day number.
pub fn days_from_monday_of(day: i64) -> (r: i64)
    ensures
        r == days_from_monday(day as int),
        0 <= r < 7,
{
    // day + 3 = 7 * q + r with 0 <= r < 7
    if day >= -3 {
        let s: u64 = if day >= 0 { day as u64 + 3 } else { (day + 3) as u64 };
        let r = (s % 7) as i64;
        proof {
            vstd::arithmetic::div_mod::lemma_fundamental_div_mod(s as int, 7);
        }
        r
    } else {
        let a: u64 = (-(day + 4)) as u64;
        let m: u64 = a % 7;
        let r = 6 - m as i64;
        proof {
            let q = (a / 7) as int;
            vstd::arithmetic::div_mod::lemma_fundamental_div_mod(a as int, 7);
            assert(a as int == 7 * q + m as int);
            assert(day as int + 3 == (-q - 1) * 7 + (6 - m as int));
            vstd::arithmetic::div_mod::lemma_fundamental_div_mod_converse(
                day as int + 3,
                7,
                -q - 1,
                6 - m as int,
            );
        }
        r
    }
}

/// The Monday that starts the week of `day`.
pub fn week_start_of(day: i64) -> (r: i64)
    requires
        day >= i64::MIN + 7,
    ensures
        r == week_start(day as int),
{
    day - days_from_monday_of(day)
}

} // verus!
