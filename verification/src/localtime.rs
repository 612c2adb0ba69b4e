//! Swiss local (civil) time for a given Unix instant (the SNTP-synced clock).
//!
//! Used by the display for the auto-dim window and the clock/date layout elements. Local time
//! is UTC plus the Swiss civil offset, computed per instant with EU daylight-saving rules
//! (CET = UTC+1 in winter, CEST = UTC+2 in summer). Everything here is a pure function of the
//! Unix time passed in.

use vstd::arithmetic::div_mod::{lemma_hoist_over_denominator, lemma_mod_multiples_vanish};
use vstd::prelude::*;

verus! {

/// Seconds in a day.
pub const DAY_SECS: i64 = 86_400;

/// Unix times this module computes with: a little over a year short of the ends of `i64`, so
/// that the daylight-saving instants of the same year are representable too.
pub const UNIX_LIMIT: i64 = 9_223_372_036_800_000_000;

/// Whether year `y` of the (proleptic) Gregorian calendar has a 29th of February.
pub open spec fn is_leap(y: int) -> bool {
    y % 4 == 0 && (y % 100 != 0 || y % 400 == 0)
}

/// The number of days of month `m` (1 = January) in year `y`.
pub open spec fn month_days(y: int, m: int) -> int {
    if m == 2 {
        if is_leap(y) {
            29
        } else {
            28
        }
    } else if m == 4 || m == 6 || m == 9 || m == 11 {
        30
    } else {
        31
    }
}

/// Days from 1 January of year `y` to the first of month `m`.
pub open spec fn month_start(y: int, m: int) -> int
    decreases m,
{
    if m <= 1 {
        0
    } else {
        month_start(y, m - 1) + month_days(y, m - 1)
    }
}

/// Days from 1 January 1970 to 1 January of year `y`. 477 leap years precede 1970.
pub open spec fn year_start(y: int) -> int {
    365 * (y - 1970) + (y - 1) / 4 - (y - 1) / 100 + (y - 1) / 400 - 477
}

/// Days from 1 January 1970 to the `d`-th of month `m` in year `y`.
pub open spec fn day_number(y: int, m: int, d: int) -> int {
    year_start(y) + month_start(y, m) + d - 1
}

/// Whether `d`.`m`.`y` is a day of the calendar.
pub open spec fn valid_date(y: int, m: int, d: int) -> bool {
    1 <= m <= 12 && 1 <= d <= month_days(y, m)
}

/// A quotient grows by one exactly at the multiples of the divisor.
#[verifier::spinoff_prover]
proof fn lemma_quotient_step(y: int)
    ensures
        y / 4 == (y - 1) / 4 + (if y % 4 == 0 {
            1int
        } else {
            0int
        }),
        y / 100 == (y - 1) / 100 + (if y % 100 == 0 {
            1int
        } else {
            0int
        }),
        y / 400 == (y - 1) / 400 + (if y % 400 == 0 {
            1int
        } else {
            0int
        }),
        y % 100 == 0 ==> y % 4 == 0,
        y % 400 == 0 ==> y % 100 == 0,
{
    assert(y == 4 * (y / 4) + y % 4 && y - 1 == 4 * ((y - 1) / 4) + (y - 1) % 4);
    assert(y == 100 * (y / 100) + y % 100 && y - 1 == 100 * ((y - 1) / 100) + (y - 1) % 100);
    assert(y == 400 * (y / 400) + y % 400 && y - 1 == 400 * ((y - 1) / 400) + (y - 1) % 400);
}

/// 1970 begins on day 0, and each year begins 365 or, after a leap year, 366 days after the
/// year before it.
pub proof fn lemma_year_lengths(y: int)
    ensures
        year_start(1970) == 0,
        year_start(y + 1) == year_start(y) + (if is_leap(y) {
            366int
        } else {
            365int
        }),
{
    lemma_quotient_step(y);
}

/// Day of the year, counted from 1 March, on which month `m` begins.
proof fn lemma_month_offsets(y: int, m: int)
    requires
        1 <= m <= 12,
    ensures
        m >= 3 ==> month_start(y, m) == month_start(y, 3) + (153 * (m - 3) + 2) / 5,
        m <= 2 ==> month_start(y, m) == (153 * (m + 9) + 2) / 5 - 306,
        month_start(y, 3) == (if is_leap(y) {
            60int
        } else {
            59int
        }),
{
    reveal_with_fuel(month_start, 13);
}

/// Days from 1 January 1970 to 1 March of year `y`.
proof fn lemma_march(y: int)
    ensures
        year_start(y) + month_start(y, 3) == 365 * y + y / 4 - y / 100 + y / 400 - 719_468,
{
    lemma_month_offsets(y, 3);
    lemma_quotient_step(y);
}

/// The year of a 400-year era that holds a day of that era, both counted from 1 March.
proof fn lemma_year_of_era(doe: int, yoe: int)
    requires
        0 <= doe <= 146_096,
        yoe == (doe - doe / 1460 + doe / 36_524 - doe / 146_096) / 365,
    ensures
        0 <= yoe <= 399,
        0 <= doe - (365 * yoe + yoe / 4 - yoe / 100),
        doe - (365 * yoe + yoe / 4 - yoe / 100) <= 364 + (if is_leap(yoe + 1) {
            1int
        } else {
            0int
        }),
{
}

/// The month and day of a day of the March-based year `y`, whose last day falls in year `y + 1`.
proof fn lemma_march_date(y: int, doy: int, mp: int, m: int, d: int, cy: int)
    requires
        0 <= doy <= 364 + (if is_leap(y + 1) {
            1int
        } else {
            0int
        }),
        mp == (5 * doy + 2) / 153,
        d == doy - (153 * mp + 2) / 5 + 1,
        m == (if mp < 10 {
            mp + 3
        } else {
            mp - 9
        }),
        cy == (if m <= 2 {
            y + 1
        } else {
            y
        }),
    ensures
        0 <= mp <= 11,
        valid_date(cy, m, d),
        day_number(cy, m, d) == 365 * y + y / 4 - y / 100 + y / 400 - 719_468 + doy,
{
    lemma_march(y);
    lemma_month_offsets(cy, m);
    lemma_year_lengths(y);
    assert(0 <= mp <= 11);
    assert(m >= 3 ==> day_number(cy, m, d) == year_start(y) + month_start(y, 3) + doy);
    assert(m <= 2 ==> day_number(cy, m, d) == year_start(y) + month_start(y, 3) + doy) by {
        lemma_month_offsets(y, 3);
    }
}

/// The calendar repeats every 400 years.
proof fn lemma_era(yoe: int, era: int)
    requires
        0 <= yoe <= 399,
    ensures
        (yoe + era * 400) / 4 == yoe / 4 + 100 * era,
        (yoe + era * 400) / 100 == yoe / 100 + 4 * era,
        (yoe + era * 400) / 400 == era,
        is_leap(yoe + era * 400 + 1) == is_leap(yoe + 1),
{
    lemma_hoist_over_denominator(yoe, 100 * era, 4);
    lemma_hoist_over_denominator(yoe, 4 * era, 100);
    lemma_hoist_over_denominator(yoe, era, 400);
    lemma_mod_multiples_vanish(100 * era, yoe + 1, 4);
    lemma_mod_multiples_vanish(4 * era, yoe + 1, 100);
    lemma_mod_multiples_vanish(era, yoe + 1, 400);
}

/// A day of the era that begins 1 March of year `400 * era`, as a date.
proof fn lemma_civil(days: int, era: int, doe: int, yoe: int, doy: int, mp: int, m: int, d: int, cy: int)
    requires
        days + 719_468 == era * 146_097 + doe,
        0 <= doe <= 146_096,
        yoe == (doe - doe / 1460 + doe / 36_524 - doe / 146_096) / 365,
        doy == doe - (365 * yoe + yoe / 4 - yoe / 100),
        mp == (5 * doy + 2) / 153,
        d == doy - (153 * mp + 2) / 5 + 1,
        m == (if mp < 10 {
            mp + 3
        } else {
            mp - 9
        }),
        cy == yoe + era * 400 + (if m <= 2 {
            1int
        } else {
            0int
        }),
    ensures
        0 <= yoe <= 399,
        0 <= doy <= 365,
        0 <= mp <= 11,
        valid_date(cy, m, d),
        day_number(cy, m, d) == days,
{
    lemma_year_of_era(doe, yoe);
    lemma_era(yoe, era);
    lemma_march_date(yoe + era * 400, doy, mp, m, d, cy);
}

/// A later year begins later.
proof fn lemma_year_order(y1: int, y2: int)
    requires
        y1 < y2,
    ensures
        year_start(y1) + 365 <= year_start(y2),
        is_leap(y1) ==> year_start(y1) + 366 <= year_start(y2),
{
    lemma_year_lengths(y1);
}

/// The months of a year follow one another: each ends where the next begins.
proof fn lemma_month_order(y: int, m1: int, m2: int)
    requires
        1 <= m1 < m2 <= 13,
    ensures
        0 <= month_start(y, m1),
        month_start(y, m1) + month_days(y, m1) <= month_start(y, m2),
        month_start(y, 13) == (if is_leap(y) {
            366int
        } else {
            365int
        }),
{
    reveal_with_fuel(month_start, 14);
}

/// Two days of the calendar with the same number are the same day.
pub proof fn lemma_day_number_injective(y1: int, m1: int, d1: int, y2: int, m2: int, d2: int)
    requires
        valid_date(y1, m1, d1),
        valid_date(y2, m2, d2),
        day_number(y1, m1, d1) == day_number(y2, m2, d2),
    ensures
        y1 == y2 && m1 == m2 && d1 == d2,
{
    lemma_month_order(y1, m1, 13);
    lemma_month_order(y2, m2, 13);
    if y1 < y2 {
        lemma_year_order(y1, y2);
    }
    if y2 < y1 {
        lemma_year_order(y2, y1);
    }
    if m1 < m2 {
        lemma_month_order(y1, m1, m2);
    }
    if m2 < m1 {
        lemma_month_order(y1, m2, m1);
    }
}

/// The date `(year, month, day)` of a day since the Unix epoch.
pub open spec fn date_of(day: int) -> (int, int, int) {
    choose|p: (int, int, int)|
        valid_date(p.0, p.1, p.2) && #[trigger] day_number(p.0, p.1, p.2) == day
}

/// `date_of` undoes `day_number`.
pub proof fn lemma_date_of(y: int, m: int, d: int)
    requires
        valid_date(y, m, d),
    ensures
        date_of(day_number(y, m, d)) == (y, m, d),
{
    let p = (y, m, d);
    assert(valid_date(p.0, p.1, p.2) && day_number(p.0, p.1, p.2) == day_number(y, m, d));
    let q = date_of(day_number(y, m, d));
    lemma_day_number_injective(q.0, q.1, q.2, y, m, d);
}

/// `a` divided by the positive `b`, rounded down.
fn floor_div(a: i64, b: i64) -> (r: i64)
    requires
        0 < b,
    ensures
        r == a as int / b as int,
{
    assert(i64::MIN <= a as int / b as int <= i64::MAX) by (nonlinear_arith)
        requires
            0 < b,
            i64::MIN <= a <= i64::MAX,
    ;
    let q: Option<i64> = a.checked_div_euclid(b);
    q.unwrap()
}

/// The non-negative remainder of `a` by the positive `b`.
fn floor_rem(a: i64, b: i64) -> (r: i64)
    requires
        0 < b,
    ensures
        r == a as int % b as int,
        0 <= r < b,
{
    assert(0 <= a as int % b as int && (a as int % b as int) < b) by (nonlinear_arith)
        requires
            0 < b,
    ;
    let q: Option<i64> = a.checked_rem_euclid(b);
    q.unwrap()
}

/// Civil date `(year, month, day)` for a count of days since the Unix epoch (Howard Hinnant's
/// algorithm). The maths works on a March-based year (so the leap day is the *last* day of the
/// shifted year), split into 400-year "eras" of exactly 146 097 days.
pub fn civil_from_days(days: i64) -> (r: (i64, u32, u32))
    requires
        days <= i64::MAX - 719_468,
    ensures
        valid_date(r.0 as int, r.1 as int, r.2 as int),
        day_number(r.0 as int, r.1 as int, r.2 as int) == days,
{
    let shifted: i64 = days + 719_468;  // rebase day 0 from 1970-01-01 to 0000-03-01
    let era: i64 = floor_div(shifted, 146_097);
    let day_of_era: i64 = floor_rem(shifted, 146_097);
    let year_of_era: i64 = (day_of_era - day_of_era / 1460 + day_of_era / 36_524 - day_of_era
        / 146_096) / 365;
    proof {
        lemma_year_of_era(day_of_era as int, year_of_era as int);
    }
    let year: i64 = year_of_era + era * 400;  // March-based year
    let day_of_year: i64 = day_of_era - (365 * year_of_era + year_of_era / 4 - year_of_era / 100);
    let month_from_march: i64 = (5 * day_of_year + 2) / 153;  // 0 = March
    let day: i64 = day_of_year - (153 * month_from_march + 2) / 5 + 1;
    let month: i64 = if month_from_march < 10 {
        month_from_march + 3
    } else {
        month_from_march - 9
    };
    let civil_year: i64 = if month <= 2 {
        year + 1
    } else {
        year
    };
    proof {
        lemma_civil(
            days as int,
            era as int,
            day_of_era as int,
            year_of_era as int,
            day_of_year as int,
            month_from_march as int,
            month as int,
            day as int,
            civil_year as int,
        );
    }
    (civil_year, month as u32, day as u32)
}

/// The largest number of years before or after year 0 whose days fit in `i64`.
pub const YEAR_LIMIT: i64 = 25_000_000_000_000_000;

/// Days since the Unix epoch for civil date `(year, month, day)` (inverse of [`civil_from_days`]).
pub fn days_from_civil(year: i64, month: u32, day: u32) -> (r: i64)
    requires
        -YEAR_LIMIT <= year <= YEAR_LIMIT,
        1 <= month <= 12,
    ensures
        r == day_number(year as int, month as int, day as int),
{
    let march_year: i64 = if month <= 2 {
        year - 1
    } else {
        year
    };
    let era: i64 = floor_div(march_year, 400);
    let year_of_era: i64 = floor_rem(march_year, 400);
    let m: i64 = month as i64;
    let month_from_march: i64 = if m > 2 {
        m - 3
    } else {
        m + 9
    };
    let day_of_year: i64 = (153 * month_from_march + 2) / 5 + day as i64 - 1;
    let day_of_era: i64 = year_of_era * 365 + year_of_era / 4 - year_of_era / 100 + day_of_year;
    proof {
        lemma_era(year_of_era as int, era as int);
        lemma_march(march_year as int);
        lemma_month_offsets(year as int, month as int);
        lemma_month_offsets(march_year as int, 3);
        lemma_year_lengths(march_year as int);
        assert(march_year == year_of_era + era * 400);
    }
    era * 146_097 + day_of_era - 719_468
}

/// The day of the week of a day since the Unix epoch, 0 = Sunday. Day 0 was a Thursday.
pub open spec fn weekday(day: int) -> int {
    (day + 4) % 7
}

/// The day since the Unix epoch that is the last Sunday of month `m` in year `y`.
pub open spec fn last_sunday(y: int, m: int) -> int {
    let last = day_number(y, m, month_days(y, m));
    last - weekday(last)
}

/// `last_sunday` is a Sunday of the month, and no later day of the month is one.
pub proof fn lemma_last_sunday(y: int, m: int, d: int)
    requires
        1 <= m <= 12,
    ensures
        weekday(last_sunday(y, m)) == 0,
        day_number(y, m, 1) <= last_sunday(y, m) <= day_number(y, m, month_days(y, m)),
        valid_date(y, m, d) && last_sunday(y, m) < day_number(y, m, d) ==> weekday(
            day_number(y, m, d),
        ) != 0,
{
    let last = day_number(y, m, month_days(y, m));
    assert((last - weekday(last) + 4) % 7 == 0);
    if valid_date(y, m, d) && last_sunday(y, m) < day_number(y, m, d) {
        let n = day_number(y, m, d);
        let k = n - last_sunday(y, m);
        assert(0 < k < 7);
        assert((last_sunday(y, m) + 4 + k) % 7 == k);
    }
}

/// Unix seconds of 01:00 UTC on the last Sunday of month `m` in year `y`.
pub open spec fn switch_instant(y: int, m: int) -> int {
    last_sunday(y, m) * 86_400 + 3600
}

/// Unix seconds for 01:00 UTC on the last Sunday of `month` in `year`: the EU DST switch instant.
/// Both DST months (March, October) have 31 days, so start from the 31st and step back to Sunday.
pub fn last_sunday_0100_utc(year: i64, month: u32) -> (r: i64)
    requires
        1 <= month <= 12,
        month_days(year as int, month as int) == 31,
        -YEAR_LIMIT <= year <= YEAR_LIMIT,
        i64::MIN <= switch_instant(year as int, month as int) <= i64::MAX,
        i64::MIN <= switch_instant(year as int, month as int) - 3600,
    ensures
        r == switch_instant(year as int, month as int),
{
    let last: i64 = days_from_civil(year, month, 31);
    let day_of_week: i64 = floor_rem(last + 4, 7);
    (last - day_of_week) * 86_400 + 3600
}

/// Whether Switzerland is on summer time (CEST) at Unix time `unix`: the instant lies in some
/// year's span from 01:00 UTC on the last Sunday of March to 01:00 UTC on the last Sunday of
/// October.
pub open spec fn summer_time(unix: int) -> bool {
    exists|y: int| #[trigger] switch_instant(y, 3) <= unix < switch_instant(y, 10)
}

/// Switzerland's UTC offset in seconds at Unix time `unix`.
pub open spec fn swiss_offset(unix: int) -> int {
    if summer_time(unix) {
        7200
    } else {
        3600
    }
}

/// The switch instants of a year fall on days of that year.
proof fn lemma_switch_in_year(y: int)
    ensures
        year_start(y) <= last_sunday(y, 3) <= last_sunday(y, 10) < year_start(y + 1),
        year_start(y) * 86_400 + 3600 <= switch_instant(y, 3),
        switch_instant(y, 3) <= switch_instant(y, 10),
        switch_instant(y, 10) < year_start(y + 1) * 86_400,
{
    lemma_year_lengths(y);
    lemma_last_sunday(y, 3, 1);
    lemma_last_sunday(y, 10, 1);
    lemma_month_order(y, 3, 10);
    lemma_month_order(y, 1, 3);
    lemma_month_order(y, 10, 12);
    lemma_month_order(y, 12, 13);
}

/// A date lies between the first days of its year and of the next.
proof fn lemma_date_in_year(y: int, m: int, d: int)
    requires
        valid_date(y, m, d),
    ensures
        year_start(y) <= day_number(y, m, d) < year_start(y + 1),
{
    lemma_year_lengths(y);
    lemma_month_order(y, m, 13);
}

/// The year of a day decides which summer-time span can hold an instant of that day.
proof fn lemma_summer_time_year(unix: int, y: int)
    requires
        year_start(y) <= unix / 86_400 < year_start(y + 1),
    ensures
        summer_time(unix) <==> switch_instant(y, 3) <= unix < switch_instant(y, 10),
{
    if summer_time(unix) {
        let z = choose|z: int| #[trigger] switch_instant(z, 3) <= unix < switch_instant(z, 10);
        lemma_switch_in_year(z);
        assert(year_start(z) <= unix / 86_400 < year_start(z + 1));
        if z < y && z + 1 < y {
            lemma_year_order(z + 1, y);
        }
        if y < z && y + 1 < z {
            lemma_year_order(y + 1, z);
        }
    }
}

/// The years around the Unix times this module computes with are far inside `i64`.
proof fn lemma_year_bounds(y: int, n: int)
    requires
        year_start(y) <= n < year_start(y + 1),
        -110_000_000_000_000 <= n <= 110_000_000_000_000,
    ensures
        -400_000_000_000 <= y <= 400_000_000_000,
{
}

/// Switzerland's UTC offset (seconds) at Unix time `unix`, honouring EU daylight saving: CEST
/// (UTC+2) from 01:00 UTC on the last Sunday of March to 01:00 UTC on the last Sunday of October,
/// and CET (UTC+1) the rest of the year. Keeps the auto-dim window on wall-clock time year-round.
pub fn swiss_offset_seconds(unix: i64) -> (r: i64)
    requires
        -UNIX_LIMIT <= unix <= UNIX_LIMIT,
    ensures
        r == swiss_offset(unix as int),
{
    let day: i64 = floor_div(unix, DAY_SECS);
    let (year, month, day_of_month): (i64, u32, u32) = civil_from_days(day);
    proof {
        lemma_date_in_year(year as int, month as int, day_of_month as int);
        lemma_year_bounds(year as int, day as int);
        lemma_switch_in_year(year as int);
        lemma_year_lengths(year as int);
        lemma_summer_time_year(unix as int, year as int);
    }
    let dst_start: i64 = last_sunday_0100_utc(year, 3);  // CEST begins
    let dst_end: i64 = last_sunday_0100_utc(year, 10);  // CET resumes
    if unix >= dst_start && unix < dst_end {
        2 * 3600
    } else {
        3600
    }
}

/// Minutes since local midnight for Unix time `unix` (honouring CET/CEST).
pub fn local_minutes(unix: i64) -> (r: u16)
    requires
        -UNIX_LIMIT <= unix <= UNIX_LIMIT,
    ensures
        r == (unix + swiss_offset(unix as int)) % 86_400 / 60,
        r < 1440,
{
    let second_of_day: i64 = floor_rem(unix + swiss_offset_seconds(unix), DAY_SECS);
    (second_of_day / 60) as u16
}

/// Local civil parts `(year, month, day, hour, minute)` for Unix time `unix`, for the clock/date
/// elements.
pub fn local_parts(unix: i64) -> (r: (i64, u32, u32, u32, u32))
    requires
        -UNIX_LIMIT <= unix <= UNIX_LIMIT,
    ensures
        valid_date(r.0 as int, r.1 as int, r.2 as int),
        day_number(r.0 as int, r.1 as int, r.2 as int) == (unix + swiss_offset(unix as int))
            / 86_400,
        r.3 == (unix + swiss_offset(unix as int)) % 86_400 / 3600,
        r.4 == (unix + swiss_offset(unix as int)) % 3600 / 60,
        r.3 < 24,
        r.4 < 60,
{
    let local: i64 = unix + swiss_offset_seconds(unix);
    let (y, m, d): (i64, u32, u32) = civil_from_days(floor_div(local, DAY_SECS));
    let second_of_day: i64 = floor_rem(local, DAY_SECS);
    proof {
        vstd::arithmetic::div_mod::lemma_mod_mod(local as int, 3600, 24);
    }
    (y, m, d, (second_of_day / 3600) as u32, (second_of_day % 3600 / 60) as u32)
}

/// Local time runs 60 minutes ahead of UTC outside summer time and 120 minutes inside it, and
/// the clock elements and the dimming window read the same minute of the day.
pub proof fn lemma_hours_and_minutes(unix: int)
    ensures
        ({
            let local = unix + swiss_offset(unix);
            &&& local - unix == 3600 || local - unix == 7200
            &&& local % 86_400 / 60 == 60 * (local % 86_400 / 3600) + local % 3600 / 60
        }),
{
    let local = unix + swiss_offset(unix);
    let second_of_day = local % 86_400;
    vstd::arithmetic::div_mod::lemma_mod_mod(local, 3600, 24);
    assert(second_of_day % 3600 == local % 3600);
    assert(second_of_day / 60 == 60 * (second_of_day / 3600) + second_of_day % 3600 / 60);
}

/// Whether minute `now` of the day lies in the window from `start` up to but not including
/// `end`, going forward round the clock.
pub open spec fn window_holds(now: int, start: int, end: int) -> bool {
    if start <= end {
        start <= now < end
    } else {
        start <= now || now < end
    }
}

/// Going forward round the clock from the start of the window, its minutes are the first
/// `end - start` ones, across midnight too.
pub proof fn lemma_window_round_the_clock(now: int, start: int, end: int)
    requires
        0 <= now < 1440,
        0 <= start < 1440,
        0 <= end < 1440,
    ensures
        window_holds(now, start, end) <==> (now - start) % 1440 < (end - start) % 1440,
{
}

/// Switzerland is one hour ahead of UTC from November to February and two hours ahead from April to
/// September. In March it changes on the last Sunday, which is the 25th or later, and in October it
/// changes back on the last Sunday, at 01:00 UTC.
pub proof fn lemma_seasons(unix: int, y: int, m: int, d: int)
    requires
        valid_date(y, m, d),
        day_number(y, m, d) == unix / 86_400,
    ensures
        m <= 2 || m >= 11 ==> swiss_offset(unix) == 3600,
        4 <= m <= 9 ==> swiss_offset(unix) == 7200,
        m == 3 && d < 25 ==> swiss_offset(unix) == 3600,
        m == 10 && d < 25 ==> swiss_offset(unix) == 7200,
        m == 3 && weekday(unix / 86_400) == 0 && d >= 25 ==> (swiss_offset(unix) == 7200 <==> unix
            % 86_400 >= 3600),
        m == 10 && weekday(unix / 86_400) == 0 && d >= 25 ==> (swiss_offset(unix) == 7200 <==> unix
            % 86_400 < 3600),
{
    lemma_date_in_year(y, m, d);
    lemma_summer_time_year(unix, y);
    lemma_switch_days(y);
    if m < 3 {
        lemma_month_order(y, m, 3);
        lemma_month_order(y, 3, 10);
    } else if m == 3 {
        lemma_month_order(y, 3, 10);
        lemma_same_sunday(unix / 86_400, last_sunday(y, 3));
    } else if m < 10 {
        lemma_month_order(y, 3, m);
        lemma_month_order(y, m, 10);
    } else if m == 10 {
        lemma_month_order(y, 3, 10);
        lemma_same_sunday(unix / 86_400, last_sunday(y, 10));
    } else {
        lemma_month_order(y, 10, m);
        lemma_month_order(y, 3, 10);
    }
}

/// The last Sundays of March and October are the 25th or later.
proof fn lemma_switch_days(y: int)
    ensures
        day_number(y, 3, 25) <= last_sunday(y, 3) <= day_number(y, 3, 31),
        day_number(y, 10, 25) <= last_sunday(y, 10) <= day_number(y, 10, 31),
        weekday(last_sunday(y, 3)) == 0,
        weekday(last_sunday(y, 10)) == 0,
{
    lemma_last_sunday(y, 3, 1);
    lemma_last_sunday(y, 10, 1);
}

/// Two Sundays less than a week apart are the same day.
proof fn lemma_same_sunday(a: int, b: int)
    ensures
        weekday(a) == 0 && weekday(b) == 0 && -7 < a - b < 7 ==> a == b,
{
}

/// The days of the week follow one another and repeat every seven days; 1 January 1970 was a
/// Thursday.
pub proof fn lemma_weekdays(day: int)
    ensures
        weekday(0) == 4,
        0 <= weekday(day) < 7,
        weekday(day + 1) == (weekday(day) + 1) % 7,
        weekday(day + 7) == weekday(day),
{
}

/// The day after a date is the next day of its month, or the first of the next month, or the first
/// of January of the next year.
pub proof fn lemma_next_day(y: int, m: int, d: int)
    requires
        valid_date(y, m, d),
    ensures
        day_number(1970, 1, 1) == 0,
        d < month_days(y, m) ==> day_number(y, m, d + 1) == day_number(y, m, d) + 1,
        d == month_days(y, m) && m < 12 ==> day_number(y, m + 1, 1) == day_number(y, m, d) + 1,
        d == month_days(y, m) && m == 12 ==> day_number(y + 1, 1, 1) == day_number(y, m, d) + 1,
{
    lemma_year_lengths(y);
    reveal_with_fuel(month_start, 14);
}

/// A month has 31 days in the seven long months, 30 in the four short ones, and February has 29
/// exactly in the years divisible by 4 that do not begin a century, or that are divisible by 400.
pub proof fn lemma_month_lengths(y: int, m: int)
    requires
        1 <= m <= 12,
    ensures
        28 <= month_days(y, m) <= 31,
        month_days(y, 2) == 29 <==> (y % 400 == 0 || (y % 4 == 0 && y % 100 != 0)),
        m != 2 ==> (month_days(y, m) == 31 <==> (if m <= 7 {
            m % 2 == 1
        } else {
            m % 2 == 0
        })),
        m != 2 ==> month_days(y, m) >= 30,
        month_start(y, 13) == (if month_days(y, 2) == 29 {
            366int
        } else {
            365int
        }),
{
    reveal_with_fuel(month_start, 14);
}

/// Whether `now` (minutes since local midnight) is within the `[start, end)` window, which may
/// wrap past midnight (`start > end`, e.g. 20:00 to 08:00). An empty `start == end` window never
/// matches.
pub fn in_window(now: u16, start: u16, end: u16) -> (r: bool)
    ensures
        r == window_holds(now as int, start as int, end as int),
        start == end ==> !r,
{
    if start == end {
        false
    } else if start < end {
        now >= start && now < end
    } else {
        now >= start || now < end
    }
}

/// Exchanging the two ends of a non-empty window gives its complement.
pub proof fn lemma_window_complement(now: int, start: int, end: int)
    requires
        start != end,
    ensures
        window_holds(now, start, end) == !window_holds(now, end, start),
{
}

} // verus!
