//! Proleptic Gregorian calendar arithmetic over days counted from 1970-01-01.
use vstd::prelude::*;

verus! {

pub const SECONDS_PER_DAY: i64 = 86400;

/// Leap-year rule of the Gregorian calendar.
pub open spec fn leap(y: int) -> bool {
    (y % 4 == 0 && y % 100 != 0) || y % 400 == 0
}

pub open spec fn year_len(y: int) -> int {
    if leap(y) { 366 } else { 365 }
}

/// Length of month `m` (0 = January) of year `y`.
pub open spec fn month_len(y: int, m: int) -> int {
    if m == 1 {
        if leap(y) { 29 } else { 28 }
    } else if m == 3 || m == 5 || m == 8 || m == 10 {
        30
    } else {
        31
    }
}

/// Days from 1970-01-01 to January 1st of year `y` (0 for years up to 1970).
pub open spec fn days_before_year(y: int) -> int
    decreases y - 1970,
{
    if y <= 1970 { 0 } else { days_before_year(y - 1) + year_len(y - 1) }
}

/// Days from January 1st to the first day of month `m` of year `y`.
pub open spec fn days_before_month(y: int, m: int) -> int
    decreases m,
{
    if m <= 0 { 0 } else { days_before_month(y, m - 1) + month_len(y, m - 1) }
}

/// Day number (from the epoch) of day `d` (1-indexed) of month `m` (0-indexed) of year `y`.
pub open spec fn ymd_days(y: int, m: int, d: int) -> int {
    days_before_year(y) + days_before_month(y, m) + d - 1
}

/// Splits a day count into (year, day of that year), walking years forward from `y`.
pub open spec fn year_of_days(rem: int, y: int) -> (int, int)
    decreases rem,
{
    if rem < year_len(y) { (y, rem) } else { year_of_days(rem - year_len(y), y + 1) }
}

/// Splits a day of year into (month, day of that month), both 0-indexed, from month `m` on.
pub open spec fn month_of_days(rem: int, y: int, m: int) -> (int, int)
    decreases 12 - m,
{
    if m >= 12 || rem < month_len(y, m) {
        (m, rem)
    } else {
        month_of_days(rem - month_len(y, m), y, m + 1)
    }
}

/// A year has 365 or 366 days.
pub proof fn lemma_year_len_bounds(y: int)
    ensures
        365 <= year_len(y) <= 366,
{
}

/// A month has 28 to 31 days.
pub proof fn lemma_month_len_bounds(y: int, m: int)
    ensures
        28 <= month_len(y, m) <= 31,
{
}

/// Every year before `y` (from 1970 on) has at least 365 days and at most 366.
pub proof fn lemma_days_before_year_bounds(y: int)
    requires
        y >= 1970,
    ensures
        365 * (y - 1970) <= days_before_year(y) <= 366 * (y - 1970),
    decreases y - 1970,
{
    if y > 1970 {
        lemma_days_before_year_bounds(y - 1);
    }
}

/// Days before a later year are at least the days before an earlier year plus its length.
pub proof fn lemma_days_before_year_mono(a: int, b: int)
    requires
        1970 <= a < b,
    ensures
        days_before_year(a) + year_len(a) <= days_before_year(b),
    decreases b - a,
{
    if b > a + 1 {
        lemma_days_before_year_mono(a, b - 1);
    }
}

/// The days before month `m` (0 to 12) of year `y` lie between 28 and 31 per month.
pub proof fn lemma_days_before_month_bounds(y: int, m: int)
    requires
        0 <= m <= 12,
    ensures
        0 <= days_before_month(y, m) <= 31 * m,
        28 * m <= days_before_month(y, m),
    decreases m,
{
    if m > 0 {
        lemma_days_before_month_bounds(y, m - 1);
    }
}

/// The twelve months add up to the year.
pub proof fn lemma_months_make_year(y: int)
    ensures
        days_before_month(y, 12) == year_len(y),
{
    reveal_with_fuel(days_before_month, 13);
}

/// Splitting a day count yields a year from `y` on and a day within that year.
pub proof fn lemma_year_of_days(rem: int, y: int)
    requires
        rem >= 0,
        y >= 1970,
    ensures
        year_of_days(rem, y).0 >= y,
        0 <= year_of_days(rem, y).1 < year_len(year_of_days(rem, y).0),
        year_of_days(rem, y).1 <= rem,
        days_before_year(year_of_days(rem, y).0) + year_of_days(rem, y).1 == days_before_year(y)
            + rem,
    decreases rem,
{
    if rem >= year_len(y) {
        lemma_year_of_days(rem - year_len(y), y + 1);
    }
}

/// Splitting a day of year yields a month and a day within that month.
pub proof fn lemma_month_of_days(rem: int, y: int, m: int)
    requires
        0 <= m <= 12,
        0 <= rem,
        rem + days_before_month(y, m) < year_len(y),
    ensures
        m <= month_of_days(rem, y, m).0 < 12,
        0 <= month_of_days(rem, y, m).1 < month_len(y, month_of_days(rem, y, m).0),
        days_before_month(y, month_of_days(rem, y, m).0) + month_of_days(rem, y, m).1
            == days_before_month(y, m) + rem,
    decreases 12 - m,
{
    if m >= 12 {
        lemma_months_make_year(y);
        assert(false);
    } else if rem >= month_len(y, m) {
        lemma_month_of_days(rem - month_len(y, m), y, m + 1);
    }
}

/// Whether `year` is a leap year.
pub fn is_leap(year: i64) -> (r: bool)
    ensures
        r == leap(year as int),
{
    (year % 4 == 0 && year % 100 != 0) || year % 400 == 0
}

/// Whole days since the Unix epoch (1970-01-01) of a time given in seconds.
pub fn days_since_unix_epoch(secs: i64) -> (d: i64)
    ensures
        secs >= 0 ==> d == secs as int / 86400,
        secs >= 0 ==> 0 <= d,
{
    secs / 86400
}

/// Length of month `month` (0 = January) of `year`.
fn month_length(year: i64, month: usize) -> (n: i64)
    requires
        month < 12,
    ensures
        n == month_len(year as int, month as int),
{
    if month == 1 {
        if is_leap(year) { 29 } else { 28 }
    } else if month == 3 || month == 5 || month == 8 || month == 10 {
        30
    } else {
        31
    }
}

/// Days from Unix epoch to (year, month, day).
/// month: 0-indexed (0=January), day: 1-indexed.
pub fn days_from_ymd(year: i64, month: usize, day: i64) -> (total: i64)
    requires
        month < 12,
        day > i64::MIN,
        days_before_year(year as int) + days_before_month(year as int, month as int) <= i64::MAX,
        i64::MIN <= ymd_days(year as int, month as int, day as int) <= i64::MAX,
    ensures
        total == ymd_days(year as int, month as int, day as int),
{
    let mut total: i64 = 0;
    let mut y: i64 = 1970;
    // Days from 1970 to year
    while y < year
        invariant
            1970 <= y,
            y <= year || y == 1970,
            total == days_before_year(y as int),
            days_before_year(year as int) + days_before_month(year as int, month as int)
                <= i64::MAX,
            month < 12,
        decreases year - y,
    {
        proof {
            lemma_days_before_year_mono(y as int, year as int);
            lemma_days_before_month_bounds(year as int, month as int);
        }
        total += if is_leap(y) { 366 } else { 365 };
        y += 1;
    }
    assert(total == days_before_year(year as int)) by {
        if year < 1970 {
            assert(y == 1970);
        }
    }
    proof {
        lemma_days_before_year_nonneg(year as int);
    }
    // Days from start of year to month
    let mut m: usize = 0;
    while m < month
        invariant
            m <= month < 12,
            total == days_before_year(year as int) + days_before_month(year as int, m as int),
            days_before_year(year as int) + days_before_month(year as int, month as int)
                <= i64::MAX,
            days_before_year(year as int) >= 0,
        decreases month - m,
    {
        proof {
            lemma_days_before_month_mono(year as int, (m + 1) as int, month as int);
            lemma_days_before_month_bounds(year as int, m as int);
        }
        total += month_length(year, m);
        m += 1;
    }
    // Days from start of month to day
    total += day - 1;
    total
}

/// Days before a later month are no fewer.
pub proof fn lemma_days_before_month_mono(y: int, a: int, b: int)
    requires
        0 <= a <= b,
    ensures
        days_before_month(y, a) <= days_before_month(y, b),
    decreases b - a,
{
    if a < b {
        lemma_days_before_month_mono(y, a, b - 1);
        lemma_month_len_bounds(y, b - 1);
    }
}

/// The days before a year are never negative.
pub proof fn lemma_days_before_year_nonneg(y: int)
    ensures
        days_before_year(y) >= 0,
    decreases y - 1970,
{
    if y > 1970 {
        lemma_days_before_year_nonneg(y - 1);
    }
}

} // verus!
