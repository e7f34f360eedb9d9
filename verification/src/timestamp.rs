//! Calendar arithmetic for the UTC timestamps notifications are stamped with: seconds since
//! the Unix epoch to a proleptic Gregorian date and time of day, as ISO 8601 text.
use crate::text::{decimal, digit_char, push_char, push_decimal};
use vstd::prelude::*;
use vstd::string::StringExecFns;

verus! {

/// Days in one 400-year Gregorian cycle.
pub const CYCLE_DAYS: u64 = 146097;

/// Seconds in a day.
pub const DAY_SECONDS: u64 = 86400;

/// Whether `y` is a Gregorian leap year.
pub open spec fn leap(y: int) -> bool {
    y % 4 == 0 && (y % 100 != 0 || y % 400 == 0)
}

/// Days in year `y`.
pub open spec fn year_len(y: int) -> int {
    if leap(y) {
        366
    } else {
        365
    }
}

/// Leap years among years 1 through `x`.
pub open spec fn leaps_through(x: int) -> int {
    x / 4 - x / 100 + x / 400
}

/// Days from 1970-01-01 to January 1 of year `y`.
pub open spec fn days_before_year(y: int) -> int {
    365 * (y - 1970) + leaps_through(y - 1) - leaps_through(1969)
}

/// Days in month `m` (1 for January) of year `y`.
pub open spec fn month_len(y: int, m: int) -> int {
    if m == 2 {
        if leap(y) {
            29
        } else {
            28
        }
    } else if m == 4 || m == 6 || m == 9 || m == 11 {
        30
    } else {
        31
    }
}

/// Days from January 1 of year `y` to the first of month `m`.
pub open spec fn days_before_month(y: int, m: int) -> int
    decreases m,
{
    if m <= 1 {
        0
    } else {
        days_before_month(y, m - 1) + month_len(y, m - 1)
    }
}

/// Whether `(y, m, d)` is a calendar date from 1970 on.
pub open spec fn is_date(y: int, m: int, d: int) -> bool {
    1970 <= y && 1 <= m <= 12 && 1 <= d <= month_len(y, m)
}

/// Days from 1970-01-01 to the date `(y, m, d)`.
pub open spec fn day_number(y: int, m: int, d: int) -> int {
    days_before_year(y) + days_before_month(y, m) + d - 1
}

/// Two decimal digits of `n`, below one hundred.
pub open spec fn two_digits(n: int) -> Seq<char> {
    seq![digit_char((n / 10) as nat), digit_char((n % 10) as nat)]
}

/// The ISO 8601 text of date `(y, m, d)` at `s` seconds into the day, in UTC.
pub open spec fn iso_text(y: int, m: int, d: int, s: int) -> Seq<char> {
    decimal(y as nat) + seq!['-'] + two_digits(m) + seq!['-'] + two_digits(d) + seq!['T']
        + two_digits(s / 3600) + seq![':'] + two_digits(s % 3600 / 60) + seq![':'] + two_digits(s % 60)
        + seq!['Z']
}

/// Whether `t` is the timestamp of `seconds` after the epoch.
pub open spec fn is_timestamp(seconds: int, t: Seq<char>) -> bool {
    exists|y: int, m: int, d: int|
        is_date(y, m, d) && day_number(y, m, d) == seconds / 86400 && t == #[trigger] iso_text(
            y,
            m,
            d,
            seconds % 86400,
        )
}

/// One more year adds that year's days.
proof fn lemma_next_year(y: int)
    requires
        y >= 1970,
    ensures
        days_before_year(y + 1) == days_before_year(y) + year_len(y),
{
    let q = y / 4;
    let h = y / 100;
    let f = y / 400;
    assert(y == 4 * q + y % 4);
    assert(y == 100 * h + y % 100);
    assert(y == 400 * f + y % 400);
    if y % 4 == 0 {
        assert((y - 1) / 4 == q - 1);
    } else {
        assert((y - 1) / 4 == q);
    }
    if y % 100 == 0 {
        assert((y - 1) / 100 == h - 1);
    } else {
        assert((y - 1) / 100 == h);
    }
    if y % 400 == 0 {
        assert((y - 1) / 400 == f - 1);
        assert(y % 100 == 0 && y % 4 == 0);
    } else {
        assert((y - 1) / 400 == f);
    }
    if y % 100 == 0 {
        assert(y % 4 == 0);
    }
}

/// Every 400 years from 1970 hold the same number of days.
proof fn lemma_cycles(k: int)
    requires
        k >= 0,
    ensures
        days_before_year(1970 + 400 * k) == 146097 * k,
    decreases k,
{
    if k > 0 {
        lemma_cycles(k - 1);
        let x = 1969 + 400 * (k - 1);
        assert((x + 400) / 4 == x / 4 + 100);
        assert((x + 400) / 100 == x / 100 + 4);
        assert((x + 400) / 400 == x / 400 + 1);
    }
}

/// The months of a year hold its days.
proof fn lemma_months(y: int)
    ensures
        days_before_month(y, 13) == year_len(y),
{
    reveal_with_fuel(days_before_month, 13);
}

/// Days in year `year`.
fn year_days(year: u64) -> (n: u64)
    ensures
        n == year_len(year as int),
{
    if year % 4 == 0 && (year % 100 != 0 || year % 400 == 0) {
        366
    } else {
        365
    }
}

/// Days in month `month` of year `year`.
fn month_days(year: u64, month: u64) -> (n: u64)
    ensures
        n == month_len(year as int, month as int),
{
    if month == 2 {
        if year % 4 == 0 && (year % 100 != 0 || year % 400 == 0) {
            29
        } else {
            28
        }
    } else if month == 4 || month == 6 || month == 9 || month == 11 {
        30
    } else {
        31
    }
}

/// The calendar date `days` days after 1970-01-01: year, month and day of month.
pub fn civil_date(days: u64) -> (r: (u64, u64, u64))
    ensures
        is_date(r.0 as int, r.1 as int, r.2 as int),
        day_number(r.0 as int, r.1 as int, r.2 as int) == days,
{
    let cycles = days / CYCLE_DAYS;
    let start = days % CYCLE_DAYS;
    let base = 1970 + 400 * cycles;
    proof {
        lemma_cycles(cycles as int);
    }
    let mut year = base;
    let mut rem = start;
    while rem >= year_days(year)
        invariant
            base == 1970 + 400 * cycles,
            cycles <= u64::MAX / 146097,
            start < 146097,
            base <= year,
            (year - base) * 365 + rem <= start,
            days_before_year(year as int) + rem == days,
        decreases rem,
    {
        proof {
            lemma_next_year(year as int);
        }
        rem = rem - year_days(year);
        year = year + 1;
    }
    proof {
        lemma_months(year as int);
    }
    let mut month: u64 = 1;
    while rem >= month_days(year, month)
        invariant
            1 <= month <= 12,
            1970 <= year,
            days_before_year(year as int) + days_before_month(year as int, month as int) + rem == days,
            days_before_month(year as int, month as int) + rem < year_len(year as int),
            days_before_month(year as int, 13) == year_len(year as int),
        decreases 12 - month,
    {
        rem = rem - month_days(year, month);
        month = month + 1;
        if month == 13 {
            assert(false);
        }
    }
    (year, month, rem + 1)
}

/// Append two decimal digits of `n`, below one hundred.
fn push_two(out: &mut String, n: u64)
    requires
        n < 100,
    ensures
        final(out)@ == old(out)@ + two_digits(n as int),
{
    let hi: u8 = (n / 10) as u8;
    let lo: u8 = (n % 10) as u8;
    push_char(out, (48u8 + hi) as char);
    push_char(out, (48u8 + lo) as char);
}

/// The UTC time `seconds` after the Unix epoch as ISO 8601 text, such as
/// `2024-02-29T13:05:09Z`.
pub fn utc_timestamp(seconds: u64) -> (r: String)
    ensures
        is_timestamp(seconds as int, r@),
{
    let (year, month, day) = civil_date(seconds / DAY_SECONDS);
    let of_day = seconds % DAY_SECONDS;
    let mut out = String::new();
    push_decimal(&mut out, year);
    push_char(&mut out, '-');
    push_two(&mut out, month);
    push_char(&mut out, '-');
    push_two(&mut out, day);
    push_char(&mut out, 'T');
    push_two(&mut out, of_day / 3600);
    push_char(&mut out, ':');
    push_two(&mut out, of_day % 3600 / 60);
    push_char(&mut out, ':');
    push_two(&mut out, of_day % 60);
    push_char(&mut out, 'Z');
    let ghost t = iso_text(year as int, month as int, day as int, of_day as int);
    assert(out@ =~= t);
    out
}

} // verus!
