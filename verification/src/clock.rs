//! Dates of the Gregorian calendar.
use vstd::prelude::*;

use crate::numeral;
use crate::numeral::dec_text;
use crate::text::cat;

verus! {

pub open spec fn is_leap(y: int) -> bool {
    y % 4 == 0 && (y % 100 != 0 || y % 400 == 0)
}

/// The days of the year before the first of a month.
pub open spec fn days_before_month(y: int, m: int) -> int {
    let plain: int = if m == 1 {
        0
    } else if m == 2 {
        31
    } else if m == 3 {
        59
    } else if m == 4 {
        90
    } else if m == 5 {
        120
    } else if m == 6 {
        151
    } else if m == 7 {
        181
    } else if m == 8 {
        212
    } else if m == 9 {
        243
    } else if m == 10 {
        273
    } else if m == 11 {
        304
    } else if m == 12 {
        334
    } else {
        365
    };
    if m > 2 && is_leap(y) {
        plain + 1
    } else {
        plain
    }
}

/// The days from the first day of the year 1 to the first day of a year.
pub open spec fn days_before_year(y: int) -> int {
    365 * (y - 1) + (y - 1) / 4 - (y - 1) / 100 + (y - 1) / 400
}

/// The days from the first of January 1970 to a date.
pub open spec fn day_number(y: int, m: int, d: int) -> int {
    days_before_year(y) + days_before_month(y, m) + d - 1 - 719_162
}

/// The month and the day exist in the year.
pub open spec fn is_date(y: int, m: int, d: int) -> bool {
    1 <= m <= 12 && 1 <= d <= days_before_month(y, m + 1) - days_before_month(y, m)
}

/// The year of an era, counted from March, that a day of the era lies in.
proof fn lemma_year_of_era(doe: int, yoe: int)
    requires
        0 <= doe <= 146_096,
        yoe == (doe - doe / 1460 + doe / 36_524 - doe / 146_096) / 365,
    ensures
        0 <= yoe <= 399,
        365 * yoe + yoe / 4 - yoe / 100 <= doe,
        yoe < 399 ==> doe < 365 * (yoe + 1) + (yoe + 1) / 4 - (yoe + 1) / 100,
{
}

/// A date is told by its day number: no two dates share one.
pub proof fn day_number_is_injective(y: int, m: int, d: int, y2: int, m2: int, d2: int)
    requires
        is_date(y, m, d),
        is_date(y2, m2, d2),
        day_number(y, m, d) == day_number(y2, m2, d2),
    ensures
        y == y2 && m == m2 && d == d2,
{
    lemma_within_year(y, m, d);
    lemma_within_year(y2, m2, d2);
    if y < y2 {
        lemma_years_ascend(y + 1, y2);
    }
    if y2 < y {
        lemma_years_ascend(y2 + 1, y);
    }
    if m < m2 {
        lemma_months_ascend(y, m + 1, m2);
    }
    if m2 < m {
        lemma_months_ascend(y, m2 + 1, m);
    }
}

proof fn lemma_months_ascend(y: int, a: int, b: int)
    requires
        1 <= a <= b <= 13,
    ensures
        days_before_month(y, a) <= days_before_month(y, b),
{
}

proof fn lemma_year_length(y: int)
    ensures
        days_before_year(y + 1) == days_before_year(y) + days_before_month(y, 13),
{
    let q = (y - 1) / 400;
    let r = (y - 1) % 400;
    assert(y - 1 == 400 * q + r);
    assert(y / 400 == if r == 399 { q + 1 } else { q });
}

proof fn lemma_within_year(y: int, m: int, d: int)
    requires
        is_date(y, m, d),
    ensures
        days_before_year(y) <= day_number(y, m, d) + 719_162 < days_before_year(y + 1),
{
    lemma_year_length(y);
    lemma_months_ascend(y, m + 1, 13);
}

proof fn lemma_years_ascend(a: int, b: int)
    requires
        a <= b,
    ensures
        days_before_year(a) <= days_before_year(b),
    decreases b - a,
{
    if a < b {
        lemma_years_ascend(a, b - 1);
        lemma_year_length(b - 1);
    }
}

/// The month and the day of a day counted from the first of March.
proof fn lemma_month_of_day(doy: int, mp: int, d: int)
    requires
        0 <= doy <= 365,
        mp == (5 * doy + 2) / 153,
        d == doy - (153 * mp + 2) / 5 + 1,
    ensures
        0 <= mp <= 11,
        1 <= d <= 31,
        d <= (153 * (mp + 1) + 2) / 5 - (153 * mp + 2) / 5,
{
}

proof fn lemma_era_quotients(era: int, yoe: int)
    requires
        0 <= yoe <= 399,
    ensures
        (400 * era + yoe) / 4 == 100 * era + yoe / 4,
        (400 * era + yoe) / 100 == 4 * era + yoe / 100,
        (400 * era + yoe) / 400 == era,
{
}

proof fn lemma_era_remainders(era: int, n: int)
    requires
        1 <= n <= 400,
    ensures
        (400 * era + n) % 4 == n % 4,
        (400 * era + n) % 100 == n % 100,
        (400 * era + n) % 400 == n % 400,
{
}

/// The days before a year counted from March, by the eras of four hundred years.
proof fn lemma_era(era: int, yoe: int)
    requires
        0 <= yoe <= 399,
    ensures
        days_before_year(400 * era + yoe + 1) == 146_097 * era + 365 * yoe + yoe / 4 - yoe / 100,
        is_leap(400 * era + yoe + 1) <==> (yoe + 1) % 4 == 0 && ((yoe + 1) % 100 != 0 || yoe == 399),
{
    lemma_era_quotients(era, yoe);
    lemma_era_remainders(era, yoe + 1);
}

proof fn lemma_civil(era: int, yoe: int, doy: int, mp: int, d: int, m: int, y: int)
    requires
        0 <= yoe <= 399,
        0 <= doy <= 365,
        doy == 365 ==> (yoe + 1) % 4 == 0 && ((yoe + 1) % 100 != 0 || yoe == 399),
        mp == (5 * doy + 2) / 153,
        d == doy - (153 * mp + 2) / 5 + 1,
        m == (if mp < 10 {
            mp + 3
        } else {
            mp - 9
        }),
        y == 400 * era + yoe + (if m <= 2 {
            1int
        } else {
            0
        }),
    ensures
        is_date(y, m, d),
        day_number(y, m, d) == 146_097 * era + 365 * yoe + yoe / 4 - yoe / 100 + doy - 719_468,
{
    lemma_month_of_day(doy, mp, d);
    lemma_era(era, yoe);
    if mp < 10 {
        lemma_year_length(y);
    }
}

/// The one date with a day number.
pub open spec fn date_of(z: int) -> (int, int, int) {
    choose|t: (int, int, int)| is_date(t.0, t.1, t.2) && #[trigger] day_number(t.0, t.1, t.2) == z
}

proof fn lemma_date_of(y: int, m: int, d: int)
    requires
        is_date(y, m, d),
    ensures
        date_of(day_number(y, m, d)) == (y, m, d),
{
    let z = day_number(y, m, d);
    let t = (y, m, d);
    assert(is_date(t.0, t.1, t.2) && day_number(t.0, t.1, t.2) == z);
    let u = date_of(z);
    day_number_is_injective(y, m, d, u.0, u.1, u.2);
}

/// The year, month and day of a day counted from the first of January 1970.
pub fn civil_from_days(z: i64) -> (r: (i64, u32, u32))
    requires
        z <= i64::MAX - 719_468,
    ensures
        is_date(r.0 as int, r.1 as int, r.2 as int),
        day_number(r.0 as int, r.1 as int, r.2 as int) == z,
        date_of(z as int) == (r.0 as int, r.1 as int, r.2 as int),
{
    let s: i64 = z + 719_468;
    let (era, doe): (i64, u64) = if s >= 0 {
        let u: u64 = s as u64;
        ((u / 146_097) as i64, u % 146_097)
    } else {
        let u: u64 = (-(s + 1)) as u64;
        (-((u / 146_097) as i64) - 1, 146_096 - u % 146_097)
    };
    assert(s == 146_097 * era + doe && 0 <= doe <= 146_096);
    let yoe: u64 = (doe - doe / 1460 + doe / 36_524 - doe / 146_096) / 365;
    proof {
        lemma_year_of_era(doe as int, yoe as int);
    }
    let doy: u64 = doe - (365 * yoe + yoe / 4 - yoe / 100);
    let mp: u64 = (5 * doy + 2) / 153;
    proof {
        lemma_month_of_day(doy as int, mp as int, doy - (153 * mp + 2) / 5 + 1);
    }
    let d: u64 = doy + 1 - (153 * mp + 2) / 5;
    let m: u64 = if mp < 10 {
        mp + 3
    } else {
        mp - 9
    };
    let late: i64 = if m <= 2 {
        1
    } else {
        0
    };
    let y: i64 = era * 400 + yoe as i64 + late;
    proof {
        lemma_civil(era as int, yoe as int, doy as int, mp as int, d as int, m as int, y as int);
        lemma_date_of(y as int, m as int, d as int);
    }
    (y, m as u32, d as u32)
}

/// A number below a hundred with two digits.
pub open spec fn two_digits(n: nat) -> Seq<char> {
    if n < 10 {
        "0"@ + numeral::dec(n)
    } else {
        numeral::dec(n)
    }
}

fn two_digits_of(n: u64) -> (r: String)
    ensures
        r@ == two_digits(n as nat),
{
    if n < 10 {
        cat("0", &dec_text(n))
    } else {
        dec_text(n)
    }
}

/// A moment, in seconds since the first of January 1970, shown as `MM-DD HH:MM`.
pub open spec fn shown_time(secs: nat) -> Seq<char> {
    let date = date_of((secs / 86_400) as int);
    two_digits(date.1 as nat) + "-"@ + two_digits(date.2 as nat) + " "@ + two_digits(
        secs % 86_400 / 3600,
    ) + ":"@ + two_digits(secs % 3600 / 60)
}

/// The month, day, hour and minute of a moment.
pub fn format_time(secs: u64) -> (r: String)
    ensures
        r@ == shown_time(secs as nat),
{
    let day: i64 = (secs / 86_400) as i64;
    let sod: u64 = secs % 86_400;
    let (_, m, d) = civil_from_days(day);
    assert(sod % 3600 == secs % 3600);
    let t = cat(&two_digits_of(m as u64), "-");
    let t = cat(&t, &two_digits_of(d as u64));
    let t = cat(&cat(&t, " "), &two_digits_of(sod / 3600));
    cat(&cat(&t, ":"), &two_digits_of(sod % 3600 / 60))
}

} // verus!
