//! The proleptic Gregorian calendar.

use vstd::prelude::*;

verus! {

/// Whether February has 29 days.
pub open spec fn is_leap(year: int) -> bool {
    year % 4 == 0 && (year % 100 != 0 || year % 400 == 0)
}

/// The number of days of a month.
pub open spec fn days_in_month(year: int, month: int) -> int {
    if month == 2 {
        if is_leap(year) {
            29
        } else {
            28
        }
    } else if month == 4 || month == 6 || month == 9 || month == 11 {
        30
    } else {
        31
    }
}

/// The days of a year before a month.
pub open spec fn days_before_month(year: int, month: int) -> int
    decreases month,
{
    if month <= 1 {
        0
    } else {
        days_before_month(year, month - 1) + days_in_month(year, month - 1)
    }
}

/// The days from the start of year 0 to the start of a year: 365 for each year,
/// and one for each leap year.
pub open spec fn days_before_year(year: int) -> int {
    365 * year + (year + 3) / 4 - (year + 99) / 100 + (year + 399) / 400
}

/// Whether a date exists.
pub open spec fn valid_date(year: int, month: int, day: int) -> bool {
    &&& 0 <= year
    &&& 1 <= month <= 12
    &&& 1 <= day <= days_in_month(year, month)
}

/// The Julian Day Number of a date. That of 1 January of year 0 is 1721060.
pub open spec fn day_number(year: int, month: int, day: int) -> int {
    1_721_060 + days_before_year(year) + days_before_month(year, month) + (day - 1)
}

/// The days before each month, written out.
proof fn lemma_days_before_month(year: int, month: int)
    requires
        1 <= month <= 12,
    ensures
        days_before_month(year, month) == (if month == 1 {
            0
        } else if month == 2 {
            31
        } else {
            (153 * (month - 3) + 2) / 5 + 59 + if is_leap(year) {
                1int
            } else {
                0
            }
        }),
{
    reveal_with_fuel(days_before_month, 13);
}

/// Counting leap years by hand: each year has its own length.
proof fn lemma_year_length(year: int)
    requires
        0 <= year,
    ensures
        days_before_year(year + 1) == days_before_year(year) + if is_leap(year) {
            366int
        } else {
            365
        },
{
}

/// Later years start later.
pub proof fn lemma_years_grow(a: int, b: int)
    requires
        0 <= a < b,
    ensures
        days_before_year(a) + (if is_leap(a) {
            366int
        } else {
            365
        }) <= days_before_year(b),
    decreases b - a,
{
    lemma_year_length(a);
    if a + 1 < b {
        lemma_years_grow(a + 1, b);
    }
}

/// A day number belongs to one date only.
pub proof fn law_dates_are_determined(y1: int, m1: int, d1: int, y2: int, m2: int, d2: int)
    requires
        valid_date(y1, m1, d1),
        valid_date(y2, m2, d2),
        day_number(y1, m1, d1) == day_number(y2, m2, d2),
    ensures
        y1 == y2,
        m1 == m2,
        d1 == d2,
{
    lemma_days_before_month(y1, m1);
    lemma_days_before_month(y2, m2);
    if y1 < y2 {
        lemma_years_grow(y1, y2);
    } else if y2 < y1 {
        lemma_years_grow(y2, y1);
    }
}

/// The leap days before a year, in two ways of counting.
proof fn lemma_leap_days(q: int)
    requires
        0 <= q,
    ensures
        days_before_year(q) + (if is_leap(q) {
            1int
        } else {
            0
        }) == 365 * q + q / 4 - q / 100 + q / 400 + 1,
{
    let c4 = if q % 4 == 0 {
        0int
    } else {
        1
    };
    let c100 = if q % 100 == 0 {
        0int
    } else {
        1
    };
    let c400 = if q % 400 == 0 {
        0int
    } else {
        1
    };
    assert((q + 3) / 4 == q / 4 + c4);
    assert((q + 99) / 100 == q / 100 + c100);
    assert((q + 399) / 400 == q / 400 + c400);
    assert(q % 100 == 0 ==> q % 4 == 0);
    assert(q % 400 == 0 ==> q % 100 == 0);
}

/// The day number in years that start in March: `mm` counts months from March,
/// `y` counts such years from 4801 BC.
proof fn lemma_march_year(y: int, mm: int, day: int)
    requires
        4_800 <= y,
        0 <= mm <= 11,
    ensures
        day_number(y - 4_800 + mm / 10, mm + 3 - 12 * (mm / 10), day) == 365 * y + y / 4 - y / 100
            + y / 400 + (153 * mm + 2) / 5 + (day - 1) - 32_044,
{
    let q = y - 4_800;
    lemma_leap_days(q);
    assert(y / 4 == q / 4 + 1_200);
    assert(y / 100 == q / 100 + 48);
    assert(y / 400 == q / 400 + 12);
    if mm < 10 {
        assert(mm / 10 == 0);
        lemma_days_before_month(q, mm + 3);
    } else {
        assert(mm / 10 == 1);
        lemma_year_length(q);
        lemma_days_before_month(q + 1, mm - 9);
    }
}

/// Taking off centuries.
proof fn lemma_centuries(a: int, b: int, c: int)
    requires
        0 <= a,
        b == (4 * a + 3) / 146_097,
        c == a - (146_097 * b) / 4,
    ensures
        a == 36_524 * b + b / 4 + c,
{
    assert((146_097 * b) / 4 == 36_524 * b + b / 4);
}

/// Taking off years.
proof fn lemma_years(c: int, d: int, e: int)
    requires
        e == c - (1_461 * d) / 4,
    ensures
        c == 365 * d + d / 4 + e,
{
    assert((1_461 * d) / 4 == 365 * d + d / 4);
}

/// The days before a year of a century.
proof fn lemma_sum(y: int, b: int, d: int)
    requires
        y == 100 * b + d,
        0 <= b,
        0 <= d <= 99,
    ensures
        365 * y + y / 4 - y / 100 + y / 400 == 36_524 * b + b / 4 + 365 * d + d / 4,
{
    assert(y / 100 == b);
    assert(y / 4 == 25 * b + d / 4);
    assert(y / 400 == b / 4);
}

/// The date of the day with a Julian Day Number, from 1 March of year 0 on.
pub fn civil(jdn: u64) -> (r: (u64, u64, u64))
    requires
        1_721_120 <= jdn <= 0x00ff_ffff_ffff_ffff,
    ensures
        valid_date(r.0 as int, r.1 as int, r.2 as int),
        day_number(r.0 as int, r.1 as int, r.2 as int) == jdn,
        r.0 < jdn,
{
    let a: u64 = jdn + 32_044;
    let b: u64 = (4 * a + 3) / 146_097;
    let c: u64 = a - (146_097 * b) / 4;
    let d: u64 = (4 * c + 3) / 1_461;
    let e: u64 = c - (1_461 * d) / 4;
    let mm: u64 = (5 * e + 2) / 153;
    let day: u64 = e - (153 * mm + 2) / 5 + 1;
    let month: u64 = mm + 3 - 12 * (mm / 10);
    let year: u64 = 100 * b + d - 4_800 + mm / 10;
    proof {
        lemma_centuries(a as int, b as int, c as int);
        lemma_years(c as int, d as int, e as int);
        lemma_sum((100 * b + d) as int, b as int, d as int);
        lemma_march_year((100 * b + d) as int, mm as int, day as int);
    }
    (year, month, day)
}

// ---------------------------------------------------------------------------
// Laws
// ---------------------------------------------------------------------------

/// A year has 366 days where it is divisible by 4 but not by 100, or by 400, and 365
/// days otherwise.
pub proof fn law_years_have_their_length(year: int)
    requires
        0 <= year,
    ensures
        day_number(year + 1, 1, 1) - day_number(year, 1, 1) == if (year % 4 == 0 && year % 100 != 0)
            || year % 400 == 0 {
            366int
        } else {
            365int
        },
{
    lemma_year_length(year);
    assert(year % 400 == 0 ==> year % 4 == 0);
}

/// From the first day of a month to that of the next it is the length of the month.
pub proof fn law_months_have_their_length(year: int, month: int)
    requires
        0 <= year,
        1 <= month < 12,
    ensures
        day_number(year, month + 1, 1) - day_number(year, month, 1) == if month == 2 {
            if (year % 4 == 0 && year % 100 != 0) || year % 400 == 0 {
                29int
            } else {
                28int
            }
        } else if month == 4 || month == 6 || month == 9 || month == 11 {
            30int
        } else {
            31int
        },
        valid_date(year, month, 1),
        !valid_date(year, month, day_number(year, month + 1, 1) - day_number(year, month, 1) + 1),
        valid_date(year, month, day_number(year, month + 1, 1) - day_number(year, month, 1)),
{
    assert(year % 400 == 0 ==> year % 4 == 0);
}

/// Days count up by one: within a month, from one month to the next, and from one year
/// to the next. The first day of 1970 is number 2440588.
pub proof fn law_days_count_up_by_one(year: int, month: int, day: int)
    requires
        valid_date(year, month, day),
    ensures
        day_number(year, month, day + 1) == day_number(year, month, day) + 1,
        month < 12 && !valid_date(year, month, day + 1) ==> day_number(year, month + 1, 1)
            == day_number(year, month, day) + 1,
        month == 12 && !valid_date(year, month, day + 1) ==> day_number(year + 1, 1, 1)
            == day_number(year, month, day) + 1,
        day_number(1970, 1, 1) == 2_440_588,
{
    lemma_days_before_month(year, month);
    lemma_year_length(year);
}

} // verus!
