//! The Gregorian calendar: what day a date is.

use vstd::prelude::*;

verus! {

pub open spec fn leap(year: int) -> bool {
    year % 4 == 0 && (year % 100 != 0 || year % 400 == 0)
}

pub open spec fn month_len(year: int, month: int) -> int {
    if month == 2 {
        if leap(year) {
            29
        } else {
            28
        }
    } else if month == 4 || month == 6 || month == 9 || month == 11 {
        30
    } else {
        31
    }
}

/// Days from the first of January to the first of the month.
pub open spec fn days_before_month(year: int, month: int) -> int
    decreases month,
{
    if month <= 1 {
        0
    } else {
        days_before_month(year, month - 1) + month_len(year, month - 1)
    }
}

/// Days from the first of January of year 0 to the first of January of the year: 365 each, and
/// one for each leap year.
pub open spec fn days_before_year(year: int) -> int {
    365 * year + (year + 3) / 4 - (year + 99) / 100 + (year + 399) / 400
}

/// A date of the calendar.
pub open spec fn valid_date(year: int, month: int, day: int) -> bool {
    1 <= month <= 12 && 1 <= day <= month_len(year, month)
}

/// Days from the first of January 1970 to the date.
pub open spec fn day_number(year: int, month: int, day: int) -> int {
    days_before_year(year) + days_before_month(year, month) + day - 1 - 719528
}

/// A year has 365 days, and a leap year 366.
pub proof fn year_length(year: int)
    ensures
        days_before_year(year + 1) - days_before_year(year) == if leap(year) {
            366int
        } else {
            365
        },
        days_before_month(year, 13) == if leap(year) {
            366int
        } else {
            365
        },
{
    assert((year + 4) / 4 - (year + 3) / 4 == if year % 4 == 0 {
        1int
    } else {
        0
    });
    assert((year + 100) / 100 - (year + 99) / 100 == if year % 100 == 0 {
        1int
    } else {
        0
    });
    assert((year + 400) / 400 - (year + 399) / 400 == if year % 400 == 0 {
        1int
    } else {
        0
    });
    assert(year % 100 == 0 ==> year % 4 == 0);
    assert(year % 400 == 0 ==> year % 100 == 0);
    assert(days_before_month(year, 13) == 337 + month_len(year, 2)) by {
        reveal_with_fuel(days_before_month, 14);
    }
}

/// The same day, counted from the first of March of year `y`, whose months are numbered from 0.
pub open spec fn day_number_from_march(y: int, march_month: int, day: int) -> int {
    365 * y + y / 4 - y / 100 + y / 400 + (153 * march_month + 2) / 5 + day - 1 - 719468
}

pub proof fn lemma_from_march(y: int, march_month: int, day: int)
    requires
        0 <= march_month < 12,
    ensures
        ({
            let month = if march_month < 10 {
                march_month + 3
            } else {
                march_month - 9
            };
            let year = if month <= 2 {
                y + 1
            } else {
                y
            };
            day_number(year, month, day) == day_number_from_march(y, march_month, day)
        }),
{
    reveal_with_fuel(days_before_month, 13);
    year_length(y);
    assert(days_before_year(y + 1) == 365 * y + 365 + y / 4 - y / 100 + y / 400 + 1);
}

proof fn lemma_day_in_year(year: int, month: int, day: int)
    requires
        valid_date(year, month, day),
    ensures
        days_before_year(year) <= day_number(year, month, day) + 719528 < days_before_year(
            year + 1,
        ),
{
    year_length(year);
    reveal_with_fuel(days_before_month, 14);
}

proof fn lemma_years_in_order(a: int, b: int)
    requires
        a <= b,
    ensures
        days_before_year(a) <= days_before_year(b),
    decreases b - a,
{
    if a < b {
        lemma_years_in_order(a, b - 1);
        year_length(b - 1);
    }
}

proof fn lemma_months_in_order(year: int, a: int, b: int)
    requires
        1 <= a < b <= 12,
    ensures
        days_before_month(year, a) + month_len(year, a) <= days_before_month(year, b),
    decreases b - a,
{
    if a < b - 1 {
        lemma_months_in_order(year, a, b - 1);
    }
}

/// No two dates are the same day.
pub proof fn dates_are_distinct(y1: int, m1: int, d1: int, y2: int, m2: int, d2: int)
    requires
        valid_date(y1, m1, d1),
        valid_date(y2, m2, d2),
        day_number(y1, m1, d1) == day_number(y2, m2, d2),
    ensures
        y1 == y2,
        m1 == m2,
        d1 == d2,
{
    lemma_day_in_year(y1, m1, d1);
    lemma_day_in_year(y2, m2, d2);
    if y1 < y2 {
        lemma_years_in_order(y1 + 1, y2);
    }
    if y2 < y1 {
        lemma_years_in_order(y2 + 1, y1);
    }
    if m1 < m2 {
        lemma_months_in_order(y1, m1, m2);
    }
    if m2 < m1 {
        lemma_months_in_order(y1, m2, m1);
    }
}

/// The year of a 400-year cycle that the usual quotient finds, and the day in that year.
pub proof fn lemma_year_of_cycle(day: int, year: int)
    requires
        0 <= day < 146097,
        year == (day - day / 1460 + day / 36524 - day / 146096) / 365,
    ensures
        0 <= year <= 399,
        0 <= day - (365 * year + year / 4 - year / 100) <= 365,
        year % 4 != 3 || (year % 100 == 99 && year != 399) ==> day - (365 * year + year / 4 - year
            / 100) <= 364,
{
}

/// The date of a day.
pub open spec fn date_of(day: int) -> (int, int, int) {
    choose|date: (int, int, int)| #[trigger]
        valid_date(date.0, date.1, date.2) && day_number(date.0, date.1, date.2) == day
}

/// A date is the date of its day.
pub proof fn lemma_date_of(year: int, month: int, day: int)
    requires
        valid_date(year, month, day),
    ensures
        date_of(day_number(year, month, day)) == (year, month, day),
{
    let n = day_number(year, month, day);
    let date = (year, month, day);
    assert(valid_date(date.0, date.1, date.2) && day_number(date.0, date.1, date.2) == n);
    let found = date_of(n);
    dates_are_distinct(found.0, found.1, found.2, year, month, day);
}

/// The quotient rounded down.
pub fn floor_div(x: i64, d: i64) -> (r: i64)
    requires
        d > 1,
    ensures
        r == x as int / d as int,
{
    if x >= 0 {
        x / d
    } else {
        let q: i64 = (-(x + 1)) / d;
        proof {
            let y = -(x + 1) as int;
            let e = d as int;
            assert(q == y / e);
            assert(x as int / e == -(y / e) - 1) by (nonlinear_arith)
                requires
                    x == -y - 1,
                    e > 1,
                    y >= 0,
            ;
            assert(y / e <= y) by (nonlinear_arith)
                requires
                    e > 1,
                    y >= 0,
            ;
        }
        -q - 1
    }
}

} // verus!
