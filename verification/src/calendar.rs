//! Days since 1970 and the dates of the calendar.

use vstd::arithmetic::div_mod::{
    lemma_fundamental_div_mod, lemma_fundamental_div_mod_converse, lemma_mod_bound,
};
use vstd::prelude::*;

verus! {

/// Whether a year has a leap day.
pub open spec fn is_leap(year: int) -> bool {
    year % 4 == 0 && (year % 100 != 0 || year % 400 == 0)
}

/// How many days a month has.
pub open spec fn month_length(year: int, month: int) -> int {
    if month == 2 {
        if is_leap(year) {
            29
        } else {
            28
        }
    } else if month == 4 || month == 6 || month == 9 || month == 11 {
        30
    } else {
        31
    }
}

/// How many days of a year come before a month.
pub open spec fn days_before_month(year: int, month: int) -> int
    decreases month,
{
    if month <= 1 {
        0
    } else {
        days_before_month(year, month - 1) + month_length(year, month - 1)
    }
}

/// How many days lie between the first of January 1970 and that of a year.
pub open spec fn days_before_year(year: int) -> int {
    365 * year + (year - 1) / 4 - (year - 1) / 100 + (year - 1) / 400 - 719_527
}

/// Whether a date exists.
pub open spec fn is_date(year: int, month: int, day: int) -> bool {
    1 <= month <= 12 && 1 <= day <= month_length(year, month)
}

/// How many days lie between the first of January 1970 and a date.
pub open spec fn day_number(year: int, month: int, day: int) -> int {
    days_before_year(year) + days_before_month(year, month) + day - 1
}

/// The count of days before a year is right: it is 0 for 1970, and grows by the length of each
/// year.
pub proof fn years_follow_each_other(year: int)
    ensures
        days_before_year(1970) == 0,
        days_before_year(year + 1) - days_before_year(year) == if is_leap(year) {
            366int
        } else {
            365int
        },
{
    floor_steps(year);
}

/// How the quotients of a year and the year before differ.
proof fn floor_steps(year: int)
    ensures
        year / 4 - (year - 1) / 4 == if year % 4 == 0 {
            1int
        } else {
            0int
        },
        year / 100 - (year - 1) / 100 == if year % 100 == 0 {
            1int
        } else {
            0int
        },
        year / 400 - (year - 1) / 400 == if year % 400 == 0 {
            1int
        } else {
            0int
        },
        year % 100 == 0 ==> year % 4 == 0,
        year % 400 == 0 ==> year % 100 == 0,
{
    floor_step(year, 4);
    floor_step(year, 100);
    floor_step(year, 400);
    lemma_fundamental_div_mod(year, 100);
    lemma_fundamental_div_mod(year, 400);
}

/// The quotient of a number grows just where the divisor divides it.
proof fn floor_step(n: int, d: int)
    requires
        d > 1,
    ensures
        n / d - (n - 1) / d == if n % d == 0 {
            1int
        } else {
            0int
        },
{
    let q = n / d;
    let r = n % d;
    lemma_fundamental_div_mod(n, d);
    lemma_mod_bound(n, d);
    if r == 0 {
        assert(n - 1 == d * (q - 1) + (d - 1)) by (nonlinear_arith)
            requires
                n == d * q,
        ;
        lemma_fundamental_div_mod_converse(n - 1, d, q - 1, d - 1);
    } else {
        lemma_fundamental_div_mod_converse(n - 1, d, q, r - 1);
    }
}

/// The days of a year that come before each month.
proof fn month_table(year: int)
    ensures
        days_before_month(year, 1) == 0,
        days_before_month(year, 2) == 31,
        ({
            let shift = if is_leap(year) {
                1int
            } else {
                0int
            };
            &&& days_before_month(year, 3) == 59 + shift
            &&& days_before_month(year, 4) == 90 + shift
            &&& days_before_month(year, 5) == 120 + shift
            &&& days_before_month(year, 6) == 151 + shift
            &&& days_before_month(year, 7) == 181 + shift
            &&& days_before_month(year, 8) == 212 + shift
            &&& days_before_month(year, 9) == 243 + shift
            &&& days_before_month(year, 10) == 273 + shift
            &&& days_before_month(year, 11) == 304 + shift
            &&& days_before_month(year, 12) == 334 + shift
            &&& days_before_month(year, 13) == 365 + shift
        }),
{
    reveal_with_fuel(days_before_month, 14);
}

/// A date within its year.
proof fn date_in_year(year: int, month: int, day: int)
    requires
        is_date(year, month, day),
    ensures
        days_before_year(year) <= day_number(year, month, day) < days_before_year(year + 1),
{
    month_table(year);
    years_follow_each_other(year);
}

/// Later years begin later.
proof fn years_grow(a: int, b: int)
    requires
        a <= b,
    ensures
        days_before_year(a) <= days_before_year(b),
    decreases b - a,
{
    if a < b {
        years_grow(a, b - 1);
        years_follow_each_other(b - 1);
    }
}

/// A date before 1970 has a negative number.
pub proof fn dates_before_1970(year: int, month: int, day: int)
    requires
        is_date(year, month, day),
        year < 1970,
    ensures
        day_number(year, month, day) < 0,
{
    date_in_year(year, month, day);
    years_grow(year + 1, 1970);
}

/// Every day has only one date.
pub proof fn dates_are_unique(y1: int, m1: int, d1: int, y2: int, m2: int, d2: int)
    requires
        is_date(y1, m1, d1),
        is_date(y2, m2, d2),
        day_number(y1, m1, d1) == day_number(y2, m2, d2),
    ensures
        y1 == y2 && m1 == m2 && d1 == d2,
{
    date_in_year(y1, m1, d1);
    date_in_year(y2, m2, d2);
    if y1 < y2 {
        years_grow(y1 + 1, y2);
    }
    if y2 < y1 {
        years_grow(y2 + 1, y1);
    }
    month_table(y1);
}

/// How many days of a year that begins in March come before each year of an era of four hundred.
pub open spec fn days_of_era(year: int) -> int {
    365 * year + year / 4 - year / 100
}

/// The date of a year that begins in March and of a day in it.
proof fn march_year(era: int, year: int, day_of_year: int, month: int, day: int)
    requires
        0 <= year < 400,
        0 <= day_of_year < march_length(year),
        ({
            let prime = if month >= 3 {
                month - 3
            } else {
                month + 9
            };
            &&& 1 <= month <= 12
            &&& (153 * prime + 2) / 5 <= day_of_year < (153 * (prime + 1) + 2) / 5
            &&& day == day_of_year - (153 * prime + 2) / 5 + 1
        }),
    ensures
        ({
            let civil = era * 400 + year + if month <= 2 {
                1int
            } else {
                0int
            };
            &&& is_date(civil, month, day)
            &&& day_number(civil, month, day) == era * 146_097 + days_of_era(year) + day_of_year
                - 719_468
        }),
{
    let march = era * 400 + year;
    let civil = march + if month <= 2 {
        1int
    } else {
        0int
    };
    month_table(civil);
    floor_steps(march);
    floor_steps(march + 1);
    assert(march / 4 == era * 100 + year / 4);
    assert(march / 100 == era * 4 + year / 100);
    assert(march / 400 == era);
    assert(days_before_year(march) + 59 + (if is_leap(march) {
        1int
    } else {
        0int
    }) == era * 146_097 + days_of_era(year) - 719_468);
    years_follow_each_other(march);
    assert((march + 1) % 4 == (year + 1) % 4);
    assert((march + 1) % 100 == (year + 1) % 100);
    assert((march + 1) % 400 == 0 <==> year == 399);
}

/// The era of four hundred years and the day in it.
fn split_era(z: i64) -> (split: (i64, i64))
    ensures
        z == split.0 * 146_097 + split.1,
        0 <= split.1 < 146_097,
        -i64::MAX / 146_097 - 2 <= split.0 <= i64::MAX / 146_097,
{
    if z >= 0 {
        (z / 146_097, z % 146_097)
    } else {
        let below: i64 = -(z + 1);
        (-(below / 146_097) - 1, 146_096 - below % 146_097)
    }
}

/// The length of a year that begins in March: its leap day is its last.
pub open spec fn march_length(year: int) -> int {
    if (year + 1) % 4 == 0 && ((year + 1) % 100 != 0 || year == 399) {
        366
    } else {
        365
    }
}

/// The year of an era and the day in it, both from March.
fn split_year(day_of_era: i64) -> (split: (i64, i64))
    requires
        0 <= day_of_era < 146_097,
    ensures
        0 <= split.0 < 400,
        0 <= split.1 < march_length(split.0 as int),
        day_of_era == days_of_era(split.0 as int) + split.1,
{
    let century: i64 = if day_of_era < 36_524 {
        0
    } else if day_of_era < 73_048 {
        1
    } else if day_of_era < 109_572 {
        2
    } else {
        3
    };
    let day_of_century: i64 = day_of_era - century * 36_524;
    let quad: i64 = day_of_century / 1_461;
    let day_of_quad: i64 = day_of_century - quad * 1_461;
    let single: i64 = if day_of_quad < 365 {
        0
    } else if day_of_quad < 730 {
        1
    } else if day_of_quad < 1_095 {
        2
    } else {
        3
    };
    let year: i64 = 100 * century + 4 * quad + single;
    proof {
        assert(0 <= quad <= 24);
        assert(year as int / 100 == century);
        assert(year as int / 4 == 25 * century + quad);
        assert((year + 1) % 4 == 0 <==> single == 3);
        assert((year + 1) % 100 == 0 <==> single == 3 && quad == 24);
    }
    (year, day_of_quad - 365 * single)
}

/// The month and its day, of a day in a year that begins in March.
fn split_month(day_of_year: i64) -> (split: (i64, i64))
    requires
        0 <= day_of_year < 366,
    ensures
        ({
            let prime = if split.0 >= 3 {
                split.0 - 3
            } else {
                split.0 + 9
            };
            &&& 1 <= split.0 <= 12
            &&& (153 * prime + 2) / 5 <= day_of_year < (153 * (prime + 1) + 2) / 5
            &&& split.1 == day_of_year - (153 * prime + 2) / 5 + 1
        }),
{
    let prime: i64 = (5 * day_of_year + 2) / 153;
    assert(0 <= prime <= 11);
    let day: i64 = day_of_year - (153 * prime + 2) / 5 + 1;
    let month: i64 = if prime < 10 {
        prime + 3
    } else {
        prime - 9
    };
    (month, day)
}

/// The date of a day: year, month and day of the month.
pub fn civil_from_days(days: i64) -> (date: (i64, u32, u32))
    requires
        days <= i64::MAX - 719_468,
    ensures
        is_date(date.0 as int, date.1 as int, date.2 as int),
        day_number(date.0 as int, date.1 as int, date.2 as int) == days,
{
    let (era, day_of_era) = split_era(days + 719_468);
    let (year_of_era, day_of_year) = split_year(day_of_era);
    let (month, day) = split_month(day_of_year);
    proof {
        march_year(
            era as int,
            year_of_era as int,
            day_of_year as int,
            month as int,
            day as int,
        );
    }
    let year: i64 = year_of_era + era * 400 + if month <= 2 {
        1
    } else {
        0
    };
    (year, month as u32, day as u32)
}

/// A year has a leap day every fourth year, but for those of full centuries that four hundred does
/// not divide.
pub proof fn leap_years(year: int)
    ensures
        year % 4 != 0 ==> !is_leap(year),
        year % 4 == 0 && year % 100 != 0 ==> is_leap(year),
        year % 100 == 0 && year % 400 != 0 ==> !is_leap(year),
        year % 400 == 0 ==> is_leap(year),
{
}

/// The days follow each other: within a month, from the last of a month to the first of the next,
/// and from the last of a year to the first of the next. The first of January 1970 is day 0.
pub proof fn days_follow_each_other(year: int, month: int, day: int)
    requires
        1 <= month <= 12,
    ensures
        day_number(1970, 1, 1) == 0,
        day_number(year, month, day + 1) == day_number(year, month, day) + 1,
        month < 12 ==> day_number(year, month + 1, 1) == day_number(
            year,
            month,
            if month == 2 {
                if (year % 4 == 0 && year % 100 != 0) || year % 400 == 0 {
                    29
                } else {
                    28
                }
            } else if month == 4 || month == 6 || month == 9 || month == 11 {
                30
            } else {
                31
            },
        ) + 1,
        day_number(year + 1, 1, 1) == day_number(year, 12, 31) + 1,
{
    years_follow_each_other(year);
    month_table(year);
}

} // verus!
