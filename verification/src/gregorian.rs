use vstd::prelude::*;

use crate::consts::NANOSECONDS_PER_SECOND_U32;

verus! {

/// Whether a year of the proleptic Gregorian calendar is a leap year.
pub open spec fn is_leap(year: int) -> bool {
    (year % 4 == 0 && year % 100 != 0) || year % 400 == 0
}

/// Number of days of a month (ONE indexed) in a non-leap year, zero for an invalid month.
pub open spec fn month_days(month: int) -> int {
    if month == 1 || month == 3 || month == 5 || month == 7 || month == 8 || month == 10 || month
        == 12 {
        31
    } else if month == 4 || month == 6 || month == 9 || month == 11 {
        30
    } else if month == 2 {
        28
    } else {
        0
    }
}

/// Number of days before the start of the (ONE indexed) month, in a leap year or not.
pub open spec fn days_before_month(leap: bool, month: int) -> int
    decreases month,
{
    if month <= 1 {
        0
    } else {
        days_before_month(leap, month - 1) + month_days(month - 1) + if leap && month - 1 == 2 {
            1int
        } else {
            0int
        }
    }
}

/// Years whose 31st of December ended with a leap second (leap second announced for January).
pub open spec fn is_january_year(year: int) -> bool {
    year == 1972 || year == 1973 || year == 1974 || year == 1975 || year == 1976 || year == 1977
        || year == 1978 || year == 1979 || year == 1980 || year == 1988 || year == 1990 || year
        == 1991 || year == 1996 || year == 1999 || year == 2006 || year == 2009 || year == 2017
}

/// Years whose 30th of June ended with a leap second.
pub open spec fn is_july_year(year: int) -> bool {
    year == 1972 || year == 1981 || year == 1982 || year == 1983 || year == 1985 || year == 1992
        || year == 1993 || year == 1994 || year == 1997 || year == 2012 || year == 2015
}

/// Whether a Gregorian date and time is valid: the day exists in the month (the 29th of
/// February only in leap years), the time is a time of day, and only the last minute of a
/// day followed by a leap second may have 60 seconds.
pub open spec fn gregorian_valid(
    year: int,
    month: int,
    day: int,
    hour: int,
    minute: int,
    second: int,
    nanos: int,
) -> bool {
    let max_seconds = if (month == 12 || month == 6) && day == month_days(month) && hour == 23
        && minute == 59 && ((month == 6 && is_july_year(year)) || (month == 12 && is_january_year(
        year + 1,
    ))) {
        60int
    } else {
        59int
    };
    &&& 1 <= month <= 12
    &&& 1 <= day <= month_days(month) + if month == 2 && is_leap(year) {
        1int
    } else {
        0int
    }
    &&& hour <= 23
    &&& minute <= 59
    &&& second <= max_seconds
    &&& nanos < 1_000_000_000
}

/// Number of leap years in [1, year) counted with floor divisions (negative before year 1).
pub open spec fn leaps_before(year: int) -> int {
    (year - 1) / 4 - (year - 1) / 100 + (year - 1) / 400
}

/// Number of leap years in [1900, year) when year >= 1900, and minus the number of leap years
/// in [year, 1900) otherwise.
pub open spec fn leaps_since_ref(year: int) -> int {
    leaps_before(year) - leaps_before(1900)
}

/// Increment of a floor division between consecutive integers.
pub proof fn lemma_div_step(y: int, d: int)
    requires
        d > 0,
    ensures
        y / d - (y - 1) / d == if y % d == 0 {
            1int
        } else {
            0int
        },
{
    vstd::arithmetic::div_mod::lemma_fundamental_div_mod(y, d);
    let q = y / d;
    let r = y % d;
    vstd::arithmetic::div_mod::lemma_mod_bound(y, d);
    vstd::arithmetic::mul::lemma_mul_is_commutative(q, d);
    assert((q - 1) * d == q * d - d) by {
        vstd::arithmetic::mul::lemma_mul_is_distributive_sub_other_way(d, q, 1);
    }
    if r > 0 {
        vstd::arithmetic::div_mod::lemma_fundamental_div_mod_converse(y - 1, d, q, r - 1);
    } else {
        vstd::arithmetic::div_mod::lemma_fundamental_div_mod_converse(y - 1, d, q - 1, d - 1);
    }
}

/// The leap year count grows by one exactly across leap years.
pub proof fn lemma_leaps_step(y: int)
    ensures
        leaps_since_ref(y + 1) == leaps_since_ref(y) + if is_leap(y) {
            1int
        } else {
            0int
        },
{
    lemma_div_step(y, 4);
    lemma_div_step(y, 100);
    lemma_div_step(y, 400);
    vstd::arithmetic::div_mod::lemma_mod_mod(y, 100, 4);
    vstd::arithmetic::div_mod::lemma_mod_mod(y, 4, 25);
}


/// The days before a month grow by at most 31 (or 29 in February of leap years) per month.
pub proof fn lemma_days_before_month_bound(leap: bool, month: int)
    requires
        1 <= month <= 13,
    ensures
        0 <= days_before_month(leap, month) <= 31 * (month - 1),
        month <= 12 ==> days_before_month(leap, month) + month_days(month) + (if leap && month == 2 {
            1int
        } else {
            0int
        }) == days_before_month(leap, month + 1),
    decreases month,
{
    if month > 1 {
        lemma_days_before_month_bound(leap, month - 1);
    }
}

/// The leap years since 1900 are not negative from 1900 on.
pub proof fn lemma_leaps_nonneg(year: int)
    requires
        year >= 1900,
    ensures
        0 <= leaps_since_ref(year) <= year - 1900,
    decreases year - 1900,
{
    if year > 1900 {
        lemma_leaps_nonneg(year - 1);
        lemma_leaps_step(year - 1);
    }
}

/// The days before a month grow with the month.
pub proof fn lemma_days_before_month_mono(leap: bool, i: int, j: int)
    requires
        1 <= i <= j <= 13,
    ensures
        days_before_month(leap, i) + 28 * (j - i) <= days_before_month(leap, j),
    decreases j - i,
{
    if i < j {
        lemma_days_before_month_mono(leap, i, j - 1);
        lemma_days_before_month_bound(leap, j - 1);
    }
}

/// Days from 1900-01-01 to the first of January of the year.
pub open spec fn year_start_days(year: int) -> int {
    365 * (year - 1900) + leaps_since_ref(year)
}

/// Number of days of the year.
pub open spec fn year_length(year: int) -> int {
    if is_leap(year) {
        366
    } else {
        365
    }
}

/// The leap years since 1900 are not positive up to 1900.
pub proof fn lemma_leaps_nonpos(year: int)
    requires
        year <= 1900,
    ensures
        year - 1900 <= leaps_since_ref(year) <= 0,
    decreases 1900 - year,
{
    if year < 1900 {
        lemma_leaps_nonpos(year + 1);
        lemma_leaps_step(year);
    }
}

/// The first of January of the next year is a year's length after that of the year.
pub proof fn lemma_year_start_step(year: int)
    ensures
        year_start_days(year + 1) == year_start_days(year) + year_length(year),
{
    lemma_leaps_step(year);
}

/// The first day of a year in a 400 year cycle from 2001: the cycle `q`, the century `c` in it,
/// the four years `k` in that century and the year `j` in those. The year is a leap year
/// when it is the last of its four years, unless it ends a century that does not end the cycle.
pub proof fn lemma_cycle_start(q: int, c: int, k: int, j: int)
    requires
        0 <= c <= 3,
        0 <= k <= 24,
        0 <= j <= 3,
    ensures
        year_start_days(2001 + 400 * q + 100 * c + 4 * k + j) == 36890 + 146097 * q + 36524 * c
            + 1461 * k + 365 * j,
        is_leap(2001 + 400 * q + 100 * c + 4 * k + j) <==> (j == 3 && (k != 24 || c == 3)),
{
    let y = 2001 + 400 * q + 100 * c + 4 * k + j;
    let a = y - 1;
    vstd::arithmetic::div_mod::lemma_fundamental_div_mod_converse(a, 4, 500 + 100 * q + 25 * c + k, j);
    vstd::arithmetic::div_mod::lemma_fundamental_div_mod_converse(a, 100, 20 + 4 * q + c, 4 * k + j);
    vstd::arithmetic::div_mod::lemma_fundamental_div_mod_converse(a, 400, 5 + q, 100 * c + 4 * k + j);
    assert(leaps_before(1900) == 460);
    if j < 3 {
        vstd::arithmetic::div_mod::lemma_fundamental_div_mod_converse(y, 4, 500 + 100 * q + 25 * c + k, j + 1);
    } else {
        vstd::arithmetic::div_mod::lemma_fundamental_div_mod_converse(y, 4, 501 + 100 * q + 25 * c + k, 0);
        if k < 24 {
            vstd::arithmetic::div_mod::lemma_fundamental_div_mod_converse(y, 100, 20 + 4 * q + c, 4 * k + 4);
            vstd::arithmetic::div_mod::lemma_fundamental_div_mod_converse(y, 400, 5 + q, 100 * c + 4 * k + 4);
        } else {
            vstd::arithmetic::div_mod::lemma_fundamental_div_mod_converse(y, 100, 21 + 4 * q + c, 0);
            if c < 3 {
                vstd::arithmetic::div_mod::lemma_fundamental_div_mod_converse(y, 400, 5 + q, 100 * c + 100);
            } else {
                vstd::arithmetic::div_mod::lemma_fundamental_div_mod_converse(y, 400, 6 + q, 0);
            }
        }
    }
}

/// The year and zero indexed day of year of a number of days since 1900-01-01, counted in
/// cycles of 400 years from 2001-01-01 (146097 days), then centuries (36524 days), four years
/// (1461 days) and years (365 days); the last day of a cycle and of four years belongs to the
/// leap year that ends them.
pub open spec fn year_and_day_of(days: int) -> (int, int) {
    let n = days - 36890;
    let q = n / 146097;
    let r = n % 146097;
    let c = if r / 36524 > 3 {
        3
    } else {
        r / 36524
    };
    let r1 = r - 36524 * c;
    let k = r1 / 1461;
    let r2 = r1 - 1461 * k;
    let j = if r2 / 365 > 3 {
        3
    } else {
        r2 / 365
    };
    (2001 + 400 * q + 100 * c + 4 * k + j, r2 - 365 * j)
}

/// Any number of days since 1900-01-01 falls in the year found, at the day of year found.
pub proof fn lemma_year_and_day_total(n: int)
    ensures
        ({
            let (y, d) = year_and_day_of(n);
            &&& year_start_days(y) + d == n
            &&& 0 <= d < year_length(y)
            &&& 400 * ((n - 36890) / 146097) + 2001 <= y <= 400 * ((n - 36890) / 146097) + 2400
        }),
{
    let m = n - 36890;
    let q = m / 146097;
    let r = m % 146097;
    vstd::arithmetic::div_mod::lemma_fundamental_div_mod(m, 146097);
    vstd::arithmetic::div_mod::lemma_mod_bound(m, 146097);
    vstd::arithmetic::div_mod::lemma_fundamental_div_mod(r, 36524);
    vstd::arithmetic::div_mod::lemma_mod_bound(r, 36524);
    vstd::arithmetic::div_mod::lemma_div_pos_is_pos(r, 36524);
    assert(r / 36524 <= 4) by {
        vstd::arithmetic::div_mod::lemma_div_is_ordered(r, 146096, 36524);
    }
    let c = if r / 36524 > 3 {
        3
    } else {
        r / 36524
    };
    let r1 = r - 36524 * c;
    assert(0 <= r1 <= 36524);
    assert(c < 3 ==> r1 < 36524);
    vstd::arithmetic::div_mod::lemma_fundamental_div_mod(r1, 1461);
    vstd::arithmetic::div_mod::lemma_mod_bound(r1, 1461);
    vstd::arithmetic::div_mod::lemma_div_pos_is_pos(r1, 1461);
    assert(r1 / 1461 <= 24) by {
        vstd::arithmetic::div_mod::lemma_div_is_ordered(r1, 36524, 1461);
    }
    let k = r1 / 1461;
    let r2 = r1 - 1461 * k;
    assert(0 <= r2 < 1461);
    vstd::arithmetic::div_mod::lemma_fundamental_div_mod(r2, 365);
    vstd::arithmetic::div_mod::lemma_mod_bound(r2, 365);
    vstd::arithmetic::div_mod::lemma_div_pos_is_pos(r2, 365);
    assert(r2 / 365 <= 4) by {
        vstd::arithmetic::div_mod::lemma_div_is_ordered(r2, 1460, 365);
    }
    let j = if r2 / 365 > 3 {
        3
    } else {
        r2 / 365
    };
    let d = r2 - 365 * j;
    assert(0 <= d <= 365);
    assert(j < 3 ==> d < 365);
    lemma_cycle_start(q, c, k, j);
    if d == 365 {
        assert(j == 3 && r2 == 1460);
        assert(k != 24 || c == 3);
    }
}

/// A day of a year, counted from 1900-01-01, gives that year and day of year back.
pub proof fn lemma_year_and_day_inverse(y: int, d: int)
    requires
        0 <= d < year_length(y),
    ensures
        year_and_day_of(year_start_days(y) + d) == (y, d),
{
    let e0 = y - 2001;
    let q = e0 / 400;
    let e = e0 % 400;
    vstd::arithmetic::div_mod::lemma_fundamental_div_mod(e0, 400);
    vstd::arithmetic::div_mod::lemma_mod_bound(e0, 400);
    let c = e / 100;
    let f = e % 100;
    vstd::arithmetic::div_mod::lemma_fundamental_div_mod(e, 100);
    vstd::arithmetic::div_mod::lemma_mod_bound(e, 100);
    vstd::arithmetic::div_mod::lemma_div_pos_is_pos(e, 100);
    assert(c <= 3) by {
        vstd::arithmetic::div_mod::lemma_div_is_ordered(e, 399, 100);
    }
    let k = f / 4;
    let j = f % 4;
    vstd::arithmetic::div_mod::lemma_fundamental_div_mod(f, 4);
    vstd::arithmetic::div_mod::lemma_mod_bound(f, 4);
    vstd::arithmetic::div_mod::lemma_div_pos_is_pos(f, 4);
    assert(k <= 24) by {
        vstd::arithmetic::div_mod::lemma_div_is_ordered(f, 99, 4);
    }
    assert(y == 2001 + 400 * q + 100 * c + 4 * k + j);
    lemma_cycle_start(q, c, k, j);
    let n = year_start_days(y) + d;
    let x = 36524 * c + 1461 * k + 365 * j + d;
    assert(j < 3 ==> d < 365);
    assert(k == 24 && c < 3 ==> d < 365);
    assert(0 <= x < 146097);
    vstd::arithmetic::div_mod::lemma_fundamental_div_mod_converse(n - 36890, 146097, q, x);
    let rest = 1461 * k + 365 * j + d;
    if c < 3 {
        assert(rest < 36524);
        vstd::arithmetic::div_mod::lemma_fundamental_div_mod_converse(x, 36524, c, rest);
    } else if rest < 36524 {
        vstd::arithmetic::div_mod::lemma_fundamental_div_mod_converse(x, 36524, 3, rest);
    } else {
        vstd::arithmetic::div_mod::lemma_fundamental_div_mod_converse(x, 36524, 4, 0);
    }
    vstd::arithmetic::div_mod::lemma_fundamental_div_mod_converse(rest, 1461, k, 365 * j + d);
    if j < 3 {
        vstd::arithmetic::div_mod::lemma_fundamental_div_mod_converse(365 * j + d, 365, j, d);
    } else if d < 365 {
        vstd::arithmetic::div_mod::lemma_fundamental_div_mod_converse(365 * j + d, 365, 3, d);
    } else {
        vstd::arithmetic::div_mod::lemma_fundamental_div_mod_converse(365 * j + d, 365, 4, 0);
    }
}

/// Number of leap years among the `n` years from `year` on.
pub open spec fn leap_count(year: int, n: nat) -> nat
    decreases n,
{
    if n == 0 {
        0
    } else {
        leap_count(year, (n - 1) as nat) + if is_leap(year + n - 1) {
            1nat
        } else {
            0nat
        }
    }
}

/// The leap years among `n` years are counted by the difference of the leap years since 1900.
pub proof fn lemma_leap_count(year: int, n: nat)
    ensures
        leap_count(year, n) == leaps_since_ref(year + n) - leaps_since_ref(year),
    decreases n,
{
    if n > 0 {
        lemma_leap_count(year, (n - 1) as nat);
        lemma_leaps_step(year + n - 1);
    }
}

/// The leap years of the proleptic Gregorian calendar (`is_leap_year`) repeat every 400
/// years, negative years included, and exactly 97 of any 400 consecutive years are leap years;
/// 1900 is not a leap year and 2000 is.
pub proof fn law_leap_years_repeat(year: int)
    ensures
        is_leap(year + 400) == is_leap(year),
        leap_count(year, 400) == 97,
        !is_leap(1900),
        is_leap(2000),
{
    law_leap_cycle(year);
    lemma_leap_count(year, 400);
}

/// Every 400 years hold 97 leap years: the first of January moves by 146097 days.
pub proof fn law_leap_cycle(year: int)
    ensures
        leaps_since_ref(year + 400) == leaps_since_ref(year) + 97,
        year_start_days(year + 400) == year_start_days(year) + 146097,
        is_leap(year + 400) == is_leap(year),
{
    let a = year - 1;
    vstd::arithmetic::div_mod::lemma_fundamental_div_mod(a, 4);
    vstd::arithmetic::div_mod::lemma_fundamental_div_mod(a, 100);
    vstd::arithmetic::div_mod::lemma_fundamental_div_mod(a, 400);
    vstd::arithmetic::div_mod::lemma_mod_bound(a, 4);
    vstd::arithmetic::div_mod::lemma_mod_bound(a, 100);
    vstd::arithmetic::div_mod::lemma_mod_bound(a, 400);
    vstd::arithmetic::div_mod::lemma_fundamental_div_mod_converse(a + 400, 4, a / 4 + 100, a % 4);
    vstd::arithmetic::div_mod::lemma_fundamental_div_mod_converse(a + 400, 100, a / 100 + 4, a % 100);
    vstd::arithmetic::div_mod::lemma_fundamental_div_mod_converse(a + 400, 400, a / 400 + 1, a % 400);
    vstd::arithmetic::div_mod::lemma_fundamental_div_mod(year, 4);
    vstd::arithmetic::div_mod::lemma_fundamental_div_mod(year, 100);
    vstd::arithmetic::div_mod::lemma_fundamental_div_mod(year, 400);
    vstd::arithmetic::div_mod::lemma_mod_bound(year, 4);
    vstd::arithmetic::div_mod::lemma_mod_bound(year, 100);
    vstd::arithmetic::div_mod::lemma_mod_bound(year, 400);
    vstd::arithmetic::div_mod::lemma_fundamental_div_mod_converse(year + 400, 4, year / 4 + 100, year % 4);
    vstd::arithmetic::div_mod::lemma_fundamental_div_mod_converse(year + 400, 100, year / 100 + 4, year % 100);
    vstd::arithmetic::div_mod::lemma_fundamental_div_mod_converse(year + 400, 400, year / 400 + 1, year % 400);
}

/// A year has 365 days, and 366 in leap years.
pub proof fn lemma_year_days(leap: bool)
    ensures
        days_before_month(leap, 13) == if leap {
            366int
        } else {
            365int
        },
{
    reveal_with_fuel(days_before_month, 13);
}

/// `is_leap_year` returns whether the provided year is a leap year or not.
pub fn is_leap_year(year: i32) -> (r: bool)
    ensures
        r == is_leap(year as int),
{
    (year % 4 == 0 && year % 100 != 0) || year % 400 == 0
}

/// Years when January had the leap second
pub fn january_years(year: i32) -> (r: bool)
    ensures
        r == is_january_year(year as int),
{
    matches!(
        year,
        1972 | 1973 | 1974 | 1975 | 1976 | 1977 | 1978 | 1979 | 1980 | 1988 | 1990 | 1991 | 1996
            | 1999 | 2006 | 2009 | 2017
    )
}

/// Years when July had the leap second
pub fn july_years(year: i32) -> (r: bool)
    ensures
        r == is_july_year(year as int),
{
    matches!(year, 1972 | 1981 | 1982 | 1983 | 1985 | 1992 | 1993 | 1994 | 1997 | 2012 | 2015)
}

/// Returns the usual days in a given month (ONE indexed, i.e. January is month ONE and December is month 12)
///
/// This returns 0 days if the month is invalid.
pub fn usual_days_per_month(month: u8) -> (r: u8)
    ensures
        r == month_days(month as int),
{
    match month {
        1 | 3 | 5 | 7 | 8 | 10 | 12 => 31,
        4 | 6 | 9 | 11 => 30,
        2 => 28,
        _ => 0,
    }
}

/// Returns the prefix-sum of days counted up to the start of each month (index 0 is January).
pub fn cumulative_days_for_month(leap: bool) -> (r: [u16; 12])
    ensures
        forall|i: int| 0 <= i < 12 ==> r[i] == days_before_month(leap, i + 1),
{
    let mut days: [u16; 12] = [0; 12];
    let mut month: usize = 1;
    while month < 12
        invariant
            1 <= month <= 12,
            forall|i: int| 0 <= i < month ==> days[i] == days_before_month(leap, i + 1),
            forall|i: int| 0 <= i < month ==> days[i] <= 31 * i + 1,
        decreases 12 - month,
    {
        let mut value: u16 = days[month - 1] + usual_days_per_month(month as u8) as u16;
        if leap && month == 2 {
            value = value + 1;
        }
        days[month] = value;
        month = month + 1;
    }
    days
}

/// Days from 1900-01-01 to the first of January of the year.
pub fn year_start_days_of(year: i32) -> (r: i64)
    ensures
        r == year_start_days(year as int),
{
    let a: i64 = year as i64 - 1;
    let q4: i64 = match a.checked_div_euclid(4) {
        Some(q) => q,
        None => 0,
    };
    let q100: i64 = match a.checked_div_euclid(100) {
        Some(q) => q,
        None => 0,
    };
    let q400: i64 = match a.checked_div_euclid(400) {
        Some(q) => q,
        None => 0,
    };
    proof {
        vstd::arithmetic::div_mod::lemma_div_is_ordered(a as int, i32::MAX as int, 4);
        vstd::arithmetic::div_mod::lemma_div_is_ordered(i32::MIN - 1, a as int, 4);
        vstd::arithmetic::div_mod::lemma_div_is_ordered(a as int, i32::MAX as int, 100);
        vstd::arithmetic::div_mod::lemma_div_is_ordered(i32::MIN - 1, a as int, 100);
        vstd::arithmetic::div_mod::lemma_div_is_ordered(a as int, i32::MAX as int, 400);
        vstd::arithmetic::div_mod::lemma_div_is_ordered(i32::MIN - 1, a as int, 400);
        assert(leaps_before(1900) == 460);
    }
    365 * (year as i64 - 1900) + q4 - q100 + q400 - 460
}

/// Year and zero indexed day of year of a number of days since 1900-01-01, counted in cycles
/// of 400 years from 2001-01-01, then centuries, four years and years.
pub fn year_and_day_of_days(days: i64) -> (r: (i64, i64))
    requires
        -36_028_797_018_963_968 <= days <= 36_028_797_018_963_968,
    ensures
        (r.0 as int, r.1 as int) == year_and_day_of(days as int),
        0 <= r.1 < 366,
        400 * ((days - 36890) / 146097) + 2001 <= r.0 <= 400 * ((days - 36890) / 146097) + 2400,
{
    let n: i64 = days - 36890;
    let q: i64 = match n.checked_div_euclid(146097) {
        Some(q) => q,
        None => 0,
    };
    let r: i64 = match n.checked_rem_euclid(146097) {
        Some(r) => r,
        None => 0,
    };
    proof {
        vstd::arithmetic::div_mod::lemma_div_is_ordered(-36_028_797_018_963_968 - 36890, n as int, 146097);
        vstd::arithmetic::div_mod::lemma_div_is_ordered(n as int, 36_028_797_018_963_968, 146097);
        vstd::arithmetic::div_mod::lemma_mod_bound(n as int, 146097);
        lemma_year_and_day_total(days as int);
    }
    let c0: i64 = r / 36524;
    let c: i64 = if c0 > 3 {
        3
    } else {
        c0
    };
    let r1: i64 = r - 36524 * c;
    let k: i64 = r1 / 1461;
    let r2: i64 = r1 - 1461 * k;
    let j0: i64 = r2 / 365;
    let j: i64 = if j0 > 3 {
        3
    } else {
        j0
    };
    proof {
        vstd::arithmetic::div_mod::lemma_div_is_ordered(r1 as int, 36524, 1461);
        vstd::arithmetic::div_mod::lemma_div_is_ordered(r2 as int, 1460, 365);
    }
    (2001 + 400 * q + 100 * c + 4 * k + j, r2 - 365 * j)
}

#[must_use]
/// Returns true if the provided Gregorian date is valid. Leap second days may have 60 seconds.
pub fn is_gregorian_valid(
    year: i32,
    month: u8,
    day: u8,
    hour: u8,
    minute: u8,
    second: u8,
    nanos: u32,
) -> (r: bool)
    ensures
        r == gregorian_valid(
            year as int,
            month as int,
            day as int,
            hour as int,
            minute as int,
            second as int,
            nanos as int,
        ),
{
    let max_seconds: u8 = if (month == 12 || month == 6) && day == usual_days_per_month(month)
        && hour == 23 && minute == 59 && ((month == 6 && july_years(year)) || (month == 12
        && year < i32::MAX && january_years(year + 1))) {
        60
    } else {
        59
    };
    // General incorrect date times
    if month == 0 || month > 12 || day == 0 || hour > 23 || minute > 59 || second > max_seconds
        || nanos >= NANOSECONDS_PER_SECOND_U32 {
        return false;
    }
    // The 29th of February exists in leap years only.
    let days_in_month: u8 = if month == 2 && is_leap_year(year) {
        29
    } else {
        usual_days_per_month(month)
    };
    day <= days_in_month
}

} // verus!
