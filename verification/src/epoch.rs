use vstd::prelude::*;

use crate::consts::{DAYS_PER_YEAR_NLD, HIFITIME_REF_YEAR};
use crate::duration::{abs_int, add_value, ceil_value, clamp_ns, floor_value, round_value, trunc_div, lemma_add_small, lemma_of_ns_wf, lemma_sub_small, max_ns, min_ns, npc, sub_value, Duration};
use crate::errors::{DurationError, HifitimeError};
use crate::gregorian::{
    cumulative_days_for_month, days_before_month, gregorian_valid, is_gregorian_valid, is_leap,
    is_leap_year, leaps_since_ref, lemma_days_before_month_bound, lemma_days_before_month_mono,
    lemma_leaps_step, lemma_year_and_day_inverse,
    lemma_year_days, lemma_year_start_step, month_days,
    year_and_day_of, year_length, year_start_days,
};
use crate::timescale::{gregorian_offset_seconds, TimeScale};
use crate::unit::Unit;
use crate::weekday::{month_number, MonthName};

verus! {

/// Nanoseconds per day.
pub open spec fn npd() -> int {
    86_400_000_000_000
}

/// Nanoseconds from 1900-01-01T00:00:00 to the first day of the year.
pub open spec fn year_start_ns(year: int) -> int {
    (365 * (year - 1900) + leaps_since_ref(year)) * npd()
}

/// Nanoseconds from the first day of the year to the given date and time.
pub open spec fn within_year_ns(
    year: int,
    month: int,
    day: int,
    hour: int,
    minute: int,
    second: int,
    nanos: int,
) -> int {
    (days_before_month(is_leap(year), month) + day - 1) * npd() + hour * 3_600_000_000_000 + minute
        * 60_000_000_000 + second * 1_000_000_000 + nanos
}

/// Nanoseconds from 1900-01-01T00:00:00 to the given date and time, as accumulated by
/// `maybe_from_gregorian` before the leap second and time scale corrections: the accumulation
/// saturates to the largest duration after 1900 and to the smallest duration at the start of
/// years before 1900.
pub open spec fn gregorian_accumulated_ns(
    year: int,
    month: int,
    day: int,
    hour: int,
    minute: int,
    second: int,
    nanos: int,
) -> int {
    let ys = year_start_ns(year);
    let wy = within_year_ns(year, month, day, hour, minute, second, nanos);
    if year >= 1900 {
        if ys + wy >= max_ns() {
            max_ns()
        } else {
            ys + wy
        }
    } else {
        (if ys < min_ns() {
            min_ns()
        } else {
            ys
        }) + wy
    }
}

/// Duration, in the given time scale, of the given Gregorian date and time: a 60th second
/// counts as the 59th, and the Gregorian date of the time scale's reference is removed.
pub open spec fn gregorian_ns(
    year: int,
    month: int,
    day: int,
    hour: int,
    minute: int,
    second: int,
    nanos: int,
    ts: TimeScale,
) -> int {
    clamp_ns(
        gregorian_accumulated_ns(year, month, day, hour, minute, second, nanos) - (if second == 60 {
            1_000_000_000int
        } else {
            0int
        }) - gregorian_offset_seconds(ts) * 1_000_000_000,
    )
}

/// Whether the number of days of the whole years since 1900 fits a 32 bit integer.
pub open spec fn year_days_fit(year: int) -> bool {
    i32::MIN <= year - 1900 && i32::MIN <= (year - 1900) * 365 <= i32::MAX
}


/// A value saturated to the range of an unsigned integer of the given maximum.
pub open spec fn saturate(x: int, hi: int) -> int {
    if x < 0 {
        0
    } else if x > hi {
        hi
    } else {
        x
    }
}

/// The last month, from `month` on, whose first day of year is at most `x`.
pub open spec fn month_search(leap: bool, x: int, month: int) -> int
    decreases 12 - month,
{
    if month < 12 && days_before_month(leap, month + 1) <= x {
        month_search(leap, x, month + 1)
    } else {
        month
    }
}

/// The month found by the search is the month of the day: it starts at or before the day, and
/// the next month (if any) starts after it.
pub proof fn lemma_month_search(leap: bool, x: int, month: int)
    requires
        1 <= month <= 12,
        days_before_month(leap, month) <= x,
    ensures
        1 <= month_search(leap, x, month) <= 12,
        days_before_month(leap, month_search(leap, x, month)) <= x,
        month_search(leap, x, month) < 12 ==> x < days_before_month(
            leap,
            month_search(leap, x, month) + 1,
        ),
    decreases 12 - month,
{
    if month < 12 && days_before_month(leap, month + 1) <= x {
        lemma_month_search(leap, x, month + 1);
    }
}

/// The month of a zero indexed day of year (days of year past the end of the year are in December).
pub open spec fn month_of(leap: bool, day_of_year: int) -> int {
    month_search(leap, saturate(day_of_year, 65535), 1)
}

/// The Gregorian date and time (year, month, day, hour, minute, second, nanoseconds) that
/// `compute_gregorian` gives of a duration in a time scale: the duration since 1900-01-01 is
/// cut in days and time of day, the days in a year and day of year, and the day of year in a
/// month and a day.
pub open spec fn gregorian_parts(duration: Duration, ts: TimeScale) -> (int, int, int, int, int, int, int) {
    let v = add_value(duration, Duration::of_ns(gregorian_offset_seconds(ts) * 1_000_000_000));
    let (year, doy) = year_and_day_of(v / npd());
    let month = month_of(is_leap(year), doy);
    let t = v % npd();
    (
        year,
        month,
        saturate(doy - days_before_month(is_leap(year), month) + 1, 255),
        t / 3_600_000_000_000,
        t % 3_600_000_000_000 / 60_000_000_000,
        t % 60_000_000_000 / 1_000_000_000,
        t % 1_000_000_000,
    )
}


/// The month of the day of year of a day in a month is that month.
pub proof fn lemma_month_of(leap: bool, month: int, day: int)
    requires
        1 <= month <= 12,
        1 <= day <= month_days(month) + (if leap && month == 2 {
            1int
        } else {
            0int
        }),
    ensures
        month_of(leap, days_before_month(leap, month) + day - 1) == month,
{
    let x = days_before_month(leap, month) + day - 1;
    lemma_days_before_month_bound(leap, month);
    lemma_days_before_month_mono(leap, 1, month);
    lemma_days_before_month_mono(leap, month, 13);
    lemma_year_days(leap);
    assert(saturate(x, 65535) == x);
    lemma_month_search(leap, x, 1);
    let m = month_search(leap, x, 1);
    if m < month {
        lemma_days_before_month_mono(leap, m + 1, month);
    }
    if m > month {
        lemma_days_before_month_mono(leap, month + 1, m);
    }
}

/// Building the epoch of a Gregorian date and time, then computing the Gregorian date and
/// time of that epoch, gives the same date and time back, in every time scale, for every
/// valid date and time whose epoch is within the durations. Left out: a 60th second, which
/// shares its instant with the 59th, and the dates of the first, partial year of the
/// durations, whose first of January is before the smallest duration: their year is built
/// from a saturated first of January (e.g. -3274968-12-31, whose year starts before the
/// smallest duration, which falls on day 261 of that year).
pub proof fn law_gregorian_round_trip(
    year: i32,
    month: u8,
    day: u8,
    hour: u8,
    minute: u8,
    second: u8,
    nanos: u32,
    ts: TimeScale,
)
    requires
        gregorian_valid(
            year as int,
            month as int,
            day as int,
            hour as int,
            minute as int,
            second as int,
            nanos as int,
        ),
        second < 60,
        min_ns() <= year_start_ns(year as int),
        min_ns() <= year_start_ns(year as int) + within_year_ns(
            year as int,
            month as int,
            day as int,
            hour as int,
            minute as int,
            second as int,
            nanos as int,
        ) - gregorian_offset_seconds(ts) * 1_000_000_000,
        year_start_ns(year as int) + within_year_ns(
            year as int,
            month as int,
            day as int,
            hour as int,
            minute as int,
            second as int,
            nanos as int,
        ) <= max_ns(),
    ensures
        gregorian_parts(
            Duration::of_ns(
                gregorian_ns(
                    year as int,
                    month as int,
                    day as int,
                    hour as int,
                    minute as int,
                    second as int,
                    nanos as int,
                    ts,
                ),
            ),
            ts,
        ) == (
            year as int,
            month as int,
            day as int,
            hour as int,
            minute as int,
            second as int,
            nanos as int,
        ),
{
    let y = year as int;
    let leap = is_leap(y);
    let dbm = days_before_month(leap, month as int);
    let d = dbm + day - 1;
    lemma_days_before_month_bound(leap, month as int);
    lemma_days_before_month_mono(leap, month as int + 1, 13);
    lemma_year_days(leap);
    lemma_year_start_step(y);
    assert(0 <= d < year_length(y));
    let days = year_start_days(y) + d;
    let tod = hour * 3_600_000_000_000 + minute * 60_000_000_000 + second * 1_000_000_000
        + nanos;
    assert(0 <= tod < npd());
    let acc = days * npd() + tod;
    assert(year_start_ns(y) == year_start_days(y) * npd());
    assert(year_start_ns(y + 1) == year_start_days(y + 1) * npd());
    assert(year_start_ns(y) + within_year_ns(
        y,
        month as int,
        day as int,
        hour as int,
        minute as int,
        second as int,
        nanos as int,
    ) == acc) by {
        vstd::arithmetic::mul::lemma_mul_is_distributive_add_other_way(npd(), year_start_days(y), d);
    }
    assert(acc < year_start_ns(y + 1)) by {
        vstd::arithmetic::mul::lemma_mul_is_distributive_add_other_way(npd(), year_start_days(y), year_length(y));
        vstd::arithmetic::mul::lemma_mul_inequality(d + 1, year_length(y), npd());
    }
    assert(acc >= year_start_ns(y)) by {
        vstd::arithmetic::mul::lemma_mul_is_distributive_add_other_way(npd(), year_start_days(y), d);
        vstd::arithmetic::mul::lemma_mul_nonnegative(d, npd());
    }
    let off = gregorian_offset_seconds(ts) * 1_000_000_000;
    assert(0 <= off < 2 * npc());
    let g = acc - off;
    assert(gregorian_accumulated_ns(
        y,
        month as int,
        day as int,
        hour as int,
        minute as int,
        second as int,
        nanos as int,
    ) == acc);
    assert(gregorian_ns(
        y,
        month as int,
        day as int,
        hour as int,
        minute as int,
        second as int,
        nanos as int,
        ts,
    ) == g);
    Duration::lemma_of_ns(g);
    let a = Duration::of_ns(g);
    crate::duration::lemma_shift(a, off);
    assert(add_value(a, Duration::of_ns(off)) == acc);
    vstd::arithmetic::div_mod::lemma_fundamental_div_mod_converse(acc, npd(), days, tod);
    lemma_year_and_day_inverse(y, d);
    lemma_month_of(leap, month as int, day as int);
    let rest_h = minute * 60_000_000_000 + second * 1_000_000_000 + nanos;
    vstd::arithmetic::div_mod::lemma_fundamental_div_mod_converse(
        tod,
        3_600_000_000_000,
        hour as int,
        rest_h,
    );
    let rest_m = second * 1_000_000_000 + nanos;
    vstd::arithmetic::div_mod::lemma_fundamental_div_mod_converse(
        rest_h,
        60_000_000_000,
        minute as int,
        rest_m,
    );
    vstd::arithmetic::div_mod::lemma_fundamental_div_mod_converse(
        tod,
        60_000_000_000,
        hour * 60 + minute,
        rest_m,
    );
    vstd::arithmetic::div_mod::lemma_fundamental_div_mod_converse(
        rest_m,
        1_000_000_000,
        second as int,
        nanos as int,
    );
    vstd::arithmetic::div_mod::lemma_fundamental_div_mod_converse(
        tod,
        1_000_000_000,
        hour * 3600 + minute * 60 + second,
        nanos as int,
    );
}

/// Defines a nanosecond-precision Epoch.
///
/// An Epoch is stored as the duration since the beginning of its time scale.
#[derive(Clone, Copy, Debug)]
pub struct Epoch {
    /// An Epoch is always stored as the duration since the beginning of its time scale
    pub duration: Duration,
    /// Time scale used during the initialization of this Epoch.
    pub time_scale: TimeScale,
}

/// The duration of the day, hour, minute, second and nanoseconds into a month.
fn time_in_month(day: u8, hour: u8, minute: u8, second: u8, nanos: u32) -> (d: Duration)
    requires
        1 <= day <= 31,
        hour <= 24,
        minute <= 59,
        second <= 60,
        nanos <= 1_000_000_000,
    ensures
        d.wf(),
        d@ == (day - 1) * npd() + hour * 3_600_000_000_000 + minute * 60_000_000_000 + second
            * 1_000_000_000 + nanos,
        0 <= d@ < 32 * npd(),
{
    let a = Unit::Day * ((day - 1) as i64);
    let b = Unit::Hour * (hour as i64);
    let c = Unit::Minute * (minute as i64);
    let s = Unit::Second * (second as i64);
    let n = Unit::Nanosecond * (nanos as i64);
    proof {
        lemma_add_small(a, b);
    }
    let ab = a + b;
    proof {
        lemma_add_small(ab, c);
    }
    let abc = ab + c;
    proof {
        lemma_add_small(abc, s);
    }
    let abcs = abc + s;
    proof {
        lemma_add_small(abcs, n);
    }
    abcs + n
}

/// Year and zero indexed day of year of a number of days since 1900-01-01, for the days that
/// durations reach.
fn year_and_day_of_durations(days: i64) -> (r: (i32, i64))
    requires
        -1_196_851_200 <= days <= 1_196_851_200,
    ensures
        (r.0 as int, r.1 as int) == year_and_day_of(days as int),
        0 <= r.1 < 366,
{
    let (year, doy) = crate::gregorian::year_and_day_of_days(days);
    proof {
        vstd::arithmetic::div_mod::lemma_div_is_ordered(-1_196_888_090, days - 36890, 146097);
        vstd::arithmetic::div_mod::lemma_div_is_ordered(days - 36890, 1_196_814_310, 146097);
    }
    (year as i32, doy)
}

/// Month and one indexed day of a zero indexed day of year.
pub(crate) fn month_and_day(year: i32, days_in_year: i64) -> (r: (u8, u8))
    requires
        -4_000_000 <= days_in_year <= 4_000_000,
    ensures
        r.0 == month_of(is_leap(year as int), days_in_year as int),
        r.1 == saturate(
            days_in_year - days_before_month(is_leap(year as int), r.0 as int) + 1,
            255,
        ),
{
    let leap = is_leap_year(year);
    let cumul_days = cumulative_days_for_month(leap);
    let search: u16 = if days_in_year < 0 {
        0
    } else if days_in_year > 65535 {
        65535
    } else {
        days_in_year as u16
    };
    // The month is the last month whose first day of year is at most the day of year.
    let mut month: usize = 1;
    while month < 12 && cumul_days[month] <= search
        invariant
            1 <= month <= 12,
            forall|i: int| 0 <= i < 12 ==> cumul_days[i] == days_before_month(leap, i + 1),
            month_search(leap, search as int, month as int) == month_search(
                leap,
                search as int,
                1,
            ),
        decreases 12 - month,
    {
        month = month + 1;
    }
    proof {
        lemma_days_before_month_bound(leap, month as int);
    }
    // Directly compute the day from the computed month, and ensure that day counter is one indexed.
    let day_value: i64 = days_in_year - (cumul_days[month - 1] as i64) + 1;
    let day: u8 = if day_value < 0 {
        0
    } else if day_value > 255 {
        255
    } else {
        day_value as u8
    };
    (month as u8, day)
}

impl Epoch {
    /// Whether the duration of this epoch is well formed.
    pub open spec fn wf(self) -> bool {
        self.duration.wf()
    }

    #[must_use]
    /// Creates an epoch from given duration expressed in given timescale, i.e. since the given
    /// time scale's reference epoch.
    pub fn from_duration(duration: Duration, ts: TimeScale) -> (e: Self)
        ensures
            e.duration == duration,
            e.time_scale == ts,
    {
        Self { duration, time_scale: ts }
    }

    #[must_use]
    /// Creates a new Epoch from a Duration as the time difference between this epoch and TAI
    /// reference epoch.
    pub fn from_tai_duration(duration: Duration) -> (e: Self)
        ensures
            e.duration == duration,
            e.time_scale == TimeScale::TAI,
    {
        Self { duration, time_scale: TimeScale::TAI }
    }


    /// Computes the Gregorian date and time (year, month, day, hour, minute, second,
    /// nanoseconds) of a duration in a time scale.
    pub fn compute_gregorian(duration: Duration, time_scale: TimeScale) -> (r: (
        i32,
        u8,
        u8,
        u8,
        u8,
        u8,
        u32,
    ))
        requires
            duration.wf(),
        ensures
            (r.0 as int, r.1 as int, r.2 as int, r.3 as int, r.4 as int, r.5 as int, r.6 as int)
                == gregorian_parts(duration, time_scale),
    {
        let offset = time_scale.gregorian_epoch_offset();
        proof {
            crate::duration::lemma_of_ns_wf(offset);
        }
        let duration_wrt_ref = duration + offset;
        proof {
            duration_wrt_ref.lemma_range();
        }
        let total: i128 = duration_wrt_ref.total_nanoseconds();
        let per_day: i128 = 86_400_000_000_000;
        let days_i128: i128 = match total.checked_div_euclid(per_day) {
            Some(d) => d,
            None => 0,
        };
        let time_i128: i128 = match total.checked_rem_euclid(per_day) {
            Some(t) => t,
            None => 0,
        };
        proof {
            vstd::arithmetic::div_mod::lemma_div_is_ordered(min_ns(), total as int, npd());
            vstd::arithmetic::div_mod::lemma_div_is_ordered(total as int, max_ns(), npd());
            assert(min_ns() / npd() == -1_196_851_200);
            assert(max_ns() / npd() == 1_196_851_200);
        }
        let days: i64 = days_i128 as i64;
        let time: u64 = time_i128 as u64;
        let (year, days_in_year) = year_and_day_of_durations(days);
        let (month, day) = month_and_day(year, days_in_year);
        let hours: u64 = time / 3_600_000_000_000;
        let minutes: u64 = time % 3_600_000_000_000 / 60_000_000_000;
        let seconds: u64 = time % 60_000_000_000 / 1_000_000_000;
        let nanos: u64 = time % 1_000_000_000;
        (year, month, day, hours as u8, minutes as u8, seconds as u8, nanos as u32)
    }

    /// Attempts to build an Epoch from the provided Gregorian date and time in the provided time
    /// scale.
    ///
    /// Note:
    /// The month is ONE indexed, i.e. January is month 1 and December is month 12.
    #[allow(clippy::too_many_arguments)]
    #[verifier::rlimit(60)]
    #[verifier::spinoff_prover]
    pub fn maybe_from_gregorian(
        year: i32,
        month: u8,
        day: u8,
        hour: u8,
        minute: u8,
        second: u8,
        nanos: u32,
        time_scale: TimeScale,
    ) -> (r: Result<Self, HifitimeError>)
        ensures
            !gregorian_valid(
                year as int,
                month as int,
                day as int,
                hour as int,
                minute as int,
                second as int,
                nanos as int,
            ) ==> r == Err::<Self, HifitimeError>(HifitimeError::InvalidGregorianDate),
            gregorian_valid(
                year as int,
                month as int,
                day as int,
                hour as int,
                minute as int,
                second as int,
                nanos as int,
            ) && year - 1900 < i32::MIN ==> r == Err::<Self, HifitimeError>(
                HifitimeError::Duration { source: DurationError::Underflow },
            ),
            gregorian_valid(
                year as int,
                month as int,
                day as int,
                hour as int,
                minute as int,
                second as int,
                nanos as int,
            ) && year - 1900 >= i32::MIN && !year_days_fit(year as int) ==> r == Err::<
                Self,
                HifitimeError,
            >(HifitimeError::Duration { source: DurationError::Overflow }),
            gregorian_valid(
                year as int,
                month as int,
                day as int,
                hour as int,
                minute as int,
                second as int,
                nanos as int,
            ) && year_days_fit(year as int) ==> r is Ok && r->Ok_0.time_scale == time_scale
                && r->Ok_0.wf() && r->Ok_0.duration@ == gregorian_ns(
                year as int,
                month as int,
                day as int,
                hour as int,
                minute as int,
                second as int,
                nanos as int,
                time_scale,
            ),
    {
        if !is_gregorian_valid(year, month, day, hour, minute, second, nanos) {
            return Err(HifitimeError::InvalidGregorianDate);
        }
        let mut duration_wrt_ref = match year.checked_sub(HIFITIME_REF_YEAR) {
            None => { return Err(HifitimeError::Duration { source: DurationError::Underflow }) },
            Some(years_since_ref) => match years_since_ref.checked_mul(DAYS_PER_YEAR_NLD) {
                None => { return Err(HifitimeError::Duration { source: DurationError::Overflow }) },
                Some(days) => {
                    // Initialize the duration as the number of days since the reference year (may be negative).
                    Unit::Day * (days as i64)
                },
            },
        };
        let ghost base: int = 365 * (year - 1900) * npd();
        proof {
            Duration::lemma_of_ns(npd());
            Duration::lemma_of_ns(1_000_000_000);
        }
        // Now add the leap days for all the years prior to the current year
        if year >= HIFITIME_REF_YEAR {
            let mut y: i32 = HIFITIME_REF_YEAR;
            while y < year
                invariant
                    HIFITIME_REF_YEAR <= y <= year,
                    duration_wrt_ref.wf(),
                    duration_wrt_ref@ == clamp_ns(base + leaps_since_ref(y as int) * npd()),
                    base >= 0,
                    leaps_since_ref(y as int) >= 0,
                    Duration::of_ns(npd()).wf(),
                    Duration::of_ns(npd())@ == npd(),
                decreases year - y,
            {
                proof {
                    lemma_leaps_step(y as int);
                }
                if is_leap_year(y) {
                    proof {
                        lemma_add_small(duration_wrt_ref, Duration::of_ns(npd()));
                    }
                    duration_wrt_ref = duration_wrt_ref + Unit::Day;
                }
                y = y + 1;
            }
        } else {
            let mut y: i32 = year;
            while y < HIFITIME_REF_YEAR
                invariant
                    year <= y <= HIFITIME_REF_YEAR,
                    duration_wrt_ref.wf(),
                    duration_wrt_ref@ == clamp_ns(
                        base - (leaps_since_ref(y as int) - leaps_since_ref(year as int)) * npd(),
                    ),
                    base <= 0,
                    leaps_since_ref(y as int) >= leaps_since_ref(year as int),
                    Duration::of_ns(npd()).wf(),
                    Duration::of_ns(npd())@ == npd(),
                decreases HIFITIME_REF_YEAR - y,
            {
                proof {
                    lemma_leaps_step(y as int);
                }
                if is_leap_year(y) {
                    proof {
                        lemma_sub_small(duration_wrt_ref, Duration::of_ns(npd()));
                    }
                    duration_wrt_ref = duration_wrt_ref - Unit::Day;
                }
                y = y + 1;
            }
        }
        // Add the days of the months prior to the current month, accounting for leap years.
        let cumul_days = cumulative_days_for_month(is_leap_year(year));
        proof {
            lemma_days_before_month_bound(is_leap(year as int), month as int);
        }
        let month_days = Unit::Day * (cumul_days[(month - 1) as usize] as i64);
        proof {
            lemma_add_small(duration_wrt_ref, month_days);
        }
        duration_wrt_ref = duration_wrt_ref + month_days;
        // Add the number of days based on the input day and time.
        let in_month = time_in_month(day, hour, minute, second, nanos);
        proof {
            lemma_add_small(duration_wrt_ref, in_month);
        }
        duration_wrt_ref = duration_wrt_ref + in_month;
        if second == 60 {
            // Two different UTC dates exist at the same number of second after J1900.0.
            proof {
                lemma_sub_small(duration_wrt_ref, Duration::of_ns(1_000_000_000));
            }
            duration_wrt_ref = duration_wrt_ref - Unit::Second;
        }
        // Account for this time scale's Gregorian offset.
        let offset = time_scale.gregorian_epoch_offset();
        proof {
            assert(0 <= gregorian_offset_seconds(time_scale) <= 3_345_062_400);
            lemma_sub_small(duration_wrt_ref, offset);
        }
        duration_wrt_ref = duration_wrt_ref - offset;
        Ok(Self { duration: duration_wrt_ref, time_scale })
    }
}


impl Epoch {
    #[must_use]
    /// Creates a new Epoch from its centuries and nanosecond since the TAI reference epoch.
    pub fn from_tai_parts(centuries: i16, nanoseconds: u64) -> (e: Self)
        ensures
            e.wf(),
            e.time_scale == TimeScale::TAI,
            e.duration@ == if centuries * npc() + nanoseconds >= max_ns() {
                max_ns()
            } else {
                centuries * npc() + nanoseconds
            },
    {
        Self::from_tai_duration(Duration::from_parts(centuries, nanoseconds))
    }

    #[must_use]
    /// Initialize an Epoch from the provided UTC duration since 1900 January 01 at midnight
    pub fn from_utc_duration(duration: Duration) -> (e: Self)
        ensures
            e.duration == duration,
            e.time_scale == TimeScale::UTC,
    {
        Self::from_duration(duration, TimeScale::UTC)
    }

    #[must_use]
    /// Initialize an Epoch from the provided duration since 1980 January 6 at midnight
    pub fn from_gpst_duration(duration: Duration) -> (e: Self)
        ensures
            e.duration == duration,
            e.time_scale == TimeScale::GPST,
    {
        Self::from_duration(duration, TimeScale::GPST)
    }

    #[must_use]
    /// Initialize an Epoch from the provided duration since 1980 January 6 at midnight
    pub fn from_qzsst_duration(duration: Duration) -> (e: Self)
        ensures
            e.duration == duration,
            e.time_scale == TimeScale::QZSST,
    {
        Self::from_duration(duration, TimeScale::QZSST)
    }

    #[must_use]
    /// Initialize an Epoch from the provided duration since August 21st 1999 midnight
    pub fn from_gst_duration(duration: Duration) -> (e: Self)
        ensures
            e.duration == duration,
            e.time_scale == TimeScale::GST,
    {
        Self::from_duration(duration, TimeScale::GST)
    }

    #[must_use]
    /// Initialize an Epoch from the provided duration since January 1st midnight
    pub fn from_bdt_duration(duration: Duration) -> (e: Self)
        ensures
            e.duration == duration,
            e.time_scale == TimeScale::BDT,
    {
        Self::from_duration(duration, TimeScale::BDT)
    }

    #[must_use]
    /// Initialize an Epoch from the provided TT duration since 1900 January 01 at midnight
    pub fn from_tt_duration(duration: Duration) -> (e: Self)
        ensures
            e.duration == duration,
            e.time_scale == TimeScale::TT,
    {
        Self::from_duration(duration, TimeScale::TT)
    }

    #[must_use]
    /// Initialize Epoch from the Ephemeris Time duration past 2000 JAN 01 (J2000 reference)
    pub fn from_et_duration(duration_since_j2000: Duration) -> (e: Self)
        ensures
            e.duration == duration_since_j2000,
            e.time_scale == TimeScale::ET,
    {
        Self::from_duration(duration_since_j2000, TimeScale::ET)
    }

    #[must_use]
    /// Initialize from Dynamic Barycentric Time (TDB) (same as SPICE ephemeris time) whose epoch
    /// is 2000 JAN 01 noon TAI.
    pub fn from_tdb_duration(duration_since_j2000: Duration) -> (e: Self)
        ensures
            e.duration == duration_since_j2000,
            e.time_scale == TimeScale::TDB,
    {
        Self::from_duration(duration_since_j2000, TimeScale::TDB)
    }

    #[must_use]
    /// Makes a copy of self and sets the duration, keeping the time scale of this epoch.
    pub fn set(&self, new_duration: Duration) -> (e: Self)
        ensures
            e.duration == new_duration,
            e.time_scale == self.time_scale,
    {
        Self::from_duration(new_duration, self.time_scale)
    }

    #[must_use]
    /// Initialize an Epoch from the number of nanoseconds since the GPS Time Epoch.
    pub fn from_gpst_nanoseconds(nanoseconds: u64) -> (e: Self)
        ensures
            e.wf(),
            e.duration@ == nanoseconds,
            e.time_scale == TimeScale::GPST,
    {
        Self::from_duration(Duration::from_parts(0, nanoseconds), TimeScale::GPST)
    }

    #[must_use]
    /// Initialize an Epoch from the number of nanoseconds since the QZSS Time Epoch.
    pub fn from_qzsst_nanoseconds(nanoseconds: u64) -> (e: Self)
        ensures
            e.wf(),
            e.duration@ == nanoseconds,
            e.time_scale == TimeScale::QZSST,
    {
        Self::from_duration(Duration::from_parts(0, nanoseconds), TimeScale::QZSST)
    }

    #[must_use]
    /// Initialize an Epoch from the number of nanoseconds since the GST Time Epoch.
    pub fn from_gst_nanoseconds(nanoseconds: u64) -> (e: Self)
        ensures
            e.wf(),
            e.duration@ == nanoseconds,
            e.time_scale == TimeScale::GST,
    {
        Self::from_duration(Duration::from_parts(0, nanoseconds), TimeScale::GST)
    }

    #[must_use]
    /// Initialize an Epoch from the number of nanoseconds since the BDT Time Epoch.
    pub fn from_bdt_nanoseconds(nanoseconds: u64) -> (e: Self)
        ensures
            e.wf(),
            e.duration@ == nanoseconds,
            e.time_scale == TimeScale::BDT,
    {
        Self::from_duration(Duration::from_parts(0, nanoseconds), TimeScale::BDT)
    }

    #[must_use]
    /// Builds an Epoch from given `week`: elapsed weeks counter into the desired Time scale, and
    /// the amount of nanoseconds within that week.
    pub fn from_time_of_week(week: u32, nanoseconds: u64, time_scale: TimeScale) -> (e: Self)
        ensures
            e.wf(),
            e.time_scale == time_scale,
            e.duration@ == clamp_ns(nanoseconds + week * 7 * npd()),
    {
        let mut nanos: i128 = nanoseconds as i128;
        nanos = nanos + (week as i128) * 7 * 86_400_000_000_000;
        let duration = Duration::from_total_nanoseconds(nanos);
        Self::from_duration(duration, time_scale)
    }

    #[must_use]
    /// Builds a UTC Epoch from given `week`: elapsed weeks counter and "ns" amount of
    /// nanoseconds since closest Sunday Midnight.
    pub fn from_time_of_week_utc(week: u32, nanoseconds: u64) -> (e: Self)
        ensures
            e.wf(),
            e.time_scale == TimeScale::UTC,
            e.duration@ == clamp_ns(nanoseconds + week * 7 * npd()),
    {
        Self::from_time_of_week(week, nanoseconds, TimeScale::UTC)
    }

    /// Returns this epoch's duration since the reference of its time scale.
    pub fn to_duration(&self) -> (d: Duration)
        ensures
            d == self.duration,
    {
        self.duration
    }

    /// Returns the centuries and nanoseconds of this epoch's duration.
    pub fn to_parts(&self) -> (r: (i16, u64))
        ensures
            r == (self.duration.spec_centuries(), self.duration.spec_nanoseconds()),
    {
        self.duration.to_parts()
    }
}

impl core::ops::Add<Duration> for Epoch {
    type Output = Epoch;

    fn add(self, duration: Duration) -> (e: Epoch)
        ensures
            e.wf(),
            e.time_scale == self.time_scale,
            e.duration@ == add_value(self.duration, duration),
    {
        Epoch { duration: self.duration + duration, time_scale: self.time_scale }
    }
}

impl vstd::std_specs::ops::AddSpecImpl<Duration> for Epoch {
    open spec fn obeys_add_spec() -> bool {
        false
    }

    open spec fn add_req(self, rhs: Duration) -> bool {
        self.wf() && rhs.wf()
    }

    open spec fn add_spec(self, rhs: Duration) -> Epoch {
        Epoch {
            duration: Duration::of_ns(add_value(self.duration, rhs)),
            time_scale: self.time_scale,
        }
    }
}

impl core::ops::Sub<Duration> for Epoch {
    type Output = Epoch;

    fn sub(self, duration: Duration) -> (e: Epoch)
        ensures
            e.wf(),
            e.time_scale == self.time_scale,
            e.duration@ == sub_value(self.duration, duration),
    {
        Epoch { duration: self.duration - duration, time_scale: self.time_scale }
    }
}

impl vstd::std_specs::ops::SubSpecImpl<Duration> for Epoch {
    open spec fn obeys_sub_spec() -> bool {
        false
    }

    open spec fn sub_req(self, rhs: Duration) -> bool {
        self.wf() && rhs.wf()
    }

    open spec fn sub_spec(self, rhs: Duration) -> Epoch {
        Epoch {
            duration: Duration::of_ns(sub_value(self.duration, rhs)),
            time_scale: self.time_scale,
        }
    }
}

impl core::ops::Add<Unit> for Epoch {
    type Output = Epoch;

    fn add(self, unit: Unit) -> (e: Epoch)
        ensures
            e.wf(),
            e.time_scale == self.time_scale,
            e.duration@ == add_value(self.duration, Duration::of_ns(unit.ns())),
    {
        let d = unit * 1;
        proof {
            lemma_of_ns_wf(d);
        }
        Epoch { duration: self.duration + d, time_scale: self.time_scale }
    }
}

impl vstd::std_specs::ops::AddSpecImpl<Unit> for Epoch {
    open spec fn obeys_add_spec() -> bool {
        false
    }

    open spec fn add_req(self, rhs: Unit) -> bool {
        self.wf()
    }

    open spec fn add_spec(self, rhs: Unit) -> Epoch {
        Epoch {
            duration: Duration::of_ns(add_value(self.duration, Duration::of_ns(rhs.ns()))),
            time_scale: self.time_scale,
        }
    }
}

impl core::ops::Sub<Unit> for Epoch {
    type Output = Epoch;

    fn sub(self, unit: Unit) -> (e: Epoch)
        ensures
            e.wf(),
            e.time_scale == self.time_scale,
            e.duration@ == sub_value(self.duration, Duration::of_ns(unit.ns())),
    {
        let d = unit * 1;
        proof {
            lemma_of_ns_wf(d);
        }
        Epoch { duration: self.duration - d, time_scale: self.time_scale }
    }
}

impl vstd::std_specs::ops::SubSpecImpl<Unit> for Epoch {
    open spec fn obeys_sub_spec() -> bool {
        false
    }

    open spec fn sub_req(self, rhs: Unit) -> bool {
        self.wf()
    }

    open spec fn sub_spec(self, rhs: Unit) -> Epoch {
        Epoch {
            duration: Duration::of_ns(sub_value(self.duration, Duration::of_ns(rhs.ns()))),
            time_scale: self.time_scale,
        }
    }
}


impl Epoch {
    /// The outcome of `maybe_from_gregorian` on a date, a time and a time scale.
    pub open spec fn gregorian_outcome(
        year: i32,
        month: u8,
        day: u8,
        hour: u8,
        minute: u8,
        second: u8,
        nanos: u32,
        time_scale: TimeScale,
    ) -> Result<Self, HifitimeError> {
        if !gregorian_valid(
            year as int,
            month as int,
            day as int,
            hour as int,
            minute as int,
            second as int,
            nanos as int,
        ) {
            Err(HifitimeError::InvalidGregorianDate)
        } else if year - 1900 < i32::MIN {
            Err(HifitimeError::Duration { source: DurationError::Underflow })
        } else if !year_days_fit(year as int) {
            Err(HifitimeError::Duration { source: DurationError::Overflow })
        } else {
            Ok(
                Epoch {
                    duration: Duration::of_ns(
                        gregorian_ns(
                            year as int,
                            month as int,
                            day as int,
                            hour as int,
                            minute as int,
                            second as int,
                            nanos as int,
                            time_scale,
                        ),
                    ),
                    time_scale,
                },
            )
        }
    }

    /// Attempts to build an Epoch from the provided Gregorian date and time in TAI.
    pub fn maybe_from_gregorian_tai(
        year: i32,
        month: u8,
        day: u8,
        hour: u8,
        minute: u8,
        second: u8,
        nanos: u32,
    ) -> (r: Result<Self, HifitimeError>)
        ensures
            r == Self::gregorian_outcome(year, month, day, hour, minute, second, nanos, TimeScale::TAI),
    {
        let r = Self::maybe_from_gregorian(
            year,
            month,
            day,
            hour,
            minute,
            second,
            nanos,
            TimeScale::TAI,
        );
        proof {
            if let Ok(e) = r {
                lemma_of_ns_wf(e.duration);
            }
        }
        r
    }

    /// Attempts to build an Epoch from the provided Gregorian date and time in UTC.
    pub fn maybe_from_gregorian_utc(
        year: i32,
        month: u8,
        day: u8,
        hour: u8,
        minute: u8,
        second: u8,
        nanos: u32,
    ) -> (r: Result<Self, HifitimeError>)
        ensures
            r == Self::gregorian_outcome(year, month, day, hour, minute, second, nanos, TimeScale::UTC),
    {
        let r = Self::maybe_from_gregorian(
            year,
            month,
            day,
            hour,
            minute,
            second,
            nanos,
            TimeScale::UTC,
        );
        proof {
            if let Ok(e) = r {
                lemma_of_ns_wf(e.duration);
            }
        }
        r
    }

    #[must_use]
    /// Builds an Epoch from the provided Gregorian date and time in TAI; the date must be valid.
    pub fn from_gregorian_tai(
        year: i32,
        month: u8,
        day: u8,
        hour: u8,
        minute: u8,
        second: u8,
        nanos: u32,
    ) -> (e: Self)
        requires
            gregorian_valid(year as int, month as int, day as int, hour as int, minute as int, second as int, nanos as int),
            year_days_fit(year as int),
        ensures
            e.wf(),
            e.time_scale == TimeScale::TAI,
            e.duration@ == gregorian_ns(year as int, month as int, day as int, hour as int, minute as int, second as int, nanos as int, TimeScale::TAI),
    {
        match Self::maybe_from_gregorian(year, month, day, hour, minute, second, nanos, TimeScale::TAI) {
            Ok(e) => e,
            Err(_) => Self::from_duration(Duration::zero(), TimeScale::TAI),
        }
    }

    #[must_use]
    /// Builds an Epoch from the provided Gregorian date at midnight in TAI; the date must be valid.
    pub fn from_gregorian_tai_at_midnight(
        year: i32,
        month: u8,
        day: u8,
    ) -> (e: Self)
        requires
            gregorian_valid(year as int, month as int, day as int, 0, 0, 0, 0),
            year_days_fit(year as int),
        ensures
            e.wf(),
            e.time_scale == TimeScale::TAI,
            e.duration@ == gregorian_ns(year as int, month as int, day as int, 0, 0, 0, 0, TimeScale::TAI),
    {
        match Self::maybe_from_gregorian(year, month, day, 0u8, 0u8, 0u8, 0u32, TimeScale::TAI) {
            Ok(e) => e,
            Err(_) => Self::from_duration(Duration::zero(), TimeScale::TAI),
        }
    }

    #[must_use]
    /// Builds an Epoch from the provided Gregorian date at noon in TAI; the date must be valid.
    pub fn from_gregorian_tai_at_noon(
        year: i32,
        month: u8,
        day: u8,
    ) -> (e: Self)
        requires
            gregorian_valid(year as int, month as int, day as int, 12, 0, 0, 0),
            year_days_fit(year as int),
        ensures
            e.wf(),
            e.time_scale == TimeScale::TAI,
            e.duration@ == gregorian_ns(year as int, month as int, day as int, 12, 0, 0, 0, TimeScale::TAI),
    {
        match Self::maybe_from_gregorian(year, month, day, 12u8, 0u8, 0u8, 0u32, TimeScale::TAI) {
            Ok(e) => e,
            Err(_) => Self::from_duration(Duration::zero(), TimeScale::TAI),
        }
    }

    #[must_use]
    /// Builds an Epoch from the provided Gregorian date and time without nanoseconds in TAI; the date must be valid.
    pub fn from_gregorian_tai_hms(
        year: i32,
        month: u8,
        day: u8,
        hour: u8,
        minute: u8,
        second: u8,
    ) -> (e: Self)
        requires
            gregorian_valid(year as int, month as int, day as int, hour as int, minute as int, second as int, 0),
            year_days_fit(year as int),
        ensures
            e.wf(),
            e.time_scale == TimeScale::TAI,
            e.duration@ == gregorian_ns(year as int, month as int, day as int, hour as int, minute as int, second as int, 0, TimeScale::TAI),
    {
        match Self::maybe_from_gregorian(year, month, day, hour, minute, second, 0u32, TimeScale::TAI) {
            Ok(e) => e,
            Err(_) => Self::from_duration(Duration::zero(), TimeScale::TAI),
        }
    }

    #[must_use]
    /// Builds an Epoch from the provided Gregorian date and time in UTC; the date must be valid.
    pub fn from_gregorian_utc(
        year: i32,
        month: u8,
        day: u8,
        hour: u8,
        minute: u8,
        second: u8,
        nanos: u32,
    ) -> (e: Self)
        requires
            gregorian_valid(year as int, month as int, day as int, hour as int, minute as int, second as int, nanos as int),
            year_days_fit(year as int),
        ensures
            e.wf(),
            e.time_scale == TimeScale::UTC,
            e.duration@ == gregorian_ns(year as int, month as int, day as int, hour as int, minute as int, second as int, nanos as int, TimeScale::UTC),
    {
        match Self::maybe_from_gregorian(year, month, day, hour, minute, second, nanos, TimeScale::UTC) {
            Ok(e) => e,
            Err(_) => Self::from_duration(Duration::zero(), TimeScale::UTC),
        }
    }

    #[must_use]
    /// Builds an Epoch from the provided Gregorian date at midnight in UTC; the date must be valid.
    pub fn from_gregorian_utc_at_midnight(
        year: i32,
        month: u8,
        day: u8,
    ) -> (e: Self)
        requires
            gregorian_valid(year as int, month as int, day as int, 0, 0, 0, 0),
            year_days_fit(year as int),
        ensures
            e.wf(),
            e.time_scale == TimeScale::UTC,
            e.duration@ == gregorian_ns(year as int, month as int, day as int, 0, 0, 0, 0, TimeScale::UTC),
    {
        match Self::maybe_from_gregorian(year, month, day, 0u8, 0u8, 0u8, 0u32, TimeScale::UTC) {
            Ok(e) => e,
            Err(_) => Self::from_duration(Duration::zero(), TimeScale::UTC),
        }
    }

    #[must_use]
    /// Builds an Epoch from the provided Gregorian date at noon in UTC; the date must be valid.
    pub fn from_gregorian_utc_at_noon(
        year: i32,
        month: u8,
        day: u8,
    ) -> (e: Self)
        requires
            gregorian_valid(year as int, month as int, day as int, 12, 0, 0, 0),
            year_days_fit(year as int),
        ensures
            e.wf(),
            e.time_scale == TimeScale::UTC,
            e.duration@ == gregorian_ns(year as int, month as int, day as int, 12, 0, 0, 0, TimeScale::UTC),
    {
        match Self::maybe_from_gregorian(year, month, day, 12u8, 0u8, 0u8, 0u32, TimeScale::UTC) {
            Ok(e) => e,
            Err(_) => Self::from_duration(Duration::zero(), TimeScale::UTC),
        }
    }

    #[must_use]
    /// Builds an Epoch from the provided Gregorian date and time without nanoseconds in UTC; the date must be valid.
    pub fn from_gregorian_utc_hms(
        year: i32,
        month: u8,
        day: u8,
        hour: u8,
        minute: u8,
        second: u8,
    ) -> (e: Self)
        requires
            gregorian_valid(year as int, month as int, day as int, hour as int, minute as int, second as int, 0),
            year_days_fit(year as int),
        ensures
            e.wf(),
            e.time_scale == TimeScale::UTC,
            e.duration@ == gregorian_ns(year as int, month as int, day as int, hour as int, minute as int, second as int, 0, TimeScale::UTC),
    {
        match Self::maybe_from_gregorian(year, month, day, hour, minute, second, 0u32, TimeScale::UTC) {
            Ok(e) => e,
            Err(_) => Self::from_duration(Duration::zero(), TimeScale::UTC),
        }
    }

    #[must_use]
    /// Builds an Epoch from the provided Gregorian date and time in the provided time scale; the date must be valid.
    pub fn from_gregorian(
        year: i32,
        month: u8,
        day: u8,
        hour: u8,
        minute: u8,
        second: u8,
        nanos: u32,
        time_scale: TimeScale,
    ) -> (e: Self)
        requires
            gregorian_valid(year as int, month as int, day as int, hour as int, minute as int, second as int, nanos as int),
            year_days_fit(year as int),
        ensures
            e.wf(),
            e.time_scale == time_scale,
            e.duration@ == gregorian_ns(year as int, month as int, day as int, hour as int, minute as int, second as int, nanos as int, time_scale),
    {
        match Self::maybe_from_gregorian(year, month, day, hour, minute, second, nanos, time_scale) {
            Ok(e) => e,
            Err(_) => Self::from_duration(Duration::zero(), time_scale),
        }
    }

    #[must_use]
    /// Builds an Epoch from the provided Gregorian date at midnight in the provided time scale; the date must be valid.
    pub fn from_gregorian_at_midnight(
        year: i32,
        month: u8,
        day: u8,
        time_scale: TimeScale,
    ) -> (e: Self)
        requires
            gregorian_valid(year as int, month as int, day as int, 0, 0, 0, 0),
            year_days_fit(year as int),
        ensures
            e.wf(),
            e.time_scale == time_scale,
            e.duration@ == gregorian_ns(year as int, month as int, day as int, 0, 0, 0, 0, time_scale),
    {
        match Self::maybe_from_gregorian(year, month, day, 0u8, 0u8, 0u8, 0u32, time_scale) {
            Ok(e) => e,
            Err(_) => Self::from_duration(Duration::zero(), time_scale),
        }
    }

    #[must_use]
    /// Builds an Epoch from the provided Gregorian date at noon in the provided time scale; the date must be valid.
    pub fn from_gregorian_at_noon(
        year: i32,
        month: u8,
        day: u8,
        time_scale: TimeScale,
    ) -> (e: Self)
        requires
            gregorian_valid(year as int, month as int, day as int, 12, 0, 0, 0),
            year_days_fit(year as int),
        ensures
            e.wf(),
            e.time_scale == time_scale,
            e.duration@ == gregorian_ns(year as int, month as int, day as int, 12, 0, 0, 0, time_scale),
    {
        match Self::maybe_from_gregorian(year, month, day, 12u8, 0u8, 0u8, 0u32, time_scale) {
            Ok(e) => e,
            Err(_) => Self::from_duration(Duration::zero(), time_scale),
        }
    }

    #[must_use]
    /// Builds an Epoch from the provided Gregorian date and time without nanoseconds in the provided time scale; the date must be valid.
    pub fn from_gregorian_hms(
        year: i32,
        month: u8,
        day: u8,
        hour: u8,
        minute: u8,
        second: u8,
        time_scale: TimeScale,
    ) -> (e: Self)
        requires
            gregorian_valid(year as int, month as int, day as int, hour as int, minute as int, second as int, 0),
            year_days_fit(year as int),
        ensures
            e.wf(),
            e.time_scale == time_scale,
            e.duration@ == gregorian_ns(year as int, month as int, day as int, hour as int, minute as int, second as int, 0, time_scale),
    {
        match Self::maybe_from_gregorian(year, month, day, hour, minute, second, 0u32, time_scale) {
            Ok(e) => e,
            Err(_) => Self::from_duration(Duration::zero(), time_scale),
        }
    }
}


impl Epoch {
    /// Returns the year of this epoch's Gregorian date, in the time scale it was initialized in.
    pub fn year(&self) -> (r: i32)
        requires
            self.wf(),
        ensures
            r == gregorian_parts(self.duration, self.time_scale).0,
    {
        Self::compute_gregorian(self.duration, self.time_scale).0
    }

    /// Returns the name of the month of this epoch's Gregorian date, in the time scale it was
    /// initialized in.
    pub fn month_name(&self) -> (r: MonthName)
        requires
            self.wf(),
        ensures
            month_number(r) == (if gregorian_parts(self.duration, self.time_scale).1 % 12 == 0 {
                12
            } else {
                gregorian_parts(self.duration, self.time_scale).1 % 12
            }),
    {
        let month = Self::compute_gregorian(self.duration, self.time_scale).1;
        MonthName::from_number(month)
    }

    /// Returns the hours of the decomposition of this epoch's duration.
    pub fn hours(&self) -> (r: u64)
        requires
            self.wf(),
        ensures
            r == abs_int(self.duration@) % 86_400_000_000_000 / 3_600_000_000_000,
    {
        self.duration.decompose().2
    }

    /// Returns the minutes of the decomposition of this epoch's duration.
    pub fn minutes(&self) -> (r: u64)
        requires
            self.wf(),
        ensures
            r == abs_int(self.duration@) % 3_600_000_000_000 / 60_000_000_000,
    {
        self.duration.decompose().3
    }

    /// Returns the seconds of the decomposition of this epoch's duration.
    pub fn seconds(&self) -> (r: u64)
        requires
            self.wf(),
        ensures
            r == abs_int(self.duration@) % 60_000_000_000 / 1_000_000_000,
    {
        self.duration.decompose().4
    }

    /// Returns the milliseconds of the decomposition of this epoch's duration.
    pub fn milliseconds(&self) -> (r: u64)
        requires
            self.wf(),
        ensures
            r == abs_int(self.duration@) % 1_000_000_000 / 1_000_000,
    {
        self.duration.decompose().5
    }

    /// Returns the microseconds of the decomposition of this epoch's duration.
    pub fn microseconds(&self) -> (r: u64)
        requires
            self.wf(),
        ensures
            r == abs_int(self.duration@) % 1_000_000 / 1_000,
    {
        self.duration.decompose().6
    }

    /// Returns the nanoseconds of the decomposition of this epoch's duration.
    pub fn nanoseconds(&self) -> (r: u64)
        requires
            self.wf(),
        ensures
            r == abs_int(self.duration@) % 1_000,
    {
        self.duration.decompose().7
    }

    /// Floors this epoch to the closest multiple of the duration, in its time scale.
    pub fn floor(&self, duration: Duration) -> (e: Self)
        requires
            self.wf(),
            duration.wf(),
        ensures
            e.wf(),
            e.time_scale == self.time_scale,
            e.duration@ == floor_value(self.duration@, duration@),
    {
        Self::from_duration(self.duration.floor(duration), self.time_scale)
    }

    /// Ceils this epoch to the closest multiple of the duration, in its time scale.
    pub fn ceil(&self, duration: Duration) -> (e: Self)
        requires
            self.wf(),
            duration.wf(),
        ensures
            e.wf(),
            e.time_scale == self.time_scale,
            e.duration@ == ceil_value(self.duration@, duration@),
    {
        Self::from_duration(self.duration.ceil(duration), self.time_scale)
    }

    /// Rounds this epoch to the closest multiple of the duration, in its time scale.
    pub fn round(&self, duration: Duration) -> (e: Self)
        requires
            self.wf(),
            duration.wf(),
        ensures
            e.wf(),
            e.time_scale == self.time_scale,
            e.duration@ == round_value(self.duration, duration@),
    {
        Self::from_duration(self.duration.round(duration), self.time_scale)
    }

    /// Converts this epoch into the number of weeks since the reference of its time scale and
    /// the nanoseconds elapsed in that week (truncated toward zero, then cast).
    pub fn to_time_of_week(&self) -> (r: (u32, u64))
        requires
            self.wf(),
        ensures
            r.0 == (trunc_div(self.duration@, 7 * npd()) as u32),
            r.1 == ((self.duration@ - trunc_div(self.duration@, 7 * npd()) * 7 * npd()) as u64),
    {
        let total_nanoseconds: i128 = self.duration.total_nanoseconds();
        let per_week: i128 = 604_800_000_000_000;
        proof {
            self.duration.lemma_range();
        }
        let weeks: i128 = match total_nanoseconds.checked_div(per_week) {
            Some(w) => w,
            None => 0,
        };
        proof {
            let a = abs_int(total_nanoseconds as int);
            vstd::arithmetic::div_mod::lemma_div_is_ordered_by_denominator(a, 1, 604_800_000_000_000);
        }
        // elapsed nanoseconds in current week:
        //   remove previously determined nb of weeks
        //   get residual nanoseconds
        let nanoseconds: i128 = total_nanoseconds - weeks * per_week;
        (weeks as u32, nanoseconds as u64)
    }
}

} // verus!
