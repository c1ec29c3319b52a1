use vstd::prelude::*;

use crate::duration::{add_value, lemma_shift, max_ns, min_ns, sub_value, Duration};
use crate::epoch::{
    gregorian_ns, gregorian_parts, lemma_month_search, month_of, npd, saturate, year_days_fit,
    year_start_ns, Epoch,
};
use crate::gregorian::{
    days_before_month, gregorian_valid, is_leap, lemma_days_before_month_bound,
    lemma_days_before_month_mono, lemma_leaps_nonneg, lemma_leaps_nonpos, lemma_year_and_day_total, lemma_year_days, lemma_year_start_step, month_days,
    year_and_day_of, year_start_days,
};
use crate::timescale::{gregorian_offset_seconds, TimeScale};

verus! {

/// The year of the Gregorian date of any duration is one that an epoch of its first of January
/// can hold, and it is 1900 or later exactly when the duration since 1900-01-01 in the
/// calendar of the time scale is not negative.
pub proof fn lemma_year_fits(d: Duration, ts: TimeScale)
    requires
        d.wf(),
    ensures
        year_days_fit(gregorian_parts(d, ts).0),
        i32::MIN <= gregorian_parts(d, ts).0 <= i32::MAX,
        (add_value(d, Duration::of_ns(gregorian_offset_seconds(ts) * 1_000_000_000)) >= 0) == (
        gregorian_parts(d, ts).0 >= 1900),
{
    let off = gregorian_offset_seconds(ts) * 1_000_000_000;
    d.lemma_range();
    lemma_shift(d, off);
    let v = add_value(d, Duration::of_ns(off));
    assert(min_ns() <= v <= max_ns());
    let n = v / npd();
    vstd::arithmetic::div_mod::lemma_fundamental_div_mod(v, npd());
    vstd::arithmetic::div_mod::lemma_mod_bound(v, npd());
    assert(-1_196_851_201 <= n <= 1_196_851_200) by {
        vstd::arithmetic::div_mod::lemma_div_is_ordered(v, max_ns(), npd());
        vstd::arithmetic::div_mod::lemma_div_is_ordered(min_ns(), v, npd());
    }
    lemma_year_and_day_total(n);
    let (y, doy) = year_and_day_of(n);
    assert(gregorian_parts(d, ts).0 == y);
    if y >= 1900 {
        lemma_leaps_nonneg(y);
        assert(n >= 0);
    } else {
        lemma_leaps_nonpos(y);
        lemma_leaps_nonpos(y + 1);
        lemma_year_start_step(y);
        assert(n < 0);
    }
}

/// Computing the Gregorian date and time of an epoch, then the epoch of that date and time,
/// gives the epoch back, in every time scale: for every duration whose first of January of
/// its year is representable (the date of a duration in the first, partial year of the
/// durations would be built from a saturated start of year), and that a time scale's
/// reference does not carry past the largest duration.
pub proof fn law_gregorian_parts_rebuild(d: Duration, ts: TimeScale)
    requires
        d.wf(),
        d@ + gregorian_offset_seconds(ts) * 1_000_000_000 < max_ns(),
        min_ns() <= year_start_ns(gregorian_parts(d, ts).0),
    ensures
        ({
            let p = gregorian_parts(d, ts);
            &&& gregorian_valid(p.0, p.1, p.2, p.3, p.4, p.5, p.6)
            &&& d@ + gregorian_offset_seconds(ts) * 1_000_000_000 >= 0 ==> p.0 >= 1900
            &&& 0 <= p.3 < 24 && 0 <= p.4 < 60 && 0 <= p.5 < 60 && 0 <= p.6 < 1_000_000_000
            &&& year_days_fit(p.0)
            &&& gregorian_ns(p.0, p.1, p.2, p.3, p.4, p.5, p.6, ts) == d@
            &&& Epoch::gregorian_outcome(
                p.0 as i32,
                p.1 as u8,
                p.2 as u8,
                p.3 as u8,
                p.4 as u8,
                p.5 as u8,
                p.6 as u32,
                ts,
            ) == Ok::<Epoch, crate::errors::HifitimeError>(Epoch { duration: d, time_scale: ts })
        }),
{
    let off = gregorian_offset_seconds(ts) * 1_000_000_000;
    d.lemma_range();
    lemma_shift(d, off);
    lemma_year_fits(d, ts);
    let v = add_value(d, Duration::of_ns(off));
    assert(v == d@ + off);
    let n = v / npd();
    let t = v % npd();
    vstd::arithmetic::div_mod::lemma_fundamental_div_mod(v, npd());
    vstd::arithmetic::div_mod::lemma_mod_bound(v, npd());
    lemma_year_and_day_total(n);
    let (y, doy) = year_and_day_of(n);
    let leap = is_leap(y);
    let p = gregorian_parts(d, ts);
    assert(p.0 == y);
    lemma_year_days(leap);
    assert(saturate(doy, 65535) == doy);
    lemma_month_search(leap, doy, 1);
    let m = month_of(leap, doy);
    assert(p.1 == m);
    lemma_days_before_month_bound(leap, m);
    lemma_days_before_month_mono(leap, 1, m);
    if m < 12 {
        lemma_days_before_month_mono(leap, m + 1, 13);
    }
    lemma_days_before_month_bound(leap, 12);
    reveal_with_fuel(days_before_month, 13);
    let day = doy - days_before_month(leap, m) + 1;
    assert(1 <= day <= month_days(m) + if leap && m == 2 {
        1int
    } else {
        0int
    });
    assert(p.2 == day);
    // The time of day.
    let h = t / 3_600_000_000_000;
    let mi = t % 3_600_000_000_000 / 60_000_000_000;
    let s = t % 60_000_000_000 / 1_000_000_000;
    let ns = t % 1_000_000_000;
    vstd::arithmetic::div_mod::lemma_fundamental_div_mod(t, 3_600_000_000_000);
    vstd::arithmetic::div_mod::lemma_mod_mod(t, 60_000_000_000, 60);
    vstd::arithmetic::div_mod::lemma_fundamental_div_mod(t % 3_600_000_000_000, 60_000_000_000);
    vstd::arithmetic::div_mod::lemma_mod_mod(t, 1_000_000_000, 60);
    vstd::arithmetic::div_mod::lemma_fundamental_div_mod(t % 60_000_000_000, 1_000_000_000);
    vstd::arithmetic::div_mod::lemma_mod_bound(t, 1_000_000_000);
    vstd::arithmetic::div_mod::lemma_mod_bound(t % 60_000_000_000, 1_000_000_000);
    vstd::arithmetic::div_mod::lemma_mod_bound(t % 3_600_000_000_000, 60_000_000_000);
    vstd::arithmetic::div_mod::lemma_mod_bound(t, 60_000_000_000);
    vstd::arithmetic::div_mod::lemma_mod_bound(t, 3_600_000_000_000);
    assert(h * 3_600_000_000_000 + mi * 60_000_000_000 + s * 1_000_000_000 + ns == t);
    assert(0 <= h < 24) by {
        vstd::arithmetic::div_mod::lemma_div_is_ordered(t, npd() - 1, 3_600_000_000_000);
    }
    assert(0 <= s < 60 && 0 <= mi < 60) by {
        vstd::arithmetic::div_mod::lemma_div_is_ordered(
            t % 60_000_000_000,
            59_999_999_999,
            1_000_000_000,
        );
        vstd::arithmetic::div_mod::lemma_div_is_ordered(
            t % 3_600_000_000_000,
            3_599_999_999_999,
            60_000_000_000,
        );
    }
    assert(p.3 == h && p.4 == mi && p.5 == s && p.6 == ns);
    // The date and time accumulate back to the duration since 1900-01-01.
    assert(n * npd() + t == v);
    assert(year_start_ns(y) + (days_before_month(leap, m) + day - 1) * npd() + t == v) by {
        assert(year_start_days(y) + days_before_month(leap, m) + day - 1 == n);
        vstd::arithmetic::mul::lemma_mul_is_distributive_add_other_way(
            npd(),
            year_start_days(y),
            days_before_month(leap, m) + day - 1,
        );
    }
    assert(gregorian_ns(y, m, day, h, mi, s, ns, ts) == d@);
    Duration::lemma_of_ns(d@);
    Duration::lemma_unique(d, Duration::of_ns(d@));
}

impl Epoch {
    /// Returns the duration since the start of the year of this epoch's Gregorian date, in
    /// the time scale it was initialized in.
    pub fn duration_in_year(&self) -> (d: Duration)
        requires
            self.wf(),
        ensures
            d.wf(),
            d@ == sub_value(
                self.duration,
                Duration::of_ns(
                    gregorian_ns(gregorian_parts(self.duration, self.time_scale).0, 1, 1, 0, 0, 0, 0, self.time_scale),
                ),
            ),
    {
        proof {
            lemma_year_fits(self.duration, self.time_scale);
        }
        let year = self.year();
        let start_of_year = Self::from_gregorian(year, 1, 1, 0, 0, 0, 0, self.time_scale);
        proof {
            start_of_year.duration.lemma_range();
            Duration::lemma_of_ns(start_of_year.duration@);
            Duration::lemma_unique(start_of_year.duration, Duration::of_ns(start_of_year.duration@));
        }
        self.duration - start_of_year.duration
    }
}

} // verus!
