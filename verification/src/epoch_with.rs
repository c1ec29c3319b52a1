use vstd::prelude::*;

use crate::duration::{abs_int, add_value, max_ns, sub_value, Duration};
use crate::epoch::{npd, Epoch};
use crate::parts::{capped, lemma_add_exact, parts_of_value, parts_sum, parts_value, DurationParts};
use crate::unit::Unit;
use crate::weekday::{weekday_named, weekday_of_index, Weekday};

verus! {

/// The index of a weekday, from 0 for Monday to 6 for Sunday.
pub open spec fn weekday_index(w: Weekday) -> int {
    match w {
        Weekday::Monday => 0,
        Weekday::Tuesday => 1,
        Weekday::Wednesday => 2,
        Weekday::Thursday => 3,
        Weekday::Friday => 4,
        Weekday::Saturday => 5,
        Weekday::Sunday => 6,
    }
}

/// The number of days from a weekday forward to another one, from 0 to 6.
pub open spec fn days_until(from: Weekday, to: Weekday) -> int {
    (weekday_index(to) - weekday_index(from) + 7) % 7
}

/// The English names of the days of the week, from Monday.
pub open spec fn day_names() -> Seq<Seq<char>> {
    seq![
        "Monday"@,
        "Tuesday"@,
        "Wednesday"@,
        "Thursday"@,
        "Friday"@,
        "Saturday"@,
        "Sunday"@,
    ]
}

/// Counting days from a Monday (`Weekday::from_days`): `u` days after a Monday is the weekday
/// of index `u` modulo 7 in the week Monday (0), Tuesday, Wednesday, Thursday, Friday,
/// Saturday (5), Sunday (6), the order in which weekdays are subtracted, so that it lies
/// `u` modulo 7 days after Monday, and one day more gives the next day of the week; it is the
/// weekday that bears the name of that rank among Monday to Sunday.
pub proof fn law_weekday_from_days(u: int)
    requires
        0 <= u,
    ensures
        weekday_index(weekday_of_index(u % 7)) == u % 7,
        days_until(Weekday::Monday, weekday_of_index(u % 7)) == u % 7,
        days_until(weekday_of_index(u % 7), weekday_of_index((u + 1) % 7)) == 1,
        weekday_named(day_names()[u % 7]) == Some(weekday_of_index(u % 7)),
{
    lemma_day_names();
}

/// Each of the English names of the days of the week names its day.
proof fn lemma_day_names()
    ensures
        forall|i: int|
            0 <= i < 7 ==> weekday_named(#[trigger] day_names()[i]) == Some(weekday_of_index(i)),
{
    reveal_strlit("Monday");
    reveal_strlit("monday");
    reveal_strlit("MONDAY");
    reveal_strlit("Mon");
    reveal_strlit("mon");
    reveal_strlit("MON");
    reveal_strlit("Tuesday");
    reveal_strlit("tuesday");
    reveal_strlit("TUESDAY");
    reveal_strlit("Tue");
    reveal_strlit("tue");
    reveal_strlit("TUE");
    reveal_strlit("Wednesday");
    reveal_strlit("wednesday");
    reveal_strlit("WEDNESDAY");
    reveal_strlit("Wed");
    reveal_strlit("wed");
    reveal_strlit("WED");
    reveal_strlit("Thursday");
    reveal_strlit("thursday");
    reveal_strlit("THURSDAY");
    reveal_strlit("Thu");
    reveal_strlit("thu");
    reveal_strlit("THU");
    reveal_strlit("Friday");
    reveal_strlit("friday");
    reveal_strlit("FRIDAY");
    reveal_strlit("Fri");
    reveal_strlit("fri");
    reveal_strlit("FRI");
    reveal_strlit("Saturday");
    reveal_strlit("saturday");
    reveal_strlit("SATURDAY");
    reveal_strlit("Sat");
    reveal_strlit("sat");
    reveal_strlit("SAT");
    reveal_strlit("Sunday");
    reveal_strlit("sunday");
    reveal_strlit("SUNDAY");
    reveal_strlit("Sun");
    reveal_strlit("sun");
    reveal_strlit("SUN");
    assert(weekday_named(day_names()[0]) == Some(weekday_of_index(0))) by {
        assert(day_names()[0] == "Monday"@);
    }
    assert(weekday_named(day_names()[1]) == Some(weekday_of_index(1))) by {
        assert(day_names()[1] == "Tuesday"@);
        assert("Tuesday"@.len() != "Monday"@.len());
        assert("Tuesday"@.len() != "monday"@.len());
        assert("Tuesday"@.len() != "MONDAY"@.len());
        assert("Tuesday"@.len() != "Mon"@.len());
        assert("Tuesday"@.len() != "mon"@.len());
        assert("Tuesday"@.len() != "MON"@.len());
    }
    assert(weekday_named(day_names()[2]) == Some(weekday_of_index(2))) by {
        assert(day_names()[2] == "Wednesday"@);
        assert("Wednesday"@.len() != "Monday"@.len());
        assert("Wednesday"@.len() != "monday"@.len());
        assert("Wednesday"@.len() != "MONDAY"@.len());
        assert("Wednesday"@.len() != "Mon"@.len());
        assert("Wednesday"@.len() != "mon"@.len());
        assert("Wednesday"@.len() != "MON"@.len());
        assert("Wednesday"@.len() != "Tuesday"@.len());
        assert("Wednesday"@.len() != "tuesday"@.len());
        assert("Wednesday"@.len() != "TUESDAY"@.len());
        assert("Wednesday"@.len() != "Tue"@.len());
        assert("Wednesday"@.len() != "tue"@.len());
        assert("Wednesday"@.len() != "TUE"@.len());
    }
    assert(weekday_named(day_names()[3]) == Some(weekday_of_index(3))) by {
        assert(day_names()[3] == "Thursday"@);
        assert("Thursday"@.len() != "Monday"@.len());
        assert("Thursday"@.len() != "monday"@.len());
        assert("Thursday"@.len() != "MONDAY"@.len());
        assert("Thursday"@.len() != "Mon"@.len());
        assert("Thursday"@.len() != "mon"@.len());
        assert("Thursday"@.len() != "MON"@.len());
        assert("Thursday"@.len() != "Tuesday"@.len());
        assert("Thursday"@.len() != "tuesday"@.len());
        assert("Thursday"@.len() != "TUESDAY"@.len());
        assert("Thursday"@.len() != "Tue"@.len());
        assert("Thursday"@.len() != "tue"@.len());
        assert("Thursday"@.len() != "TUE"@.len());
        assert("Thursday"@.len() != "Wednesday"@.len());
        assert("Thursday"@.len() != "wednesday"@.len());
        assert("Thursday"@.len() != "WEDNESDAY"@.len());
        assert("Thursday"@.len() != "Wed"@.len());
        assert("Thursday"@.len() != "wed"@.len());
        assert("Thursday"@.len() != "WED"@.len());
    }
    assert(weekday_named(day_names()[4]) == Some(weekday_of_index(4))) by {
        assert(day_names()[4] == "Friday"@);
        assert("Friday"@[0] != "Monday"@[0]);
        assert("Friday"@[0] != "monday"@[0]);
        assert("Friday"@[0] != "MONDAY"@[0]);
        assert("Friday"@.len() != "Mon"@.len());
        assert("Friday"@.len() != "mon"@.len());
        assert("Friday"@.len() != "MON"@.len());
        assert("Friday"@.len() != "Tuesday"@.len());
        assert("Friday"@.len() != "tuesday"@.len());
        assert("Friday"@.len() != "TUESDAY"@.len());
        assert("Friday"@.len() != "Tue"@.len());
        assert("Friday"@.len() != "tue"@.len());
        assert("Friday"@.len() != "TUE"@.len());
        assert("Friday"@.len() != "Wednesday"@.len());
        assert("Friday"@.len() != "wednesday"@.len());
        assert("Friday"@.len() != "WEDNESDAY"@.len());
        assert("Friday"@.len() != "Wed"@.len());
        assert("Friday"@.len() != "wed"@.len());
        assert("Friday"@.len() != "WED"@.len());
        assert("Friday"@.len() != "Thursday"@.len());
        assert("Friday"@.len() != "thursday"@.len());
        assert("Friday"@.len() != "THURSDAY"@.len());
        assert("Friday"@.len() != "Thu"@.len());
        assert("Friday"@.len() != "thu"@.len());
        assert("Friday"@.len() != "THU"@.len());
    }
    assert(weekday_named(day_names()[5]) == Some(weekday_of_index(5))) by {
        assert(day_names()[5] == "Saturday"@);
        assert("Saturday"@.len() != "Monday"@.len());
        assert("Saturday"@.len() != "monday"@.len());
        assert("Saturday"@.len() != "MONDAY"@.len());
        assert("Saturday"@.len() != "Mon"@.len());
        assert("Saturday"@.len() != "mon"@.len());
        assert("Saturday"@.len() != "MON"@.len());
        assert("Saturday"@.len() != "Tuesday"@.len());
        assert("Saturday"@.len() != "tuesday"@.len());
        assert("Saturday"@.len() != "TUESDAY"@.len());
        assert("Saturday"@.len() != "Tue"@.len());
        assert("Saturday"@.len() != "tue"@.len());
        assert("Saturday"@.len() != "TUE"@.len());
        assert("Saturday"@.len() != "Wednesday"@.len());
        assert("Saturday"@.len() != "wednesday"@.len());
        assert("Saturday"@.len() != "WEDNESDAY"@.len());
        assert("Saturday"@.len() != "Wed"@.len());
        assert("Saturday"@.len() != "wed"@.len());
        assert("Saturday"@.len() != "WED"@.len());
        assert("Saturday"@[0] != "Thursday"@[0]);
        assert("Saturday"@[0] != "thursday"@[0]);
        assert("Saturday"@[0] != "THURSDAY"@[0]);
        assert("Saturday"@.len() != "Thu"@.len());
        assert("Saturday"@.len() != "thu"@.len());
        assert("Saturday"@.len() != "THU"@.len());
        assert("Saturday"@.len() != "Friday"@.len());
        assert("Saturday"@.len() != "friday"@.len());
        assert("Saturday"@.len() != "FRIDAY"@.len());
        assert("Saturday"@.len() != "Fri"@.len());
        assert("Saturday"@.len() != "fri"@.len());
        assert("Saturday"@.len() != "FRI"@.len());
    }
    assert(weekday_named(day_names()[6]) == Some(weekday_of_index(6))) by {
        assert(day_names()[6] == "Sunday"@);
        assert("Sunday"@[0] != "Monday"@[0]);
        assert("Sunday"@[0] != "monday"@[0]);
        assert("Sunday"@[0] != "MONDAY"@[0]);
        assert("Sunday"@.len() != "Mon"@.len());
        assert("Sunday"@.len() != "mon"@.len());
        assert("Sunday"@.len() != "MON"@.len());
        assert("Sunday"@.len() != "Tuesday"@.len());
        assert("Sunday"@.len() != "tuesday"@.len());
        assert("Sunday"@.len() != "TUESDAY"@.len());
        assert("Sunday"@.len() != "Tue"@.len());
        assert("Sunday"@.len() != "tue"@.len());
        assert("Sunday"@.len() != "TUE"@.len());
        assert("Sunday"@.len() != "Wednesday"@.len());
        assert("Sunday"@.len() != "wednesday"@.len());
        assert("Sunday"@.len() != "WEDNESDAY"@.len());
        assert("Sunday"@.len() != "Wed"@.len());
        assert("Sunday"@.len() != "wed"@.len());
        assert("Sunday"@.len() != "WED"@.len());
        assert("Sunday"@.len() != "Thursday"@.len());
        assert("Sunday"@.len() != "thursday"@.len());
        assert("Sunday"@.len() != "THURSDAY"@.len());
        assert("Sunday"@.len() != "Thu"@.len());
        assert("Sunday"@.len() != "thu"@.len());
        assert("Sunday"@.len() != "THU"@.len());
        assert("Sunday"@[0] != "Friday"@[0]);
        assert("Sunday"@[0] != "friday"@[0]);
        assert("Sunday"@[0] != "FRIDAY"@[0]);
        assert("Sunday"@.len() != "Fri"@.len());
        assert("Sunday"@.len() != "fri"@.len());
        assert("Sunday"@.len() != "FRI"@.len());
        assert("Sunday"@.len() != "Saturday"@.len());
        assert("Sunday"@.len() != "saturday"@.len());
        assert("Sunday"@.len() != "SATURDAY"@.len());
        assert("Sunday"@.len() != "Sat"@.len());
        assert("Sunday"@.len() != "sat"@.len());
        assert("Sunday"@.len() != "SAT"@.len());
    }
}

fn weekday_number(w: Weekday) -> (r: i64)
    ensures
        r == weekday_index(w),
{
    match w {
        Weekday::Monday => 0,
        Weekday::Tuesday => 1,
        Weekday::Wednesday => 2,
        Weekday::Thursday => 3,
        Weekday::Friday => 4,
        Weekday::Saturday => 5,
        Weekday::Sunday => 6,
    }
}

impl core::ops::Sub for Weekday {
    type Output = Duration;

    /// The days from this weekday forward to the other one (zero to six days).
    fn sub(self, rhs: Self) -> (d: Duration)
        ensures
            d.wf(),
            d@ == days_until(self, rhs) * npd(),
    {
        let from = weekday_number(self);
        let mut to = weekday_number(rhs);
        if to - from < 0 {
            to = to + 7;
        }
        (to - from) * Unit::Day
    }
}

impl vstd::std_specs::ops::SubSpecImpl for Weekday {
    open spec fn obeys_sub_spec() -> bool {
        false
    }

    open spec fn sub_req(self, rhs: Weekday) -> bool {
        true
    }

    open spec fn sub_spec(self, rhs: Weekday) -> Duration {
        Duration::of_ns(days_until(self, rhs) * npd())
    }
}

/// The parts of a duration with its hours, minutes and seconds replaced.
pub open spec fn with_hms_parts(p: DurationParts, hours: u64, minutes: u64, seconds: u64) -> DurationParts {
    DurationParts { hours: hours as i128, minutes: minutes as i128, seconds: seconds as i128, ..p }
}

/// The sign and days of a duration's parts with the given hours, minutes and seconds, and
/// nothing below the second.
pub open spec fn strict_hms_parts(p: DurationParts, hours: u64, minutes: u64, seconds: u64) -> DurationParts {
    DurationParts {
        sign: p.sign,
        centuries: 0,
        days: p.days,
        hours: hours as i128,
        minutes: minutes as i128,
        seconds: seconds as i128,
        milliseconds: 0,
        microseconds: 0,
        nanoseconds: 0,
        picoseconds: 0,
        femtoseconds: 0,
        attoseconds: 0,
        zeptoseconds: 0,
    }
}

/// The parts of a duration with the sign and the days of another one.
pub open spec fn with_day_parts(p: DurationParts, day_of: DurationParts) -> DurationParts {
    DurationParts { sign: day_of.sign, days: day_of.days, ..p }
}

/// The parts of the duration of an epoch.
pub open spec fn epoch_parts(e: Epoch) -> DurationParts {
    parts_of_value(capped(e.duration@))
}

impl Epoch {
    /// Returns a copy of self where the time is set to the provided hours, minutes, seconds
    /// Invalid number of hours, minutes, and seconds will overflow into their higher unit.
    /// Warning: this does _not_ set the subdivisions of second to zero.
    pub fn with_hms(&self, hours: u64, minutes: u64, seconds: u64) -> (e: Epoch)
        ensures
            e.time_scale == self.time_scale,
            e.duration == Duration::of_ns(
                parts_value(with_hms_parts(epoch_parts(*self), hours, minutes, seconds)),
            ),
    {
        let mut parts = DurationParts::from(self.duration);
        parts.hours = hours as i128;
        parts.minutes = minutes as i128;
        parts.seconds = seconds as i128;
        Epoch::from_duration(Duration::from(parts), self.time_scale)
    }

    /// Returns a copy of self where the time is set to the provided hours, minutes, seconds
    /// Invalid number of hours, minutes, and seconds will overflow into their higher unit.
    /// Warning: this will set the subdivisions of seconds to zero.
    pub fn with_hms_strict(&self, hours: u64, minutes: u64, seconds: u64) -> (e: Epoch)
        ensures
            e.time_scale == self.time_scale,
            e.duration == Duration::of_ns(
                parts_value(strict_hms_parts(epoch_parts(*self), hours, minutes, seconds)),
            ),
    {
        let parts = DurationParts::from(self.duration);
        let new_parts = DurationParts {
            sign: parts.sign,
            centuries: 0,
            days: parts.days,
            hours: hours as i128,
            minutes: minutes as i128,
            seconds: seconds as i128,
            milliseconds: 0,
            microseconds: 0,
            nanoseconds: 0,
            picoseconds: 0,
            femtoseconds: 0,
            attoseconds: 0,
            zeptoseconds: 0,
        };
        Epoch::from_duration(Duration::from(new_parts), self.time_scale)
    }

    /// Returns a copy of self where all of the time components (hours, minutes, seconds, and
    /// sub-seconds) are those of the given duration, counted in the time scale of this epoch;
    /// the sign and the days are kept from this epoch.
    pub fn with_time_from_duration(&self, other: Duration) -> (e: Epoch)
        ensures
            e.time_scale == self.time_scale,
            e.duration == Duration::of_ns(
                parts_value(with_day_parts(parts_of_value(capped(other@)), epoch_parts(*self))),
            ),
    {
        let parts = DurationParts::from(self.duration);
        let mut others_parts = DurationParts::from(other);
        others_parts.sign = parts.sign;
        others_parts.days = parts.days;
        Epoch::from_duration(Duration::from(others_parts), self.time_scale)
    }

    /// The next given weekday after this epoch, whose weekday is `current`: the days from
    /// `current` forward to `weekday` are added, a whole week when they are the same day.
    pub fn next_from_weekday(&self, current: Weekday, weekday: Weekday) -> (e: Epoch)
        requires
            self.wf(),
        ensures
            e.wf(),
            e.time_scale == self.time_scale,
            e.duration@ == add_value(
                self.duration,
                Duration::of_ns(
                    if days_until(current, weekday) == 0 {
                        7
                    } else {
                        days_until(current, weekday)
                    } * npd(),
                ),
            ),
    {
        let delta_days = current - weekday;
        let zero = Duration::zero();
        proof {
            Duration::lemma_of_ns(delta_days@);
            Duration::lemma_unique(delta_days, Duration::of_ns(delta_days@));
            crate::duration::law_eq_is_value_eq(delta_days, zero);
        }
        if delta_days == zero {
            let week = 7 * Unit::Day;
            proof {
                Duration::lemma_of_ns(week@);
                Duration::lemma_unique(week, Duration::of_ns(7 * npd()));
            }
            *self + week
        } else {
            *self + delta_days
        }
    }

    /// The previous given weekday before this epoch, whose weekday is `current`: the days from
    /// `weekday` forward to `current` are taken away, a whole week when they are the same day.
    pub fn previous_from_weekday(&self, current: Weekday, weekday: Weekday) -> (e: Epoch)
        requires
            self.wf(),
        ensures
            e.wf(),
            e.time_scale == self.time_scale,
            e.duration@ == sub_value(
                self.duration,
                Duration::of_ns(
                    if days_until(weekday, current) == 0 {
                        7
                    } else {
                        days_until(weekday, current)
                    } * npd(),
                ),
            ),
    {
        let delta_days = weekday - current;
        let zero = Duration::zero();
        proof {
            Duration::lemma_of_ns(delta_days@);
            Duration::lemma_unique(delta_days, Duration::of_ns(delta_days@));
            crate::duration::law_eq_is_value_eq(delta_days, zero);
        }
        if delta_days == zero {
            let week = 7 * Unit::Day;
            proof {
                Duration::lemma_of_ns(week@);
                Duration::lemma_unique(week, Duration::of_ns(7 * npd()));
            }
            *self - week
        } else {
            *self - delta_days
        }
    }
}

/// The magnitude of a duration whose time of day is replaced: its whole days, then the given
/// hours, minutes and seconds, then its part below the second.
pub open spec fn time_set_magnitude(v: int, hours: int, minutes: int, seconds: int) -> int {
    let a = abs_int(v);
    a / 86_400_000_000_000 * 86_400_000_000_000 + hours * 3_600_000_000_000 + minutes
        * 60_000_000_000 + seconds * 1_000_000_000 + a % 1_000_000_000
}

/// Setting the hours, minutes and seconds of an epoch (within a day, and without reaching
/// beyond the largest duration) keeps its days and its part below the second, and gives the
/// time of day that `hours`, `minutes` and `seconds` read back.
pub proof fn law_with_hms_sets_time(e: Epoch, hours: u64, minutes: u64, seconds: u64)
    requires
        e.wf(),
        hours < 24,
        minutes < 60,
        seconds < 60,
        time_set_magnitude(e.duration@, hours as int, minutes as int, seconds as int) <= max_ns(),
    ensures
        ({
            let v = parts_value(with_hms_parts(epoch_parts(e), hours, minutes, seconds));
            let w = time_set_magnitude(e.duration@, hours as int, minutes as int, seconds as int);
            &&& v == if e.duration@ < 0 {
                -w
            } else {
                w
            }
            &&& abs_int(v) / 86_400_000_000_000 == abs_int(e.duration@) / 86_400_000_000_000
            &&& abs_int(v) % 86_400_000_000_000 / 3_600_000_000_000 == hours
            &&& abs_int(v) % 3_600_000_000_000 / 60_000_000_000 == minutes
            &&& abs_int(v) % 60_000_000_000 / 1_000_000_000 == seconds
            &&& abs_int(v) % 1_000_000_000 == abs_int(e.duration@) % 1_000_000_000
        }),
{
    let d = e.duration;
    d.lemma_range();
    let v0 = d@;
    assert(capped(v0) == v0);
    let a = abs_int(v0);
    let p = with_hms_parts(epoch_parts(e), hours, minutes, seconds);
    let (h, m, s) = (hours as int, minutes as int, seconds as int);
    let dd = a / 86_400_000_000_000;
    let sub = a % 1_000_000_000;
    let r3 = a % 1_000_000_000;
    let ms = r3 / 1_000_000;
    let r4 = r3 % 1_000_000;
    let us = r4 / 1_000;
    let ns = r4 % 1_000;
    vstd::arithmetic::div_mod::lemma_fundamental_div_mod(a, 86_400_000_000_000);
    vstd::arithmetic::div_mod::lemma_fundamental_div_mod(r3, 1_000_000);
    vstd::arithmetic::div_mod::lemma_fundamental_div_mod(r4, 1_000);
    vstd::arithmetic::div_mod::lemma_mod_mod(a, 1_000_000, 1000);
    vstd::arithmetic::div_mod::lemma_mod_mod(a, 1_000, 1000);
    vstd::arithmetic::div_mod::lemma_div_is_ordered(0, a, 86_400_000_000_000);
    vstd::arithmetic::div_mod::lemma_div_is_ordered(a, max_ns(), 86_400_000_000_000);
    assert(p.days == dd && p.hours == h && p.minutes == m && p.seconds == s);
    assert(p.milliseconds == ms && p.microseconds == us && p.nanoseconds == ns);
    assert(ms * 1_000_000 + us * 1_000 + ns == sub);
    let w = time_set_magnitude(v0, h, m, s);
    // Each partial sum stays below the whole, which fits.
    let s0 = dd * 86_400_000_000_000;
    let s1 = s0 + h * 3_600_000_000_000;
    let s2 = s1 + m * 60_000_000_000;
    let s3 = s2 + s * 1_000_000_000;
    let s4 = s3 + ms * 1_000_000;
    let s5 = s4 + us * 1_000;
    assert(s5 + ns == w);
    Duration::lemma_of_ns(s0);
    lemma_add_exact(s0, h * 3_600_000_000_000);
    lemma_add_exact(s1, m * 60_000_000_000);
    lemma_add_exact(s2, s * 1_000_000_000);
    lemma_add_exact(s3, ms * 1_000_000);
    lemma_add_exact(s4, us * 1_000);
    lemma_add_exact(s5, ns);
    assert(parts_sum(p) == w);
    // The time of day of the result is the one set.
    let r = h * 3_600_000_000_000 + m * 60_000_000_000 + s * 1_000_000_000 + sub;
    assert(0 <= r < 86_400_000_000_000);
    assert(w == dd * 86_400_000_000_000 + r);
    vstd::arithmetic::div_mod::lemma_fundamental_div_mod_converse(w, 86_400_000_000_000, dd, r);
    let rh = m * 60_000_000_000 + s * 1_000_000_000 + sub;
    assert(w == (dd * 24 + h) * 3_600_000_000_000 + rh);
    vstd::arithmetic::div_mod::lemma_fundamental_div_mod_converse(w, 3_600_000_000_000, dd * 24 + h, rh);
    vstd::arithmetic::div_mod::lemma_fundamental_div_mod_converse(r, 3_600_000_000_000, h, rh);
    let rm = s * 1_000_000_000 + sub;
    assert(w == ((dd * 24 + h) * 60 + m) * 60_000_000_000 + rm);
    vstd::arithmetic::div_mod::lemma_fundamental_div_mod_converse(w, 60_000_000_000, (dd * 24 + h) * 60 + m, rm);
    vstd::arithmetic::div_mod::lemma_fundamental_div_mod_converse(rh, 60_000_000_000, m, rm);
    assert(w == (((dd * 24 + h) * 60 + m) * 60 + s) * 1_000_000_000 + sub);
    vstd::arithmetic::div_mod::lemma_fundamental_div_mod_converse(w, 1_000_000_000, ((dd * 24 + h) * 60 + m) * 60 + s, sub);
    vstd::arithmetic::div_mod::lemma_fundamental_div_mod_converse(rm, 1_000_000_000, s, sub);
}

} // verus!
