use vstd::prelude::*;
use vstd::string::{StringExecFns, StringSliceAdditionalSpecFns};
use vstd::utf8::{decode_utf8, encode_utf8, is_char_boundary, valid_utf8};

use crate::epoch::{lemma_month_of, lemma_month_search, month_and_day, month_of, saturate};
use crate::text::{parse_std_i32, parse_std_u8, std_i32, std_u8};
use crate::gregorian::{
    cumulative_days_for_month, days_before_month, gregorian_valid, is_gregorian_valid, is_leap,
    is_leap_year, lemma_days_before_month_bound, lemma_days_before_month_mono,
    lemma_leaps_nonneg, lemma_leaps_nonpos, lemma_year_and_day_inverse, lemma_year_and_day_total,
    lemma_year_days, lemma_year_start_step, year_and_day_of,
    year_and_day_of_days, year_length, year_start_days, year_start_days_of,
};

verus! {

/// Seconds in a day.
pub open spec fn spd() -> int {
    86_400
}

/// Largest number of whole seconds that an instant can hold: its seconds are a `u64`.
pub open spec fn max_instant_ns() -> int {
    (u64::MAX + 1) * 1_000_000_000 - 1
}

/// Whether the year of the date and time of a number of nanoseconds since 1900-01-01 fits the
/// 32 bit year of a date time.
pub open spec fn year_fits(v: int) -> bool {
    i32::MIN <= instant_date(v).0 <= i32::MAX
}

/// Whether the instant is in the past or in the present with respect to 1900-01-01.
#[derive(Clone, Copy, Debug, PartialEq, Eq, Structural, PartialOrd)]
pub enum Era {
    /// Before 1900-01-01T00:00:00.
    Past,
    /// On or after 1900-01-01T00:00:00.
    Present,
}

/// An instant, as whole seconds and nanoseconds away from 1900-01-01 in the past or in the
/// present.
#[derive(Clone, Copy, Debug, PartialEq, Eq, Structural, PartialOrd)]
pub struct Instant {
    secs: u64,
    nanos: u32,
    era: Era,
}

/// `Offset` is an alias of Instant. It contains the same kind of information, but is used in the
/// context of defining an offset with respect to Utc.
pub type Offset = Instant;

impl View for Instant {
    type V = int;

    /// The signed number of nanoseconds since 1900-01-01 (negative in the past).
    closed spec fn view(&self) -> int {
        match self.era {
            Era::Past => -(self.secs * 1_000_000_000 + self.nanos),
            Era::Present => self.secs * 1_000_000_000 + self.nanos,
        }
    }
}

impl Instant {
    /// An instant is well formed when its nanoseconds are less than one second.
    pub closed spec fn wf(self) -> bool {
        self.nanos < 1_000_000_000
    }

    pub closed spec fn spec_secs(self) -> u64 {
        self.secs
    }

    pub closed spec fn spec_nanos(self) -> u32 {
        self.nanos
    }

    pub closed spec fn spec_era(self) -> Era {
        self.era
    }

    /// The instant of the same seconds and nanoseconds in the other era.
    pub closed spec fn negated(self) -> Instant {
        Instant {
            secs: self.secs,
            nanos: self.nanos,
            era: match self.era {
                Era::Past => Era::Present,
                Era::Present => Era::Past,
            },
        }
    }

    /// The well formed instant of a signed number of nanoseconds; zero is in the present.
    pub closed spec fn of_value(v: int) -> Instant {
        let a = if v < 0 {
            -v
        } else {
            v
        };
        Instant {
            secs: (a / 1_000_000_000) as u64,
            nanos: (a % 1_000_000_000) as u32,
            era: if v < 0 {
                Era::Past
            } else {
                Era::Present
            },
        }
    }

    /// Whether a signed number of nanoseconds can be held by an instant.
    pub closed spec fn fits(v: int) -> bool {
        -max_instant_ns() <= v <= max_instant_ns()
    }

    /// The well formed instant of a number of nanoseconds that fits.
    fn from_value(v: i128) -> (r: Instant)
        requires
            Instant::fits(v as int),
        ensures
            r == Instant::of_value(v as int),
            r.wf(),
            r@ == v,
    {
        let a: i128 = if v < 0 {
            -v
        } else {
            v
        };
        let secs: i128 = a / 1_000_000_000;
        let nanos: i128 = a % 1_000_000_000;
        Instant {
            secs: secs as u64,
            nanos: nanos as u32,
            era: if v < 0 {
                Era::Past
            } else {
                Era::Present
            },
        }
    }

    /// The signed number of nanoseconds of this instant.
    fn value(&self) -> (v: i128)
        ensures
            v == self@,
    {
        let m: i128 = self.secs as i128 * 1_000_000_000 + self.nanos as i128;
        match self.era {
            Era::Past => -m,
            Era::Present => m,
        }
    }

    /// Creates an instant; nanoseconds of a second or more are carried into the seconds.
    pub fn new(secs: u64, nanos: u32, era: Era) -> (r: Instant)
        requires
            secs + nanos / 1_000_000_000 <= u64::MAX,
        ensures
            r.wf(),
            r.spec_secs() == secs + nanos / 1_000_000_000,
            r.spec_nanos() == nanos % 1_000_000_000,
            r.spec_era() == era,
    {
        Instant { secs: secs + (nanos / 1_000_000_000) as u64, nanos: nanos % 1_000_000_000, era }
    }

    /// Returns the number of whole seconds of this instant.
    pub fn secs(&self) -> (r: u64)
        ensures
            r == self.spec_secs(),
    {
        self.secs
    }

    /// Returns the nanoseconds of this instant, beyond its whole seconds.
    pub fn nanos(&self) -> (r: u32)
        ensures
            r == self.spec_nanos(),
    {
        self.nanos
    }

    /// Returns the era of this instant.
    pub fn era(&self) -> (r: Era)
        ensures
            r == self.spec_era(),
    {
        self.era
    }

    /// Moves this instant forward by the given seconds and nanoseconds.
    pub fn add_duration(self, secs: u64, nanos: u32) -> (r: Instant)
        requires
            nanos < 1_000_000_000,
            Instant::fits(self@ + secs * 1_000_000_000 + nanos),
        ensures
            r == Instant::of_value(self@ + secs * 1_000_000_000 + nanos),
            r.wf(),
    {
        let v = self.value() + (secs as i128 * 1_000_000_000 + nanos as i128);
        Instant::from_value(v)
    }

    /// Moves this instant backward by the given seconds and nanoseconds.
    pub fn sub_duration(self, secs: u64, nanos: u32) -> (r: Instant)
        requires
            nanos < 1_000_000_000,
            Instant::fits(self@ - secs * 1_000_000_000 - nanos),
        ensures
            r == Instant::of_value(self@ - secs * 1_000_000_000 - nanos),
            r.wf(),
    {
        let v = self.value() - (secs as i128 * 1_000_000_000 + nanos as i128);
        Instant::from_value(v)
    }
}

/// Negates an Offset: the seconds and nanoseconds are kept and the era is swapped.
impl core::ops::Neg for Instant {
    type Output = Instant;

    fn neg(self) -> (r: Instant)
        ensures
            r.spec_secs() == self.spec_secs(),
            r.spec_nanos() == self.spec_nanos(),
            r.spec_era() == (match self.spec_era() {
                Era::Past => Era::Present,
                Era::Present => Era::Past,
            }),
    {
        let era = match self.era {
            Era::Past => Era::Present,
            Era::Present => Era::Past,
        };
        Instant { secs: self.secs, nanos: self.nanos, era }
    }
}

impl vstd::std_specs::ops::NegSpecImpl for Instant {
    open spec fn obeys_neg_spec() -> bool {
        false
    }

    open spec fn neg_req(self) -> bool {
        true
    }

    open spec fn neg_spec(self) -> Instant {
        self.negated()
    }
}

/// `FixedOffset` implements a time fixed offset of a certain number of hours with regard to UTC.
pub struct FixedOffset {}

impl FixedOffset {
    /// `east_with_hours` returns an eastward offset (i.e. "before" the UTC time)
    pub fn east_with_hours(hours: u64) -> (r: Offset)
        requires
            hours * 3600 <= u64::MAX,
        ensures
            r.spec_secs() == hours * 3600,
            r.spec_nanos() == 0,
            r.spec_era() == Era::Past,
            r.wf(),
    {
        Instant::new(hours * 3600, 0, Era::Past)
    }

    /// `west_with_hours` returns a westward offset (i.e. "after" the UTC time)
    pub fn west_with_hours(hours: u64) -> (r: Offset)
        requires
            hours * 3600 <= u64::MAX,
        ensures
            r.spec_secs() == hours * 3600,
            r.spec_nanos() == 0,
            r.spec_era() == Era::Present,
            r.wf(),
    {
        Instant::new(hours * 3600, 0, Era::Present)
    }
}

/// Errors of the construction of a date time.
#[derive(Debug, PartialEq)]
pub enum Errors {
    /// The date time is not a valid date (no automatic carry is made).
    Carry,
    /// The text is not an ISO8601 date time.
    ParseError(String),
}

/// Datetime supports date time has used by most humans. All time zones are defined with
/// respect to UTC. Moreover, `Datetime` inherently supports the past leap seconds. NOTE: leap
/// seconds cannot be predicted!
/// **WARNING**: The historical oddities with calendars are not yet supported.
#[derive(Copy, Clone, Debug, PartialEq, Eq, Structural, PartialOrd)]
pub struct Datetime {
    year: i32,
    month: u8,
    day: u8,
    hour: u8,
    minute: u8,
    second: u8,
    nanos: u32,
    offset: Offset,
}

/// Days from 1900-01-01 to the given date (negative before 1900).
pub open spec fn datetime_days(year: int, month: int, day: int) -> int {
    year_start_days(year) + days_before_month(is_leap(year), month) + day - 1
}

/// Seconds from 1900-01-01T00:00:00 to the given date and time (negative before 1900); a
/// 60th second counts as the 59th.
pub open spec fn datetime_seconds(
    year: int,
    month: int,
    day: int,
    hour: int,
    minute: int,
    second: int,
) -> int {
    datetime_days(year, month, day) * spd() + hour * 3600 + minute * 60 + second - (if second
        == 60 {
        1int
    } else {
        0int
    })
}

/// The UTC offset used by the date times built from an instant.
pub closed spec fn utc_offset() -> Offset {
    Instant { secs: 0, nanos: 0, era: Era::Present }
}

/// The date and time (year, month, day, hour, minute, second, nanoseconds) of a signed number
/// of nanoseconds since 1900-01-01T00:00:00.
pub open spec fn instant_date(v: int) -> (int, int, int, int, int, int, int) {
    let secs = v / 1_000_000_000;
    let days = secs / spd();
    let tod = secs % spd();
    let (year, doy) = year_and_day_of(days);
    let month = month_of(is_leap(year), doy);
    (
        year,
        month,
        doy - days_before_month(is_leap(year), month) + 1,
        tod / 3600,
        tod % 3600 / 60,
        tod % 60,
        v % 1_000_000_000,
    )
}

/// The date time that `from_instant` computes from an instant: the date and time of its
/// nanoseconds since 1900-01-01, with the offset of UTC.
pub closed spec fn datetime_of_instant(i: Instant) -> Datetime {
    let p = instant_date(i@);
    Datetime {
        year: p.0 as i32,
        month: p.1 as u8,
        day: p.2 as u8,
        hour: p.3 as u8,
        minute: p.4 as u8,
        second: p.5 as u8,
        nanos: p.6 as u32,
        offset: utc_offset(),
    }
}

/// Every number of nanoseconds that fits is the value of its well formed instant.
pub proof fn lemma_of_value(v: int)
    requires
        Instant::fits(v),
    ensures
        Instant::of_value(v)@ == v,
        Instant::of_value(v).wf(),
{
    let a = if v < 0 {
        -v
    } else {
        v
    };
    vstd::arithmetic::div_mod::lemma_fundamental_div_mod(a, 1_000_000_000);
}

/// The date and time of a number of nanoseconds since 1900-01-01 that an instant holds: a
/// valid date and time, without a 60th second, whose days and time of day are those of the
/// nanoseconds.
pub proof fn lemma_instant_date(v: int)
    requires
        Instant::fits(v),
    ensures
        ({
            let p = instant_date(v);
            &&& gregorian_valid(p.0, p.1, p.2, p.3, p.4, p.5, p.6)
            &&& 0 <= p.3 < 24 && 0 <= p.4 < 60 && 0 <= p.5 < 60 && 0 <= p.6 < 1_000_000_000
            &&& 0 <= p.2 <= 31
            &&& datetime_days(p.0, p.1, p.2) == v / 1_000_000_000 / spd()
            &&& p.3 * 3600 + p.4 * 60 + p.5 == v / 1_000_000_000 % spd()
            &&& -300_000_000_000_000 <= v / 1_000_000_000 / spd() <= 300_000_000_000_000
        }),
{
    let secs = v / 1_000_000_000;
    vstd::arithmetic::div_mod::lemma_fundamental_div_mod(v, 1_000_000_000);
    vstd::arithmetic::div_mod::lemma_mod_bound(v, 1_000_000_000);
    assert(-(u64::MAX + 1) <= secs <= u64::MAX + 1) by {
        vstd::arithmetic::div_mod::lemma_div_is_ordered(v, max_instant_ns(), 1_000_000_000);
        vstd::arithmetic::div_mod::lemma_div_is_ordered(-max_instant_ns(), v, 1_000_000_000);
    }
    let days = secs / spd();
    let tod = secs % spd();
    vstd::arithmetic::div_mod::lemma_fundamental_div_mod(secs, spd());
    vstd::arithmetic::div_mod::lemma_mod_bound(secs, spd());
    assert(-300_000_000_000_000 <= days <= 300_000_000_000_000) by {
        vstd::arithmetic::div_mod::lemma_div_is_ordered(secs, u64::MAX + 1, spd());
        vstd::arithmetic::div_mod::lemma_div_is_ordered(-(u64::MAX + 1), secs, spd());
    }
    lemma_year_and_day_total(days);
    let (y, doy) = year_and_day_of(days);
    let leap = is_leap(y);
    lemma_year_days(leap);
    assert(saturate(doy, 65535) == doy);
    lemma_month_search(leap, doy, 1);
    let m = month_of(leap, doy);
    lemma_days_before_month_bound(leap, m);
    lemma_days_before_month_mono(leap, 1, m);
    if m < 12 {
        lemma_days_before_month_mono(leap, m + 1, 13);
    }
    lemma_days_before_month_bound(leap, 12);
    reveal_with_fuel(days_before_month, 13);
    let h = tod / 3600;
    let mi = tod % 3600 / 60;
    let sc = tod % 60;
    vstd::arithmetic::div_mod::lemma_fundamental_div_mod(tod, 3600);
    vstd::arithmetic::div_mod::lemma_mod_bound(tod, 3600);
    vstd::arithmetic::div_mod::lemma_fundamental_div_mod(tod % 3600, 60);
    vstd::arithmetic::div_mod::lemma_mod_bound(tod % 3600, 60);
    vstd::arithmetic::div_mod::lemma_mod_mod(tod, 60, 60);
    vstd::arithmetic::div_mod::lemma_mod_bound(tod, 60);
    assert(0 <= h < 24) by {
        vstd::arithmetic::div_mod::lemma_div_is_ordered(tod, 86_399, 3600);
    }
    assert(0 <= mi < 60) by {
        vstd::arithmetic::div_mod::lemma_div_is_ordered(tod % 3600, 3599, 60);
    }
    assert(tod % 3600 % 60 == sc);
}

impl Datetime {
    /// A date time is well formed when its date and time are valid.
    pub closed spec fn wf(self) -> bool {
        gregorian_valid(
            self.year as int,
            self.month as int,
            self.day as int,
            self.hour as int,
            self.minute as int,
            self.second as int,
            self.nanos as int,
        )
    }

    /// The signed nanoseconds of the instant of this date time, its offset applied.
    pub closed spec fn instant_value(self) -> int {
        datetime_seconds(
            self.year as int,
            self.month as int,
            self.day as int,
            self.hour as int,
            self.minute as int,
            self.second as int,
        ) * 1_000_000_000 + self.nanos + self.offset@
    }

    /// Whether this date time has the given fields.
    pub closed spec fn has_fields(
        self,
        year: i32,
        month: u8,
        day: u8,
        hour: u8,
        minute: u8,
        second: u8,
        nanos: u32,
        offset: Offset,
    ) -> bool {
        self == Datetime { year, month, day, hour, minute, second, nanos, offset }
    }

    /// The outcome of building a date time of the given fields: the date time when they are a
    /// valid date and time, else the error of a date that would need a carry.
    pub closed spec fn built(
        year: i32,
        month: u8,
        day: u8,
        hour: u8,
        minute: u8,
        second: u8,
        nanos: u32,
        offset: Offset,
    ) -> Result<Datetime, Errors> {
        if gregorian_valid(
            year as int,
            month as int,
            day as int,
            hour as int,
            minute as int,
            second as int,
            nanos as int,
        ) {
            Ok(Datetime { year, month, day, hour, minute, second, nanos, offset })
        } else {
            Err(Errors::Carry)
        }
    }

    pub closed spec fn spec_year(self) -> i32 {
        self.year
    }

    pub closed spec fn spec_month(self) -> u8 {
        self.month
    }

    pub closed spec fn spec_day(self) -> u8 {
        self.day
    }

    pub closed spec fn spec_hour(self) -> u8 {
        self.hour
    }

    pub closed spec fn spec_minute(self) -> u8 {
        self.minute
    }

    pub closed spec fn spec_second(self) -> u8 {
        self.second
    }

    pub closed spec fn spec_nanos(self) -> u32 {
        self.nanos
    }

    pub closed spec fn spec_offset(self) -> Offset {
        self.offset
    }

    /// Creates a new UTC-offsetted datetime, with support for all the leap seconds with respect
    /// to TAI.
    /// **WARNING:** Does not support automatic carry and will return an error if so.
    #[allow(clippy::too_many_arguments)]
    pub fn new(
        year: i32,
        month: u8,
        day: u8,
        hour: u8,
        minute: u8,
        second: u8,
        nanos: u32,
    ) -> (r: Result<Datetime, Errors>)
        ensures
            gregorian_valid(
                year as int,
                month as int,
                day as int,
                hour as int,
                minute as int,
                second as int,
                nanos as int,
            ) ==> r is Ok && r->Ok_0.has_fields(
                year,
                month,
                day,
                hour,
                minute,
                second,
                nanos,
                utc_offset(),
            ),
            !gregorian_valid(
                year as int,
                month as int,
                day as int,
                hour as int,
                minute as int,
                second as int,
                nanos as int,
            ) ==> r == Err::<Datetime, Errors>(Errors::Carry),
            r == Datetime::built(year, month, day, hour, minute, second, nanos, utc_offset()),
    {
        Datetime::with_offset(
            year,
            month,
            day,
            hour,
            minute,
            second,
            nanos,
            FixedOffset::west_with_hours(0),
        )
    }

    /// Creates a new Datetime with the specified UTC time offset. Works like `Datetime::new` in
    /// every way but it sets the UTC time offset to the one provided.
    #[allow(clippy::too_many_arguments)]
    pub fn with_offset(
        year: i32,
        month: u8,
        day: u8,
        hour: u8,
        minute: u8,
        second: u8,
        nanos: u32,
        offset: Offset,
    ) -> (r: Result<Datetime, Errors>)
        ensures
            gregorian_valid(
                year as int,
                month as int,
                day as int,
                hour as int,
                minute as int,
                second as int,
                nanos as int,
            ) ==> r is Ok && r->Ok_0.has_fields(
                year,
                month,
                day,
                hour,
                minute,
                second,
                nanos,
                offset,
            ),
            !gregorian_valid(
                year as int,
                month as int,
                day as int,
                hour as int,
                minute as int,
                second as int,
                nanos as int,
            ) ==> r == Err::<Datetime, Errors>(Errors::Carry),
            r == Datetime::built(year, month, day, hour, minute, second, nanos, offset),
    {
        if !is_gregorian_valid(year, month, day, hour, minute, second, nanos) {
            return Err(Errors::Carry);
        }
        Ok(Datetime { year, month, day, hour, minute, second, nanos, offset })
    }

    /// Returns the year of this Datetime date time.
    pub fn year(&self) -> (r: &i32)
        ensures
            *r == self.spec_year(),
    {
        &self.year
    }

    /// Returns the month of this Datetime date time.
    pub fn month(&self) -> (r: &u8)
        ensures
            *r == self.spec_month(),
    {
        &self.month
    }

    /// Returns the day of this Datetime date time.
    pub fn day(&self) -> (r: &u8)
        ensures
            *r == self.spec_day(),
    {
        &self.day
    }

    /// Returns the hour of this Datetime date time.
    pub fn hour(&self) -> (r: &u8)
        ensures
            *r == self.spec_hour(),
    {
        &self.hour
    }

    /// Returns the minute of this Datetime date time.
    pub fn minute(&self) -> (r: &u8)
        ensures
            *r == self.spec_minute(),
    {
        &self.minute
    }

    /// Returns the second of this Datetime date time.
    pub fn second(&self) -> (r: &u8)
        ensures
            *r == self.spec_second(),
    {
        &self.second
    }

    /// Returns the nanoseconds of this Datetime date time.
    pub fn nanos(&self) -> (r: &u32)
        ensures
            *r == self.spec_nanos(),
    {
        &self.nanos
    }

    /// Returns the offset of this Datetime date time.
    pub fn offset(&self) -> (r: &Offset)
        ensures
            *r == self.spec_offset(),
    {
        &self.offset
    }

    /// Creates a new UTC date at midnight (i.e. hours = 0, mins = 0, secs = 0, nanos = 0)
    pub fn at_midnight(year: i32, month: u8, day: u8) -> (r: Result<Datetime, Errors>)
        ensures
            gregorian_valid(year as int, month as int, day as int, 0, 0, 0, 0) ==> r is Ok
                && r->Ok_0.has_fields(year, month, day, 0, 0, 0, 0, utc_offset()),
            !gregorian_valid(year as int, month as int, day as int, 0, 0, 0, 0) ==> r == Err::<
                Datetime,
                Errors,
            >(Errors::Carry),
            r == Datetime::built(year, month, day, 0, 0, 0, 0, utc_offset()),
    {
        Datetime::new(year, month, day, 0, 0, 0, 0)
    }

    /// Creates a new UTC date at noon (i.e. hours = 12, mins = 0, secs = 0, nanos = 0)
    pub fn at_noon(year: i32, month: u8, day: u8) -> (r: Result<Datetime, Errors>)
        ensures
            gregorian_valid(year as int, month as int, day as int, 12, 0, 0, 0) ==> r is Ok
                && r->Ok_0.has_fields(year, month, day, 12, 0, 0, 0, utc_offset()),
            !gregorian_valid(year as int, month as int, day as int, 12, 0, 0, 0) ==> r == Err::<
                Datetime,
                Errors,
            >(Errors::Carry),
            r == Datetime::built(year, month, day, 12, 0, 0, 0, utc_offset()),
    {
        Datetime::new(year, month, day, 12, 0, 0, 0)
    }
}


impl Datetime {
    /// `into_instant` returns an Instant from the Datetime while correcting for the offset: the
    /// nanoseconds from 1900-01-01T00:00:00 to the date and time (in the past era before 1900),
    /// plus the offset.
    pub fn into_instant(self) -> (r: Instant)
        requires
            self.wf(),
            self.spec_offset().wf(),
            Instant::fits(self.instant_value()),
        ensures
            r == Instant::of_value(self.instant_value()),
            r.wf(),
    {
        let year = self.year;
        let start: i64 = year_start_days_of(year);
        let cumul = cumulative_days_for_month(is_leap_year(year));
        proof {
            lemma_days_before_month_bound(is_leap(year as int), self.month as int);
            if year >= 1900 {
                lemma_leaps_nonneg(year as int);
            } else {
                lemma_leaps_nonpos(year as int);
            }
        }
        let days: i128 = start as i128 + cumul[(self.month - 1) as usize] as i128 + (self.day - 1) as i128;
        let mut secs: i128 = days * 86_400 + (self.hour as i128) * 3600 + (self.minute as i128) * 60
            + (self.second as i128);
        if self.second == 60 {
            // Herein lies the whole ambiguity of leap seconds. Two different UTC dates exist at
            // the same number of second afters J1900.0.
            secs = secs - 1;
        }
        Instant::from_value(secs * 1_000_000_000 + self.nanos as i128 + self.offset.value())
    }

    /// `from_instant` converts an Instant to a Datetime with an offset of Utc (i.e zero).
    pub fn from_instant(instant: Instant) -> (dt: Datetime)
        requires
            instant.wf(),
            year_fits(instant@),
        ensures
            dt == datetime_of_instant(instant),
            dt.wf(),
    {
        let v: i128 = instant.value();
        let secs: i128 = match v.checked_div_euclid(1_000_000_000) {
            Some(x) => x,
            None => 0,
        };
        let nanos: i128 = match v.checked_rem_euclid(1_000_000_000) {
            Some(x) => x,
            None => 0,
        };
        proof {
            lemma_instant_date(v as int);
        }
        let days: i128 = match secs.checked_div_euclid(86_400) {
            Some(x) => x,
            None => 0,
        };
        let tod: i128 = match secs.checked_rem_euclid(86_400) {
            Some(x) => x,
            None => 0,
        };
        let (year, doy) = year_and_day_of_days(days as i64);
        let (month, day) = month_and_day(year as i32, doy);
        Datetime {
            year: year as i32,
            month,
            day,
            hour: (tod / 3600) as u8,
            minute: (tod % 3600 / 60) as u8,
            second: (tod % 60) as u8,
            nanos: nanos as u32,
            offset: FixedOffset::west_with_hours(0),
        }
    }

    /// Converts this date time to the given offset: its instant, moved by the offset, is
    /// converted back to a date time (whose offset is that of UTC).
    pub fn to_offset(self, offset: Offset) -> (r: Datetime)
        requires
            self.wf(),
            self.spec_offset().wf(),
            offset.wf(),
            Instant::fits(self.instant_value()),
            Instant::fits(self.instant_value() + offset@),
            year_fits(self.instant_value() + offset@),
        ensures
            r == datetime_of_instant(Instant::of_value(self.instant_value() + offset@)),
            r.wf(),
    {
        let instant = self.into_instant();
        proof {
            lemma_of_value(self.instant_value());
        }
        // Start by canceling the initial offset and then apply the desired one
        match offset.era {
            Era::Past => Datetime::from_instant(instant.sub_duration(offset.secs, offset.nanos)),
            Era::Present => Datetime::from_instant(instant.add_duration(offset.secs, offset.nanos)),
        }
    }

    /// Converts this date time to UTC.
    pub fn to_utc(self) -> (r: Datetime)
        requires
            self.wf(),
            self.spec_offset().wf(),
            Instant::fits(self.instant_value()),
            year_fits(self.instant_value()),
        ensures
            r == datetime_of_instant(Instant::of_value(self.instant_value())),
            r.wf(),
    {
        let utc = FixedOffset::east_with_hours(0);
        proof {
            assert(utc@ == 0);
        }
        self.to_offset(utc)
    }

    /// Adds the given seconds and nanoseconds to this date time (its instant is moved forward,
    /// then converted back to a date time whose offset is that of UTC).
    pub fn add_seconds(self, secs: u64, nanos: u32) -> (r: Datetime)
        requires
            self.wf(),
            self.spec_offset().wf(),
            nanos < 1_000_000_000,
            Instant::fits(self.instant_value()),
            Instant::fits(self.instant_value() + secs * 1_000_000_000 + nanos),
            year_fits(self.instant_value() + secs * 1_000_000_000 + nanos),
        ensures
            r == datetime_of_instant(
                Instant::of_value(self.instant_value() + secs * 1_000_000_000 + nanos),
            ),
            r.wf(),
    {
        let instant = self.into_instant();
        proof {
            lemma_of_value(self.instant_value());
        }
        Datetime::from_instant(instant.add_duration(secs, nanos))
    }

    /// Subtracts the given seconds and nanoseconds from this date time (its instant is moved
    /// backward, then converted back to a date time whose offset is that of UTC).
    pub fn sub_seconds(self, secs: u64, nanos: u32) -> (r: Datetime)
        requires
            self.wf(),
            self.spec_offset().wf(),
            nanos < 1_000_000_000,
            Instant::fits(self.instant_value()),
            Instant::fits(self.instant_value() - secs * 1_000_000_000 - nanos),
            year_fits(self.instant_value() - secs * 1_000_000_000 - nanos),
        ensures
            r == datetime_of_instant(
                Instant::of_value(self.instant_value() - secs * 1_000_000_000 - nanos),
            ),
            r.wf(),
    {
        let instant = self.into_instant();
        proof {
            lemma_of_value(self.instant_value());
        }
        Datetime::from_instant(instant.sub_duration(secs, nanos))
    }
}


/// A leap second shares its instant with the second before it: the date time of a 60th second
/// and that of the 59th second of the same minute have the same instant.
pub proof fn law_leap_second_instant(leap: Datetime, before: Datetime)
    requires
        leap.wf(),
        leap.spec_second() == 60,
        before.has_fields(
            leap.spec_year(),
            leap.spec_month(),
            leap.spec_day(),
            leap.spec_hour(),
            leap.spec_minute(),
            59,
            leap.spec_nanos(),
            leap.spec_offset(),
        ),
    ensures
        before.wf(),
        leap.instant_value() == before.instant_value(),
{
}

/// Negating an offset negates its value, and negating twice gives the offset back.
pub proof fn law_offset_negation(o: Instant)
    ensures
        o.negated()@ == -o@,
        o.negated().negated() == o,
{
}

/// Moving an instant forward then backward by the same duration gives the instant back (when
/// both moves stay within what an instant holds).
pub proof fn law_instant_add_then_sub(i: Instant, secs: u64, nanos: u32)
    requires
        i.wf(),
        nanos < 1_000_000_000,
        Instant::fits(i@ + secs * 1_000_000_000 + nanos),
    ensures
        Instant::fits(Instant::of_value(i@ + secs * 1_000_000_000 + nanos)@ - secs * 1_000_000_000
            - nanos),
        Instant::of_value(
            Instant::of_value(i@ + secs * 1_000_000_000 + nanos)@ - secs * 1_000_000_000 - nanos,
        ) == Instant::of_value(i@),
{
    lemma_of_value(i@ + secs * 1_000_000_000 + nanos);
}

/// The offset of UTC is zero, in the present era.
pub proof fn lemma_utc_offset()
    ensures
        utc_offset()@ == 0,
        utc_offset().wf(),
        utc_offset().spec_secs() == 0,
        utc_offset().spec_nanos() == 0,
        utc_offset().spec_era() == Era::Present,
{
}

/// An offset is that of UTC exactly when it holds no seconds and no nanoseconds in the
/// present era (what `FixedOffset::west_with_hours(0)` and `east_with_hours(0)` give).
pub proof fn lemma_is_utc_offset(o: Offset)
    ensures
        (o == utc_offset()) <==> (o.spec_secs() == 0 && o.spec_nanos() == 0 && o.spec_era()
            == Era::Present),
{
}

/// A date time is determined by its fields: two date times with the same date, time and offset
/// are the same date time.
pub proof fn lemma_same_fields(a: Datetime, b: Datetime)
    requires
        a.spec_year() == b.spec_year(),
        a.spec_month() == b.spec_month(),
        a.spec_day() == b.spec_day(),
        a.spec_hour() == b.spec_hour(),
        a.spec_minute() == b.spec_minute(),
        a.spec_second() == b.spec_second(),
        a.spec_nanos() == b.spec_nanos(),
        a.spec_offset() == b.spec_offset(),
    ensures
        a == b,
{
}

/// The constructors agree: building a date time with an offset of no seconds and no
/// nanoseconds in the present era (`Datetime::with_offset` with
/// `FixedOffset::west_with_hours(0)`) gives what `Datetime::new` gives, and `at_midnight` and
/// `at_noon` give what `new` gives at 00:00:00 and 12:00:00.
pub proof fn law_constructors_agree(
    year: i32,
    month: u8,
    day: u8,
    hour: u8,
    minute: u8,
    second: u8,
    nanos: u32,
    o: Offset,
)
    requires
        o.spec_secs() == 0,
        o.spec_nanos() == 0,
        o.spec_era() == Era::Present,
    ensures
        Datetime::built(year, month, day, hour, minute, second, nanos, o) == Datetime::built(
            year,
            month,
            day,
            hour,
            minute,
            second,
            nanos,
            utc_offset(),
        ),
        Datetime::built(year, month, day, 0, 0, 0, 0, o) == Datetime::built(year, month, day, 0, 0, 0, 0, utc_offset()),
        Datetime::built(year, month, day, 12, 0, 0, 0, o) == Datetime::built(year, month, day, 12, 0, 0, 0, utc_offset()),
{
}

/// Building a date time gives one of the given fields when they are a valid date and time,
/// and the error of a date that would need a carry otherwise.
pub proof fn lemma_built(
    year: i32,
    month: u8,
    day: u8,
    hour: u8,
    minute: u8,
    second: u8,
    nanos: u32,
    offset: Offset,
)
    ensures
        gregorian_valid(
            year as int,
            month as int,
            day as int,
            hour as int,
            minute as int,
            second as int,
            nanos as int,
        ) ==> (Datetime::built(year, month, day, hour, minute, second, nanos, offset) matches Ok(dt)
            && dt.has_fields(year, month, day, hour, minute, second, nanos, offset) && dt.wf()),
        !gregorian_valid(
            year as int,
            month as int,
            day as int,
            hour as int,
            minute as int,
            second as int,
            nanos as int,
        ) ==> Datetime::built(year, month, day, hour, minute, second, nanos, offset) == Err::<
            Datetime,
            Errors,
        >(Errors::Carry),
{
}

/// A date time with the given fields answers them, and is well formed exactly when they are a
/// valid date and time.
pub proof fn lemma_has_fields(
    dt: Datetime,
    year: i32,
    month: u8,
    day: u8,
    hour: u8,
    minute: u8,
    second: u8,
    nanos: u32,
    offset: Offset,
)
    requires
        dt.has_fields(year, month, day, hour, minute, second, nanos, offset),
    ensures
        dt.spec_year() == year,
        dt.spec_month() == month,
        dt.spec_day() == day,
        dt.spec_hour() == hour,
        dt.spec_minute() == minute,
        dt.spec_second() == second,
        dt.spec_nanos() == nanos,
        dt.spec_offset() == offset,
        dt.wf() <==> gregorian_valid(
            year as int,
            month as int,
            day as int,
            hour as int,
            minute as int,
            second as int,
            nanos as int,
        ),
        dt.instant_value() == datetime_seconds(
            year as int,
            month as int,
            day as int,
            hour as int,
            minute as int,
            second as int,
        ) * 1_000_000_000 + nanos + offset@,
{
}

/// The date time built from an instant whose year fits a date time holds the date and time of its
/// nanoseconds since 1900-01-01, with the offset of UTC.
pub proof fn lemma_datetime_of_instant(i: Instant)
    requires
        i.wf(),
        year_fits(i@),
    ensures
        ({
            let p = instant_date(i@);
            datetime_of_instant(i).has_fields(
                p.0 as i32,
                p.1 as u8,
                p.2 as u8,
                p.3 as u8,
                p.4 as u8,
                p.5 as u8,
                p.6 as u32,
                utc_offset(),
            ) && p.0 == p.0 as i32 && p.1 == p.1 as u8 && p.2 == p.2 as u8 && p.3 == p.3 as u8
                && p.4 == p.4 as u8 && p.5 == p.5 as u8 && p.6 == p.6 as u32
        }),
        datetime_of_instant(i).wf(),
{
    lemma_instant_date(i@);
}

/// Whether the date and time of `a` come at or before those of `b`, compared field by field
/// from the year to the nanoseconds.
pub open spec fn fields_at_or_before(a: Datetime, b: Datetime) -> bool {
    let ka = (a.spec_year() as int, a.spec_month() as int, a.spec_day() as int);
    let kb = (b.spec_year() as int, b.spec_month() as int, b.spec_day() as int);
    let ta = (a.spec_hour() as int, a.spec_minute() as int, a.spec_second() as int, a.spec_nanos() as int);
    let tb = (b.spec_hour() as int, b.spec_minute() as int, b.spec_second() as int, b.spec_nanos() as int);
    ||| ka.0 < kb.0
    ||| ka.0 == kb.0 && ka.1 < kb.1
    ||| ka.0 == kb.0 && ka.1 == kb.1 && ka.2 < kb.2
    ||| ka == kb && ta.0 < tb.0
    ||| ka == kb && ta.0 == tb.0 && ta.1 < tb.1
    ||| ka == kb && ta.0 == tb.0 && ta.1 == tb.1 && ta.2 < tb.2
    ||| ka == kb && ta.0 == tb.0 && ta.1 == tb.1 && ta.2 == tb.2 && ta.3 <= tb.3
}

/// The first of January of a year comes at or before that of a later year.
pub proof fn lemma_year_start_mono(x: int, y: int)
    requires
        x <= y,
    ensures
        year_start_days(x) <= year_start_days(y),
        x < y ==> year_start_days(x + 1) <= year_start_days(y),
    decreases y - x,
{
    if x < y {
        lemma_year_start_mono(x + 1, y);
        lemma_year_start_step(x);
    }
}

/// Later dates give later days since 1900-01-01.
proof fn lemma_days_order(a: Datetime, b: Datetime)
    requires
        a.wf(),
        b.wf(),
        (a.year, a.month, a.day) != (b.year, b.month, b.day),
        fields_at_or_before(a, b),
    ensures
        datetime_days(a.year as int, a.month as int, a.day as int) < datetime_days(
            b.year as int,
            b.month as int,
            b.day as int,
        ),
{
    let la = is_leap(a.year as int);
    let lb = is_leap(b.year as int);
    lemma_days_before_month_bound(la, a.month as int);
    lemma_days_before_month_mono(la, a.month as int + 1, 13);
    lemma_year_days(la);
    lemma_days_before_month_bound(lb, b.month as int);
    if a.year < b.year {
        lemma_year_start_mono(a.year as int, b.year as int);
        lemma_year_start_step(a.year as int);
    } else if a.month < b.month {
        lemma_days_before_month_mono(la, a.month as int + 1, b.month as int);
    }
}

/// Later date times give later instants: comparing two valid date times of the same offset
/// field by field, from the year to the nanoseconds, orders their instants the same way, a
/// 60th second counting as the 59th. The one exception is a 59th second with more nanoseconds
/// before the 60th second of the same minute (23:59:59.9 comes before 23:59:60.0, whose
/// instant is 23:59:59.0), which is left out.
pub proof fn law_instant_order(a: Datetime, b: Datetime)
    requires
        a.wf(),
        b.wf(),
        a.spec_offset() == b.spec_offset(),
        fields_at_or_before(a, b),
        !(a.spec_year() == b.spec_year() && a.spec_month() == b.spec_month() && a.spec_day()
            == b.spec_day() && a.spec_hour() == b.spec_hour() && a.spec_minute() == b.spec_minute()
            && a.spec_second() == 59 && b.spec_second() == 60 && a.spec_nanos() > b.spec_nanos()),
    ensures
        a.instant_value() <= b.instant_value(),
{
    let sa = a.second - (if a.second == 60 {
        1int
    } else {
        0int
    });
    let sb = b.second - (if b.second == 60 {
        1int
    } else {
        0int
    });
    assert(0 <= sa <= 59 && 0 <= sb <= 59);
    if (a.year, a.month, a.day) != (b.year, b.month, b.day) {
        lemma_days_order(a, b);
    }
}

/// Converting a valid UTC date time without a 60th second into an instant, then that instant
/// back into a date time, gives the date time back, for every year.
pub proof fn law_instant_round_trip(dt: Datetime)
    requires
        dt.wf(),
        dt.spec_offset() == utc_offset(),
        dt.spec_second() < 60,
    ensures
        Instant::fits(dt.instant_value()),
        year_fits(dt.instant_value()),
        datetime_of_instant(Instant::of_value(dt.instant_value())) == dt,
{
    let y = dt.year as int;
    let leap = is_leap(y);
    let doy = days_before_month(leap, dt.month as int) + dt.day - 1;
    lemma_days_before_month_bound(leap, dt.month as int);
    lemma_days_before_month_mono(leap, dt.month as int + 1, 13);
    lemma_year_days(leap);
    assert(0 <= doy < year_length(y));
    let days = year_start_days(y) + doy;
    if y >= 1900 {
        lemma_leaps_nonneg(y);
    } else {
        lemma_leaps_nonpos(y);
    }
    let tod = dt.hour * 3600 + dt.minute * 60 + dt.second;
    let secs = days * spd() + tod;
    let v = secs * 1_000_000_000 + dt.nanos;
    assert(dt.instant_value() == v);
    assert(Instant::fits(v));
    lemma_of_value(v);
    vstd::arithmetic::div_mod::lemma_fundamental_div_mod_converse(v, 1_000_000_000, secs, dt.nanos as int);
    vstd::arithmetic::div_mod::lemma_fundamental_div_mod_converse(secs, spd(), days, tod);
    lemma_year_and_day_inverse(y, doy);
    lemma_month_of(leap, dt.month as int, dt.day as int);
    vstd::arithmetic::div_mod::lemma_fundamental_div_mod_converse(tod, 3600, dt.hour as int, dt.minute * 60 + dt.second);
    vstd::arithmetic::div_mod::lemma_fundamental_div_mod_converse(dt.minute * 60 + dt.second, 60, dt.minute as int, dt.second as int);
    vstd::arithmetic::div_mod::lemma_fundamental_div_mod_converse(tod, 60, dt.hour * 60 + dt.minute, dt.second as int);
}



/// The byte ranges of the first `groups` capture groups of a regular expression in a text
/// (`None` for a group that took part in no match), if the text matches it (what
/// `regex::Regex::captures` finds).
pub uninterp spec fn regex_groups(pattern: Seq<char>, s: Seq<char>, groups: nat) -> Option<Seq<Option<(int, int)>>>;

/// The ISO8601 date time pattern, with nine groups: year, month, day, hour, minute, second,
/// the whole offset, the offset hours and the offset minutes.
pub open spec fn iso8601_pattern() -> Seq<char> {
    "^(\\d{4})-(\\d{2})-(\\d{2})(?:T|\\W)(\\d{2}):(\\d{2}):(\\d{2})(([\\+|-]\\d{2}):(\\d{2}))?$"@
}

/// The byte ranges of the nine groups of the ISO8601 date time pattern in a text, if the text
/// matches it.
pub open spec fn iso8601_groups(s: Seq<char>) -> Option<Seq<Option<(int, int)>>> {
    regex_groups(iso8601_pattern(), s, 9)
}

/// Byte ranges as integers.
pub open spec fn opt_ranges_view(v: Seq<Option<(usize, usize)>>) -> Seq<Option<(int, int)>> {
    Seq::new(
        v.len(),
        |i: int|
            match v[i] {
                Some((a, e)) => Some((a as int, e as int)),
                None => None,
            },
    )
}

/// Compiles a regular expression with `regex::Regex::new` and matches a text against it with
/// `regex::Regex::captures`; returns the byte range of each of its first `groups` capture
/// groups (`None` when the pattern does not compile or the text does not match).
///
/// The contract names the outcome. From the crate's documentation it states that there are
/// as many ranges as groups asked for, and that each range found lies within the text and on
/// character boundaries.
#[verifier::external_body]
fn regex_captures(pattern: &str, s: &str, groups: usize) -> (r: Option<Vec<Option<(usize, usize)>>>)
    ensures
        match r {
            None => regex_groups(pattern@, s@, groups as nat) is None,
            Some(v) => {
                &&& regex_groups(pattern@, s@, groups as nat) == Some(opt_ranges_view(v@))
                &&& v@.len() == groups
                &&& forall|k: int|
                    0 <= k < groups ==> (#[trigger] v@[k] matches Some((a, e)) ==> a <= e
                        <= s.spec_bytes().len() && is_char_boundary(s.spec_bytes(), a as int)
                        && is_char_boundary(s.spec_bytes(), e as int))
            },
        },
{
    let re = regex::Regex::new(pattern).ok()?;
    let caps = re.captures(s)?;
    Some((1..=groups).map(|i| caps.get(i).map(|m| (m.start(), m.end()))).collect())
}

/// The text of a group of a text of bytes `b`.
pub open spec fn group_text(b: Seq<u8>, g: Option<(int, int)>) -> Seq<char> {
    match g {
        Some((a, e)) => decode_utf8(b.subrange(a, e)),
        None => Seq::empty(),
    }
}

/// The message of a text that does not match the ISO8601 date time pattern.
pub open spec fn not_iso8601_message() -> Seq<char> {
    "Input not in ISO8601 format with offset (e.g. 2018-01-27T00:41:55+03:00)"@
}

/// The message of a group that does not read as an integer.
pub open spec fn not_integer_message() -> Seq<char> {
    "invalid integer in date time"@
}

/// Whether the hours of an offset start with a minus sign.
pub open spec fn minus_hours(b: Seq<u8>, g: Option<(int, int)>) -> bool {
    g matches Some((a, e)) && a < e && b[a] == 45
}

/// The offset read from the groups of a text: none gives UTC, else the seconds of the hours
/// and minutes, in the past when the hours carry a minus sign (`-00:30` too).
pub closed spec fn groups_offset(b: Seq<u8>, g: Seq<Option<(int, int)>>) -> Option<Offset> {
    if g[6] is None {
        Some(Instant { secs: 0, nanos: 0, era: Era::Present })
    } else {
        match (std_i32(group_text(b, g[7])), std_i32(group_text(b, g[8]))) {
            (Some(h), Some(m)) => Some(
                if minus_hours(b, g[7]) {
                    Instant { secs: (-3600 * h + 60 * m) as u64, nanos: 0, era: Era::Past }
                } else {
                    Instant { secs: (3600 * h + 60 * m) as u64, nanos: 0, era: Era::Present }
                },
            ),
            _ => None,
        }
    }
}

/// The offset read from the groups of a text: UTC without an offset group; otherwise, when
/// its hours and minutes read as integers, the seconds of the hours and minutes in the past
/// era after a minus sign and in the present era otherwise; none when they do not read.
pub proof fn lemma_groups_offset(b: Seq<u8>, g: Seq<Option<(int, int)>>)
    ensures
        g[6] is None ==> groups_offset(b, g) == Some(utc_offset()),
        g[6] is Some ==> (groups_offset(b, g) is Some <==> (std_i32(group_text(b, g[7])) is Some
            && std_i32(group_text(b, g[8])) is Some)),
        ({
            let h = std_i32(group_text(b, g[7]))->Some_0 as int;
            let m = std_i32(group_text(b, g[8]))->Some_0 as int;
            g[6] is Some && groups_offset(b, g) is Some ==> {
                let o = groups_offset(b, g)->Some_0;
                &&& o.spec_nanos() == 0
                &&& o.spec_era() == if minus_hours(b, g[7]) {
                    Era::Past
                } else {
                    Era::Present
                }
                &&& o.spec_secs() == if minus_hours(b, g[7]) {
                    (-3600 * h + 60 * m) as u64
                } else {
                    (3600 * h + 60 * m) as u64
                }
            }
        }),
{
}

/// The date time read from the groups of a text of bytes `b` that matched the ISO8601
/// pattern, or the error: the message of a group that does not read as an integer, or `None`
/// for a date that is not valid.
pub closed spec fn groups_datetime(b: Seq<u8>, g: Seq<Option<(int, int)>>) -> Result<
    Datetime,
    Option<Seq<char>>,
> {
    match groups_offset(b, g) {
        None => Err(Some(not_integer_message())),
        Some(offset) => match (
            std_i32(group_text(b, g[0])),
            std_u8(group_text(b, g[1])),
            std_u8(group_text(b, g[2])),
            std_u8(group_text(b, g[3])),
            std_u8(group_text(b, g[4])),
            std_u8(group_text(b, g[5])),
        ) {
            (Some(year), Some(month), Some(day), Some(hour), Some(minute), Some(second)) => {
                if gregorian_valid(
                    year as int,
                    month as int,
                    day as int,
                    hour as int,
                    minute as int,
                    second as int,
                    0,
                ) {
                    Ok(Datetime { year, month, day, hour, minute, second, nanos: 0, offset })
                } else {
                    Err(None)
                }
            },
            _ => Err(Some(not_integer_message())),
        },
    }
}

/// The date time read from a text, or the error: the message of a text that cannot be read,
/// or `None` for a date that is not valid.
pub closed spec fn datetime_text(s: Seq<char>) -> Result<Datetime, Option<Seq<char>>> {
    match iso8601_groups(s) {
        None => Err(Some(not_iso8601_message())),
        Some(g) => groups_datetime(encode_utf8(s), g),
    }
}

/// A text that does not match the ISO8601 pattern is not read; a text that matches it reads
/// as its groups do.
pub proof fn lemma_datetime_text(s: Seq<char>)
    ensures
        iso8601_groups(s) is None ==> datetime_text(s) == Err::<Datetime, Option<Seq<char>>>(
            Some(not_iso8601_message()),
        ),
        iso8601_groups(s) matches Some(g) ==> datetime_text(s) == groups_datetime(
            encode_utf8(s),
            g,
        ),
{
}

/// The groups of a text read as the date time of the integers of the year, month, day, hour,
/// minute and second groups, with no nanoseconds and the offset read, when they all read and
/// make a valid date and time; as `None` when they read but make no valid date; and as the
/// message of a group that does not read as an integer otherwise.
pub proof fn lemma_groups_datetime(b: Seq<u8>, g: Seq<Option<(int, int)>>)
    ensures
        ({
            let year = std_i32(group_text(b, g[0]));
            let month = std_u8(group_text(b, g[1]));
            let day = std_u8(group_text(b, g[2]));
            let hour = std_u8(group_text(b, g[3]));
            let minute = std_u8(group_text(b, g[4]));
            let second = std_u8(group_text(b, g[5]));
            let all_read = year is Some && month is Some && day is Some && hour is Some
                && minute is Some && second is Some;
            &&& (groups_offset(b, g) is None || !all_read) ==> groups_datetime(b, g) == Err::<
                Datetime,
                Option<Seq<char>>,
            >(Some(not_integer_message()))
            &&& (groups_offset(b, g) is Some && all_read) ==> {
                let valid = gregorian_valid(
                    year->Some_0 as int,
                    month->Some_0 as int,
                    day->Some_0 as int,
                    hour->Some_0 as int,
                    minute->Some_0 as int,
                    second->Some_0 as int,
                    0,
                );
                &&& !valid ==> groups_datetime(b, g) == Err::<Datetime, Option<Seq<char>>>(None)
                &&& valid ==> (groups_datetime(b, g) matches Ok(dt) && dt.has_fields(
                    year->Some_0,
                    month->Some_0,
                    day->Some_0,
                    hour->Some_0,
                    minute->Some_0,
                    second->Some_0,
                    0,
                    groups_offset(b, g)->Some_0,
                ) && dt.wf())
            }
        }),
{
}

/// The text of a group of the text (empty when the group did not match).
fn group_str<'a>(s: &'a str, g: Option<(usize, usize)>) -> (r: &'a str)
    requires
        g matches Some((a, e)) ==> a <= e <= s.spec_bytes().len() && is_char_boundary(
            s.spec_bytes(),
            a as int,
        ) && is_char_boundary(s.spec_bytes(), e as int),
    ensures
        r@ == group_text(
            s.spec_bytes(),
            match g {
                Some((a, e)) => Some((a as int, e as int)),
                None => None,
            },
        ),
{
    match g {
        Some((a, e)) => {
            proof {
                vstd::utf8::encode_utf8_valid_utf8(s@);
                crate::text::lemma_boundary_in_suffix(s.spec_bytes(), a as int, e as int);
            }
            let (_, tail) = s.split_at(a);
            let (sub, _) = tail.split_at(e - a);
            proof {
                vstd::utf8::encode_utf8_decode_utf8(sub@);
                assert(sub.spec_bytes() =~= s.spec_bytes().subrange(a as int, e as int));
            }
            sub
        },
        None => {
            let r = "";
            proof {
                reveal_strlit("");
            }
            r
        },
    }
}

impl Datetime {
    /// Reads a date time from the byte ranges of the nine groups of the ISO8601 pattern in a
    /// text (year, month, day, hour, minute, second, the whole offset, the offset hours and the
    /// offset minutes): each group must read as an integer, then the date and time must be
    /// valid; the offset, when present, is negative after a minus sign.
    pub fn from_groups(s: &str, cap: &[Option<(usize, usize)>]) -> (r: Result<Datetime, Errors>)
        requires
            cap@.len() == 9,
            forall|k: int|
                0 <= k < 9 ==> (#[trigger] cap@[k] matches Some((a, e)) ==> a <= e
                    <= s.spec_bytes().len() && is_char_boundary(s.spec_bytes(), a as int)
                    && is_char_boundary(s.spec_bytes(), e as int)),
        ensures
            match groups_datetime(s.spec_bytes(), opt_ranges_view(cap@)) {
                Ok(dt) => r == Ok::<Datetime, Errors>(dt),
                Err(None) => r == Err::<Datetime, Errors>(Errors::Carry),
                Err(Some(m)) => r matches Err(Errors::ParseError(msg)) && msg@ == m,
            },
    {
        let offset = match cap[6] {
            Some(_) => {
                let offset_hours = match parse_std_i32(group_str(s, cap[7])) {
                    Some(v) => v,
                    None => {
                        return Err(Errors::ParseError(String::from_str("invalid integer in date time")));
                    },
                };
                let offset_mins = match parse_std_i32(group_str(s, cap[8])) {
                    Some(v) => v,
                    None => {
                        return Err(Errors::ParseError(String::from_str("invalid integer in date time")));
                    },
                };
                // A minus sign makes the offset negative, even with zero hours: the
                // seconds of the offset are then those of the opposite of the hours.
                let minus: bool = match cap[7] {
                    Some((a, e)) => a < e && s.as_bytes()[a] == 45u8,
                    None => false,
                };
                if minus {
                    let secs: i64 = -3600 * (offset_hours as i64) + 60 * (offset_mins as i64);
                    Instant { secs: secs as u64, nanos: 0, era: Era::Past }
                } else {
                    let secs: i64 = 3600 * (offset_hours as i64) + 60 * (offset_mins as i64);
                    Instant { secs: secs as u64, nanos: 0, era: Era::Present }
                }
            },
            None => Instant { secs: 0, nanos: 0, era: Era::Present },
        };
        let year = parse_std_i32(group_str(s, cap[0]));
        let month = parse_std_u8(group_str(s, cap[1]));
        let day = parse_std_u8(group_str(s, cap[2]));
        let hour = parse_std_u8(group_str(s, cap[3]));
        let minute = parse_std_u8(group_str(s, cap[4]));
        let second = parse_std_u8(group_str(s, cap[5]));
        match (year, month, day, hour, minute, second) {
            (Some(year), Some(month), Some(day), Some(hour), Some(minute), Some(second)) => {
                Datetime::with_offset(year, month, day, hour, minute, second, 0, offset)
            },
            _ => Err(Errors::ParseError(String::from_str("invalid integer in date time"))),
        }
    }

    /// Converts an ISO8601 Datetime representation with offset to a `Datetime` object with
    /// correct offset. The `T` which separates the date from the time can be replaced with a
    /// single non word character. The offset is also optional.
    pub fn from_text(s: &str) -> (r: Result<Datetime, Errors>)
        ensures
            match datetime_text(s@) {
                Ok(dt) => r == Ok::<Datetime, Errors>(dt),
                Err(None) => r == Err::<Datetime, Errors>(Errors::Carry),
                Err(Some(m)) => r matches Err(Errors::ParseError(msg)) && msg@ == m,
            },
    {
        let pattern = "^(\\d{4})-(\\d{2})-(\\d{2})(?:T|\\W)(\\d{2}):(\\d{2}):(\\d{2})(([\\+|-]\\d{2}):(\\d{2}))?$";
        proof {
            assert(pattern@ == iso8601_pattern());
        }
        match regex_captures(pattern, s, 9) {
            Some(cap) => {
                proof {
                    vstd::utf8::encode_utf8_valid_utf8(s@);
                }
                Datetime::from_groups(s, cap.as_slice())
            },
            None => Err(
                Errors::ParseError(
                    String::from_str(
                        "Input not in ISO8601 format with offset (e.g. 2018-01-27T00:41:55+03:00)",
                    ),
                ),
            ),
        }
    }
}

impl core::str::FromStr for Datetime {
    type Err = Errors;

    /// Converts an ISO8601 Datetime representation with offset to a `Datetime` object with
    /// correct offset (see `Datetime::from_text`).
    fn from_str(s: &str) -> (r: Result<Self, Self::Err>)
        ensures
            match datetime_text(s@) {
                Ok(dt) => r == Ok::<Datetime, Errors>(dt),
                Err(None) => r == Err::<Datetime, Errors>(Errors::Carry),
                Err(Some(m)) => r matches Err(Errors::ParseError(msg)) && msg@ == m,
            },
    {
        Datetime::from_text(s)
    }
}

} // verus!
