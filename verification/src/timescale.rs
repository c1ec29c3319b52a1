use vstd::prelude::*;

use crate::duration::Duration;
use crate::errors::ParsingError;
use crate::text::{chars_of, trim, trimmed};

verus! {

/// Enum of the different time systems available
#[derive(Clone, Copy, Debug, PartialEq, Eq, Hash, Structural)]
pub enum TimeScale {
    /// International Atomic Time
    TAI,
    /// Terrestrial Time (TT) (previously called Terrestrial Dynamical Time (TDT))
    TT,
    /// Ephemeris Time as defined by SPICE (slightly different from true TDB)
    ET,
    /// Dynamic Barycentric Time (TDB) (higher fidelity SPICE ephemeris time)
    TDB,
    /// Universal Coordinated Time
    UTC,
    /// GPS Time scale whose reference epoch is UTC midnight between 05 January and 06 January 1980; cf. <https://gssc.esa.int/navipedia/index.php/Time_References_in_GNSS#GPS_Time_.28GPST.29>. |UTC - TAI| = 19 Leap Seconds on that day.
    GPST,
    /// Galileo Time scale
    GST,
    /// BeiDou Time scale
    BDT,
    /// QZSS Time scale has the same properties as GPST but with dedicated clocks
    QZSST,
}

/// Seconds from 1900-01-01T00:00:00 to the Gregorian date that each time scale counts from.
pub open spec fn gregorian_offset_seconds(ts: TimeScale) -> int {
    match ts {
        TimeScale::ET | TimeScale::TDB => 3_155_716_800,
        TimeScale::GPST | TimeScale::QZSST => 2_524_953_600,
        TimeScale::GST => 3_144_268_800,
        TimeScale::BDT => 3_345_062_400,
        _ => 0,
    }
}

/// The length of the name of a time scale: `QZSST`, `GPST`, `TAI`, `TDB`, `UTC`, `GST`, `BDT`,
/// `ET`, `TT`.
pub open spec fn name_length(ts: TimeScale) -> int {
    match ts {
        TimeScale::QZSST => 5,
        TimeScale::GPST => 4,
        TimeScale::ET | TimeScale::TT => 2,
        _ => 3,
    }
}

/// The time scale named by a text, if any.
pub open spec fn time_scale_named(s: Seq<char>) -> Option<TimeScale> {
    if s == "UTC"@ {
        Some(TimeScale::UTC)
    } else if s == "TT"@ {
        Some(TimeScale::TT)
    } else if s == "TAI"@ {
        Some(TimeScale::TAI)
    } else if s == "TDB"@ {
        Some(TimeScale::TDB)
    } else if s == "ET"@ {
        Some(TimeScale::ET)
    } else if s == "GPST"@ || s == "GPS"@ {
        Some(TimeScale::GPST)
    } else if s == "QZSST"@ || s == "QZSS"@ {
        Some(TimeScale::QZSST)
    } else if s == "GST"@ || s == "GAL"@ {
        Some(TimeScale::GST)
    } else if s == "BDT"@ || s == "BDS"@ {
        Some(TimeScale::BDT)
    } else {
        None
    }
}

/// Whether a slice of characters spells the given text.
pub fn chars_equal(a: &[char], b: &str) -> (r: bool)
    ensures
        r == (a@ == b@),
{
    let bc = chars_of(b);
    if a.len() != bc.len() {
        return false;
    }
    let mut i: usize = 0;
    while i < a.len()
        invariant
            i <= a.len(),
            a@.len() == bc@.len(),
            bc@ == b@,
            forall|j: int| 0 <= j < i ==> a@[j] == bc@[j],
        decreases a.len() - i,
    {
        if a[i] != bc[i] {
            return false;
        }
        i = i + 1;
    }
    assert(a@ =~= b@);
    true
}

impl TimeScale {
    /// Returns the duration from 1900-01-01T00:00:00 to the Gregorian date this time scale
    /// counts from (J2000 at noon for ET and TDB, the GNSS reference dates for GPST, QZSST, GST
    /// and BDT, zero otherwise).
    pub fn gregorian_epoch_offset(&self) -> (d: Duration)
        ensures
            d.wf(),
            d@ == gregorian_offset_seconds(*self) * 1_000_000_000,
    {
        match self {
            TimeScale::ET | TimeScale::TDB => Duration::from_parts(0, 3_155_716_800_000_000_000),
            TimeScale::GPST | TimeScale::QZSST => Duration::from_parts(0, 2_524_953_600_000_000_000),
            TimeScale::GST => Duration::from_parts(0, 3_144_268_800_000_000_000),
            TimeScale::BDT => Duration::from_parts(0, 3_345_062_400_000_000_000),
            _ => Duration::zero(),
        }
    }

    /// Returns true if self takes leap seconds into account
    pub fn uses_leap_seconds(&self) -> (r: bool)
        ensures
            r == (*self == TimeScale::UTC),
    {
        matches!(self, TimeScale::UTC)
    }

    /// The number of characters in the name of this time scale, as it is written after a date.
    pub fn formatted_len(&self) -> (r: usize)
        ensures
            r == name_length(*self),
    {
        match self {
            TimeScale::QZSST => 5,
            TimeScale::GPST => 4,
            TimeScale::TAI | TimeScale::TDB | TimeScale::UTC | TimeScale::GST | TimeScale::BDT => 3,
            TimeScale::ET | TimeScale::TT => 2,
        }
    }

    /// Returns true if Self is based off a GNSS constellation
    pub fn is_gnss(&self) -> (r: bool)
        ensures
            r == (*self == TimeScale::GPST || *self == TimeScale::GST || *self == TimeScale::BDT
                || *self == TimeScale::QZSST),
    {
        matches!(self, TimeScale::GPST | TimeScale::GST | TimeScale::BDT | TimeScale::QZSST)
    }

    /// Parses the name of a time scale (without surrounding white space).
    pub fn from_chars(s: &[char]) -> (r: Result<TimeScale, ParsingError>)
        ensures
            match time_scale_named(s@) {
                Some(ts) => r == Ok::<TimeScale, ParsingError>(ts),
                None => r == Err::<TimeScale, ParsingError>(ParsingError::TimeSystem),
            },
    {
        if chars_equal(s, "UTC") {
            Ok(TimeScale::UTC)
        } else if chars_equal(s, "TT") {
            Ok(TimeScale::TT)
        } else if chars_equal(s, "TAI") {
            Ok(TimeScale::TAI)
        } else if chars_equal(s, "TDB") {
            Ok(TimeScale::TDB)
        } else if chars_equal(s, "ET") {
            Ok(TimeScale::ET)
        } else if chars_equal(s, "GPST") || chars_equal(s, "GPS") {
            Ok(TimeScale::GPST)
        } else if chars_equal(s, "QZSST") || chars_equal(s, "QZSS") {
            Ok(TimeScale::QZSST)
        } else if chars_equal(s, "GST") || chars_equal(s, "GAL") {
            Ok(TimeScale::GST)
        } else if chars_equal(s, "BDT") || chars_equal(s, "BDS") {
            Ok(TimeScale::BDT)
        } else {
            Err(ParsingError::TimeSystem)
        }
    }

    /// Parses the name of a time scale, ignoring surrounding white space.
    pub fn from_text(s: &str) -> (r: Result<TimeScale, ParsingError>)
        ensures
            match time_scale_named(trimmed(s@)) {
                Some(ts) => r == Ok::<TimeScale, ParsingError>(ts),
                None => r == Err::<TimeScale, ParsingError>(ParsingError::TimeSystem),
            },
    {
        let v = chars_of(trim(s));
        Self::from_chars(v.as_slice())
    }
}

impl core::str::FromStr for TimeScale {
    type Err = ParsingError;

    fn from_str(s: &str) -> (r: Result<TimeScale, ParsingError>)
        ensures
            match time_scale_named(trimmed(s@)) {
                Some(ts) => r == Ok::<TimeScale, ParsingError>(ts),
                None => r == Err::<TimeScale, ParsingError>(ParsingError::TimeSystem),
            },
    {
        Self::from_text(s)
    }
}


/// The number of a time scale, in the order of declaration.
pub open spec fn time_scale_number(ts: TimeScale) -> u8 {
    match ts {
        TimeScale::TAI => 0,
        TimeScale::TT => 1,
        TimeScale::ET => 2,
        TimeScale::TDB => 3,
        TimeScale::UTC => 4,
        TimeScale::GPST => 5,
        TimeScale::GST => 6,
        TimeScale::BDT => 7,
        TimeScale::QZSST => 8,
    }
}

/// The time scale of a number (UTC for a number that names none).
pub open spec fn time_scale_of_number(v: u8) -> TimeScale {
    if v == 0 {
        TimeScale::TAI
    } else if v == 1 {
        TimeScale::TT
    } else if v == 2 {
        TimeScale::ET
    } else if v == 3 {
        TimeScale::TDB
    } else if v == 5 {
        TimeScale::GPST
    } else if v == 6 {
        TimeScale::GST
    } else if v == 7 {
        TimeScale::BDT
    } else if v == 8 {
        TimeScale::QZSST
    } else {
        TimeScale::UTC
    }
}

impl From<TimeScale> for u8 {
    /// The number of a time scale, in the order of declaration.
    fn from(ts: TimeScale) -> (r: u8) {
        match ts {
            TimeScale::TAI => 0,
            TimeScale::TT => 1,
            TimeScale::ET => 2,
            TimeScale::TDB => 3,
            TimeScale::UTC => 4,
            TimeScale::GPST => 5,
            TimeScale::GST => 6,
            TimeScale::BDT => 7,
            TimeScale::QZSST => 8,
        }
    }
}

impl vstd::std_specs::convert::FromSpecImpl<TimeScale> for u8 {
    open spec fn obeys_from_spec() -> bool {
        true
    }

    open spec fn from_spec(v: TimeScale) -> u8 {
        time_scale_number(v)
    }
}

impl From<u8> for TimeScale {
    /// The time scale of a number (UTC for a number that names none).
    fn from(v: u8) -> (r: TimeScale) {
        match v {
            0 => TimeScale::TAI,
            1 => TimeScale::TT,
            2 => TimeScale::ET,
            3 => TimeScale::TDB,
            5 => TimeScale::GPST,
            6 => TimeScale::GST,
            7 => TimeScale::BDT,
            8 => TimeScale::QZSST,
            _ => TimeScale::UTC,
        }
    }
}

impl vstd::std_specs::convert::FromSpecImpl<u8> for TimeScale {
    open spec fn obeys_from_spec() -> bool {
        true
    }

    open spec fn from_spec(v: u8) -> TimeScale {
        time_scale_of_number(v)
    }
}

/// Numbering a time scale then reading the number back gives the time scale.
pub proof fn law_time_scale_number_round_trip(ts: TimeScale)
    ensures
        time_scale_of_number(time_scale_number(ts)) == ts,
{
}

} // verus!
