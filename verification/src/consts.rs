use vstd::prelude::*;

verus! {

/// Number of days in a Julian century.
pub const DAYS_PER_CENTURY_U64: u64 = 36_525;
/// Number of nanoseconds in one microsecond.
pub const NANOSECONDS_PER_MICROSECOND: u64 = 1_000;
/// Number of nanoseconds in one millisecond.
pub const NANOSECONDS_PER_MILLISECOND: u64 = 1_000_000;
/// Number of nanoseconds in one second.
pub const NANOSECONDS_PER_SECOND: u64 = 1_000_000_000;
/// Number of nanoseconds in one second, as a 32 bit integer.
pub const NANOSECONDS_PER_SECOND_U32: u32 = 1_000_000_000;
/// Number of nanoseconds in one minute.
pub const NANOSECONDS_PER_MINUTE: u64 = 60_000_000_000;
/// Number of nanoseconds in one hour.
pub const NANOSECONDS_PER_HOUR: u64 = 3_600_000_000_000;
/// Number of nanoseconds in one day.
pub const NANOSECONDS_PER_DAY: u64 = 86_400_000_000_000;
/// Number of nanoseconds in one Julian century (36525 days).
pub const NANOSECONDS_PER_CENTURY: u64 = 3_155_760_000_000_000_000;
/// Number of days in a week.
pub const DAYS_PER_WEEK_I64: i64 = 7;
/// Number of days in a non-leap year.
pub const DAYS_PER_YEAR_NLD: i32 = 365;
/// The reference year of the Gregorian computations (1900).
pub const HIFITIME_REF_YEAR: i32 = 1900;

} // verus!
