use hifitime::duration::Duration;
use hifitime::epoch::Epoch;
use hifitime::errors::{HifitimeError, ParsingError};
use hifitime::timescale::TimeScale;
use hifitime::unit::Unit;
use hifitime::weekday::MonthName;

const NANOS_PER_WEEK: i128 = 604_800_000_000_000;

#[test]
fn gnss_nanoseconds_initializers() {
    let e = Epoch::from_gpst_nanoseconds(5);
    assert_eq!(e.time_scale, TimeScale::GPST);
    assert_eq!(e.duration.total_nanoseconds(), 5);
    let e = Epoch::from_qzsst_nanoseconds(7);
    assert_eq!(e.time_scale, TimeScale::QZSST);
    assert_eq!(e.duration.total_nanoseconds(), 7);
}

#[test]
fn time_of_week_round_trip() {
    let e = Epoch::from_time_of_week_utc(1, 10);
    assert_eq!(e.time_scale, TimeScale::UTC);
    assert_eq!(e.duration.total_nanoseconds(), NANOS_PER_WEEK + 10);
    assert_eq!(e.to_time_of_week(), (1, 10));

    let e = Epoch::from_time_of_week(2200, 3_600_000_000_000, TimeScale::GPST);
    assert_eq!(e.to_time_of_week(), (2200, 3_600_000_000_000));
}

#[test]
fn epoch_month_names() {
    assert_eq!(Epoch::from_gregorian_utc(2022, 3, 1, 0, 0, 0, 0).month_name(), MonthName::March);
    assert_eq!(Epoch::from_gregorian_tai(1999, 12, 31, 23, 59, 59, 0).month_name(), MonthName::December);
    assert_eq!(Epoch::from_gregorian_tai(2000, 1, 1, 0, 0, 0, 0).month_name(), MonthName::January);
}

#[test]
fn timezone_offsets() {
    assert_eq!(Duration::from_tz_offset(1, 2, 0), 2 * Unit::Hour);
    assert_eq!(Duration::from_tz_offset(-1, 5, 30), -(5 * Unit::Hour + 30 * Unit::Minute));
    assert_eq!(Duration::from_tz_offset(0, 0, 45), 45 * Unit::Minute);
}

#[test]
fn truncated_nanoseconds_saturate() {
    assert_eq!((1 * Unit::Hour).truncated_nanoseconds(), 3_600_000_000_000);
    assert_eq!((-(2 * Unit::Second)).truncated_nanoseconds(), -2_000_000_000);
    assert_eq!(Duration::init_from_max().truncated_nanoseconds(), i64::MAX);
    assert_eq!(Duration::init_from_min().truncated_nanoseconds(), i64::MIN);
}

#[test]
fn maybe_gregorian_initializers() {
    assert!(Epoch::maybe_from_gregorian_tai(2021, 2, 29, 0, 0, 0, 0).is_err());
    assert!(Epoch::maybe_from_gregorian_tai(2020, 13, 1, 0, 0, 0, 0).is_err());
    assert!(Epoch::maybe_from_gregorian_utc(2021, 1, 1, 25, 0, 0, 0).is_err());
    assert!(Epoch::maybe_from_gregorian_utc(2021, 1, 1, 12, 0, 60, 0).is_err());
    let a = Epoch::maybe_from_gregorian_tai(2020, 2, 29, 1, 2, 3, 4).unwrap();
    let b = Epoch::from_gregorian_tai(2020, 2, 29, 1, 2, 3, 4);
    assert_eq!(a.duration, b.duration);
    assert_eq!(a.time_scale, TimeScale::TAI);
    let c = Epoch::maybe_from_gregorian_utc(2016, 12, 31, 23, 59, 60, 0).unwrap();
    assert_eq!(c.time_scale, TimeScale::UTC);
}

#[test]
fn time_scale_kinds() {
    assert!(TimeScale::UTC.uses_leap_seconds());
    assert!(!TimeScale::TAI.uses_leap_seconds());
    assert!(!TimeScale::GPST.uses_leap_seconds());
    for ts in [TimeScale::GPST, TimeScale::GST, TimeScale::BDT, TimeScale::QZSST] {
        assert!(ts.is_gnss());
    }
    for ts in [TimeScale::UTC, TimeScale::TAI, TimeScale::TT, TimeScale::ET, TimeScale::TDB] {
        assert!(!ts.is_gnss());
    }
}

#[test]
fn duration_epsilon_and_division() {
    assert_eq!(Duration::epsilon().total_nanoseconds(), 1);
    assert_eq!((1 * Unit::Hour) / 2, 30 * Unit::Minute);
    assert_eq!(Duration::from_total_nanoseconds(-7) / 2, Duration::from_total_nanoseconds(-3));
    assert_eq!(Duration::from_total_nanoseconds(7) / -2, Duration::from_total_nanoseconds(-3));
}

#[test]
fn enum_eq() {
    // Check the equality compiles (if one compiles, then all asserts will work)
    assert!(HifitimeError::InvalidGregorianDate == HifitimeError::InvalidGregorianDate);
    assert!(ParsingError::ISO8601 == ParsingError::ISO8601);
    assert!(TimeScale::ET == TimeScale::ET);
}

#[test]
fn gregorian_round_trip_before_1900_and_far_ahead() {
    let e = Epoch::from_gregorian_tai_at_midnight(1893, 1, 1);
    assert_eq!(Epoch::compute_gregorian(e.duration, TimeScale::TAI), (1893, 1, 1, 0, 0, 0, 0));
    for (y, m, d) in [(1899, 12, 31), (1600, 2, 29), (1, 1, 1), (-4712, 1, 1), (4800, 3, 1), (9999, 12, 31), (2400, 12, 31)] {
        for ts in [TimeScale::TAI, TimeScale::UTC, TimeScale::GPST, TimeScale::TDB] {
            let e = Epoch::maybe_from_gregorian(y, m, d, 12, 34, 56, 789, ts).unwrap();
            assert_eq!(Epoch::compute_gregorian(e.duration, ts), (y, m, d, 12, 34, 56, 789));
        }
    }
}
