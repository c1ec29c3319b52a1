use std::cmp::Ordering;
use std::str::FromStr;

use hifitime::datetime::{Datetime, Era, Instant};
use hifitime::duration::Duration;
use hifitime::epoch::Epoch;
use hifitime::epoch_text::{EpochText, NumericFormat};
use hifitime::errors::{HifitimeError, ParsingError};
use hifitime::timescale::TimeScale;
use hifitime::unit::Unit;
use hifitime::weekday::Weekday;

fn hours(n: i64) -> Duration {
    n * Unit::Hour
}

fn minutes(n: i64) -> Duration {
    n * Unit::Minute
}

#[test]
fn duration_subdivision() {
    let two_hours_three_min = hours(2) + minutes(3);
    assert_eq!(two_hours_three_min.subdivision(Unit::Hour), Some(hours(2)));
    assert_eq!(two_hours_three_min.subdivision(Unit::Minute), Some(minutes(3)));
    assert_eq!(two_hours_three_min.subdivision(Unit::Second), Some(Duration::zero()));
    assert_eq!(two_hours_three_min.subdivision(Unit::Week), None);
    assert_eq!(two_hours_three_min.subdivision(Unit::Century), None);
    // The parts of a negative duration are those of its magnitude.
    let negative = -(3 * Unit::Day + 5 * Unit::Millisecond);
    assert_eq!(negative.subdivision(Unit::Day), Some(3 * Unit::Day));
    assert_eq!(negative.subdivision(Unit::Millisecond), Some(5 * Unit::Millisecond));
    assert_eq!(negative.subdivision(Unit::Nanosecond), Some(Duration::zero()));
}

#[test]
fn duration_compared_to_unit() {
    assert!(1 * Unit::Second == Unit::Second);
    assert!(1000 * Unit::Millisecond == Unit::Second);
    assert!(999 * Unit::Millisecond != Unit::Second);
    assert_eq!((59 * Unit::Second).partial_cmp(&Unit::Minute), Some(Ordering::Less));
    assert_eq!((61 * Unit::Second).partial_cmp(&Unit::Minute), Some(Ordering::Greater));
    assert_eq!((60 * Unit::Second).partial_cmp(&Unit::Minute), Some(Ordering::Equal));
    assert!(-(1 * Unit::Day) < Unit::Nanosecond);
    assert!(2 * Unit::Day > Unit::Day);
}

#[test]
fn epoch_initializers_keep_the_duration() {
    let d = 36 * Unit::Hour;
    assert_eq!(Epoch::from_tt_duration(d).time_scale, TimeScale::TT);
    assert_eq!(Epoch::from_et_duration(d).time_scale, TimeScale::ET);
    assert_eq!(Epoch::from_tdb_duration(d).time_scale, TimeScale::TDB);
    assert_eq!(Epoch::from_tdb_duration(d).duration, d);
    let e = Epoch::from_gpst_duration(d);
    let moved = e.set(2 * Unit::Day);
    assert_eq!(moved.time_scale, TimeScale::GPST);
    assert_eq!(moved.duration, 2 * Unit::Day);
}

#[test]
fn time_scale_name_lengths() {
    assert_eq!(TimeScale::QZSST.formatted_len(), 5);
    assert_eq!(TimeScale::GPST.formatted_len(), 4);
    assert_eq!(TimeScale::UTC.formatted_len(), 3);
    assert_eq!(TimeScale::BDT.formatted_len(), 3);
    assert_eq!(TimeScale::TT.formatted_len(), 2);
    assert_eq!(TimeScale::ET.formatted_len(), 2);
}

#[test]
fn epoch_text_kinds() {
    assert_eq!(
        Epoch::read_epoch_text("JD 2452312.500372511 TDB"),
        Ok(EpochText::Numeric {
            format: NumericFormat::JulianDays,
            time_scale: TimeScale::TDB,
            start: 2,
            end: 21,
        })
    );
    assert_eq!(
        Epoch::read_epoch_text("  MJD 51544.5 TAI "),
        Ok(EpochText::Numeric {
            format: NumericFormat::ModifiedJulianDays,
            time_scale: TimeScale::TAI,
            start: 3,
            end: 12,
        })
    );
    assert_eq!(
        Epoch::read_epoch_text("SEC 0.5 TT"),
        Ok(EpochText::Numeric {
            format: NumericFormat::Seconds,
            time_scale: TimeScale::TT,
            start: 3,
            end: 8,
        })
    );
    assert_eq!(
        Epoch::read_epoch_text("2017-01-14T00:31:55 UTC"),
        Ok(EpochText::Gregorian)
    );
}

#[test]
fn epoch_text_errors() {
    assert_eq!(
        Epoch::read_epoch_text(" JD 1 "),
        Err(HifitimeError::Parse {
            source: ParsingError::UnknownFormat,
            details: "less than 7 characters",
        })
    );
    assert_eq!(
        Epoch::read_epoch_text("SEC 12 XYZ"),
        Err(HifitimeError::Parse {
            source: ParsingError::TimeSystem,
            details: "parsing from string",
        })
    );
    assert_eq!(
        NumericFormat::JulianDays.check_time_scale(TimeScale::GPST),
        Err(HifitimeError::Parse {
            source: ParsingError::UnsupportedTimeSystem,
            details: "for Julian Date",
        })
    );
    assert_eq!(
        NumericFormat::ModifiedJulianDays.check_time_scale(TimeScale::TDB),
        Err(HifitimeError::Parse {
            source: ParsingError::UnsupportedTimeSystem,
            details: "for Modified Julian Date",
        })
    );
    assert_eq!(NumericFormat::ModifiedJulianDays.check_time_scale(TimeScale::GST), Ok(()));
    assert_eq!(NumericFormat::Seconds.check_time_scale(TimeScale::QZSST), Ok(()));
}

#[test]
fn fixed_time_scale_conversions() {
    // GPST starts at 1980-01-06T00:00:19 TAI.
    let gps_start = Epoch::from_gpst_duration(Duration::zero());
    let tai = gps_start.to_time_scale_fixed(TimeScale::TAI).unwrap();
    assert_eq!(tai.time_scale, TimeScale::TAI);
    assert_eq!(tai.duration, Duration::from_parts(0, 2_524_953_619_000_000_000));
    // TT is ahead of TAI by 32.184 seconds.
    let tt = tai.to_time_scale_fixed(TimeScale::TT).unwrap();
    assert_eq!(tt.duration, tai.duration + 32_184 * Unit::Millisecond);
    // And back.
    let back = tt.to_time_scale_fixed(TimeScale::GPST).unwrap();
    assert_eq!(back.duration, Duration::zero());
    assert_eq!(back.time_scale, TimeScale::GPST);
    // UTC, ET and TDB are not at a fixed offset from TAI.
    assert!(tai.to_time_scale_fixed(TimeScale::UTC).is_none());
    assert!(Epoch::from_utc_duration(Duration::zero()).to_tai_duration_fixed().is_none());
    assert!(Epoch::from_tai_duration_fixed(Duration::zero(), TimeScale::TDB).is_none());
    // The same time scale gives the epoch itself.
    let utc = Epoch::from_utc_duration(hours(5));
    assert_eq!(utc.to_time_scale_fixed(TimeScale::UTC).unwrap().duration, hours(5));
}

#[test]
fn duration_text() {
    assert_eq!((10 * Unit::Second + 100 * Unit::Millisecond).to_text(), "10 s 100 ms");
    assert_eq!((1 * Unit::Day + 99 * Unit::Nanosecond).to_text(), "1 day 99 ns");
    assert_eq!((36525 * Unit::Day + 99 * Unit::Second).to_text(), "36525 days 1 min 39 s");
    assert_eq!(Duration::zero().to_text(), "0 ns");
    assert_eq!((-(2 * Unit::Hour + 3 * Unit::Microsecond)).to_text(), "-2 h 3 μs");
}

#[test]
fn datetime_from_text() {
    let offset = Instant::new(3600 * 2 + 60 * 15, 0, Era::Past);
    let dt = Datetime::with_offset(2017, 1, 14, 0, 31, 55, 0, offset).unwrap();
    assert_eq!(dt, Datetime::from_str("2017-01-14T00:31:55-02:15").unwrap());
    assert_eq!(dt, Datetime::from_str("2017-01-14 00:31:55-02:15").unwrap());
    let dt = Datetime::new(2017, 1, 14, 0, 31, 55, 0).unwrap();
    assert_eq!(dt, Datetime::from_str("2017-01-14T00:31:55").unwrap());
    assert_eq!(dt, Datetime::from_text("2017-01-14 00:31:55").unwrap());
}

fn same_epoch(a: Epoch, b: Epoch) -> bool {
    a.time_scale == b.time_scale && a.duration == b.duration
}

#[test]
fn epoch_with_time_of_day() {
    let epoch = Epoch::from_gregorian_utc(2022, 12, 1, 10, 11, 12, 13);
    assert!(same_epoch(
        epoch.with_hms(20, 21, 22),
        Epoch::from_gregorian_utc(2022, 12, 1, 20, 21, 22, 13)
    ));
    assert!(same_epoch(
        epoch.with_hms_strict(20, 21, 22),
        Epoch::from_gregorian_utc(2022, 12, 1, 20, 21, 22, 0)
    ));
    let other = Epoch::from_gregorian_utc(2024, 12, 1, 20, 21, 22, 23);
    assert!(same_epoch(
        epoch.with_time_from_duration(other.duration),
        Epoch::from_gregorian_utc(2022, 12, 1, 20, 21, 22, 23)
    ));
    // Hours beyond a day carry into the next day.
    assert!(same_epoch(
        epoch.with_hms_strict(25, 0, 0),
        Epoch::from_gregorian_utc(2022, 12, 2, 1, 0, 0, 0)
    ));
}

#[test]
fn weekday_differences() {
    assert_eq!(Weekday::Saturday - Weekday::Sunday, 1 * Unit::Day);
    assert_eq!(Weekday::Saturday - Weekday::Friday, 6 * Unit::Day);
    assert_eq!(Weekday::Monday - Weekday::Monday, Duration::zero());
    assert_eq!(Weekday::Monday - Weekday::Sunday, 6 * Unit::Day);
}

#[test]
fn epoch_next_and_previous_weekdays() {
    // 1988-01-02 was a Saturday.
    let epoch = Epoch::from_gregorian_utc_at_midnight(1988, 1, 2);
    let sat = Weekday::Saturday;
    let next = |wd: Weekday| epoch.next_from_weekday(sat, wd);
    let previous = |wd: Weekday| epoch.previous_from_weekday(sat, wd);
    assert!(same_epoch(next(Weekday::Sunday), Epoch::from_gregorian_utc_at_midnight(1988, 1, 3)));
    assert!(same_epoch(next(Weekday::Monday), Epoch::from_gregorian_utc_at_midnight(1988, 1, 4)));
    assert!(same_epoch(next(Weekday::Friday), Epoch::from_gregorian_utc_at_midnight(1988, 1, 8)));
    assert!(same_epoch(next(Weekday::Saturday), Epoch::from_gregorian_utc_at_midnight(1988, 1, 9)));
    assert!(same_epoch(previous(Weekday::Friday), Epoch::from_gregorian_utc_at_midnight(1988, 1, 1)));
    assert!(same_epoch(
        previous(Weekday::Thursday),
        Epoch::from_gregorian_utc_at_midnight(1987, 12, 31)
    ));
    assert!(same_epoch(
        previous(Weekday::Sunday),
        Epoch::from_gregorian_utc_at_midnight(1987, 12, 27)
    ));
    assert!(same_epoch(
        previous(Weekday::Saturday),
        Epoch::from_gregorian_utc_at_midnight(1987, 12, 26)
    ));
}

#[test]
fn epoch_gregorian_texts() {
    let dt_tai = Epoch::from_tai_parts(1, 537582752000000000);
    assert_eq!(dt_tai.to_text(), "2017-01-14T00:32:32 TAI");
    let dt = Epoch::from_gregorian_str("2017-01-14T00:31:55 UTC").unwrap();
    assert_eq!(dt.to_text(), "2017-01-14T00:31:55 UTC");
    let e = Epoch::from_gregorian_utc(2022, 12, 1, 10, 11, 12, 13);
    assert_eq!(e.to_text(), "2022-12-01T10:11:12.000000013 UTC");
    assert_eq!(Epoch::format_rfc3339(e.duration), "2022-12-01T10:11:12.000000013+00:00");
    assert_eq!(
        Epoch::format_rfc3339(Epoch::from_gregorian_utc_at_midnight(1999, 3, 4).duration),
        "1999-03-04T00:00:00+00:00"
    );
    assert_eq!(
        Epoch::format_gregorian(Duration::zero(), TimeScale::GPST),
        "1980-01-06T00:00:00 GPST"
    );
    assert_eq!(
        Epoch::format_gregorian(Duration::zero(), TimeScale::QZSST),
        "1980-01-06T00:00:00 QZSST"
    );
}

#[test]
fn standard_durations() {
    let d = 1 * Unit::Day + 2 * Unit::Second + 3 * Unit::Nanosecond;
    assert_eq!(
        std::time::Duration::from(d),
        std::time::Duration::new(86_402, 3)
    );
    assert_eq!(std::time::Duration::from(-d), std::time::Duration::ZERO);
    assert_eq!(
        Duration::from(std::time::Duration::from_millis(1500)),
        1500 * Unit::Millisecond
    );
    assert_eq!(Duration::from(std::time::Duration::MAX), Duration::init_from_max());
    assert_eq!(Duration::from(std::time::Duration::from(d)), d);
}

#[test]
fn gregorian_text_reads_back() {
    let epochs = [
        Epoch::from_gregorian_utc(2022, 12, 1, 10, 11, 12, 13),
        Epoch::from_gregorian_tai(1900, 1, 1, 0, 0, 0, 0),
        Epoch::from_gregorian(2024, 2, 29, 23, 59, 59, 999_999_999, TimeScale::GPST),
        Epoch::from_gregorian(2000, 1, 1, 12, 0, 0, 0, TimeScale::ET),
        Epoch::from_gregorian(2031, 7, 4, 1, 2, 3, 400, TimeScale::QZSST),
        Epoch::from_gregorian(1999, 8, 22, 0, 0, 1, 0, TimeScale::GST),
        Epoch::from_gregorian(2006, 1, 1, 0, 0, 0, 1, TimeScale::BDT),
        Epoch::from_gregorian(1977, 1, 1, 0, 0, 0, 0, TimeScale::TT),
        Epoch::from_gregorian(2100, 3, 1, 0, 0, 0, 0, TimeScale::TDB),
    ];
    for e in epochs {
        let text = e.to_text();
        let back = Epoch::from_gregorian_str(&text).unwrap();
        assert_eq!(back.duration, e.duration, "{}", text);
        assert_eq!(back.time_scale, e.time_scale, "{}", text);
    }
}

#[test]
fn epoch_duration_in_year() {
    let e = Epoch::from_gregorian_utc(2022, 12, 1, 10, 11, 12, 13);
    assert_eq!(
        e.duration_in_year(),
        334 * Unit::Day
            + 10 * Unit::Hour
            + 11 * Unit::Minute
            + 12 * Unit::Second
            + 13 * Unit::Nanosecond
    );
    let leap = Epoch::from_gregorian(2024, 3, 1, 0, 0, 0, 0, TimeScale::GPST);
    assert_eq!(leap.duration_in_year(), 60 * Unit::Day);
    assert_eq!(Epoch::from_gregorian_utc_at_midnight(1900, 1, 1).duration_in_year(), Duration::zero());
}
