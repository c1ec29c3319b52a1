use hifitime::epoch::Epoch;
use hifitime::errors::{HifitimeError, ParsingError};
use hifitime::timescale::TimeScale;

fn same(a: Epoch, b: Epoch) -> bool {
    a.duration == b.duration && a.time_scale == b.time_scale
}

#[test]
fn gregorian_str_examples() {
    let dt = Epoch::from_gregorian_utc(2017, 1, 14, 0, 31, 55, 0);
    assert!(same(dt, Epoch::from_gregorian_str("2017-01-14T00:31:55 UTC").unwrap()));
    assert!(same(dt, Epoch::from_gregorian_str("2017-01-14T00:31:55.0000 UTC").unwrap()));
    assert!(same(dt, Epoch::from_gregorian_str("2017-01-14T00:31:55").unwrap()));
    assert!(same(dt, Epoch::from_gregorian_str("2017-01-14 00:31:55").unwrap()));
    assert!(same(
        Epoch::from_gregorian_utc(2017, 1, 14, 0, 31, 55, 811000000),
        Epoch::from_gregorian_str("2017-01-14 00:31:55.811 UTC").unwrap()
    ));
    assert!(same(
        Epoch::from_gregorian_utc(2017, 1, 14, 0, 31, 55, 811200000),
        Epoch::from_gregorian_str("2017-01-14 00:31:55.8112 UTC").unwrap()
    ));
    assert!(same(
        Epoch::from_gregorian_utc_hms(1994, 11, 5, 13, 15, 30),
        Epoch::from_gregorian_str("1994-11-05T13:15:30Z").unwrap()
    ));
    assert!(same(
        Epoch::from_gregorian_utc_hms(1994, 11, 5, 13, 15, 30),
        Epoch::from_gregorian_str("1994-11-05T08:15:30-05:00").unwrap()
    ));
}

#[test]
fn gregorian_str_time_scales() {
    let e = Epoch::from_gregorian_str("2017-01-14T00:31:55 TAI").unwrap();
    assert!(same(e, Epoch::from_gregorian_tai(2017, 1, 14, 0, 31, 55, 0)));
    let e = Epoch::from_gregorian_str("2017-01-14T00:31:55 GPST").unwrap();
    assert_eq!(e.time_scale, TimeScale::GPST);
    assert_eq!(
        Epoch::from_gregorian_str("2017-01-14T00:31:55 XYZ").unwrap_err(),
        HifitimeError::Parse {
            source: ParsingError::TimeSystem,
            details: "parsing as Gregorian date with time scale",
        }
    );
}

#[test]
fn gregorian_str_errors() {
    assert!(matches!(
        Epoch::from_gregorian_str("2017-13-14T00:31:55"),
        Err(HifitimeError::Parse { source: ParsingError::ValueError, .. })
    ));
    assert!(matches!(
        Epoch::from_gregorian_str("2017/01/14"),
        Err(HifitimeError::Parse { source: ParsingError::UnknownFormat, .. })
    ));
    assert!(matches!(
        Epoch::from_gregorian_str("2017-02-30T00:00:00"),
        Err(HifitimeError::InvalidGregorianDate)
    ));
}

#[test]
fn gregorian_compute_round_trip() {
    let e = Epoch::from_gregorian_utc(2000, 2, 29, 14, 57, 29, 37);
    assert_eq!(
        Epoch::compute_gregorian(e.duration, e.time_scale),
        (2000, 2, 29, 14, 57, 29, 37)
    );
    let e = Epoch::from_gregorian_tai_at_midnight(1972, 1, 1);
    assert_eq!(
        Epoch::compute_gregorian(e.duration, TimeScale::TAI),
        (1972, 1, 1, 0, 0, 0, 0)
    );
}

#[test]
fn gregorian_str_trims_unicode_white_space() {
    let dt = Epoch::from_gregorian_utc(2017, 1, 14, 0, 31, 55, 0);
    assert!(same(dt, Epoch::from_gregorian_str("\u{3000}\t2017-01-14T00:31:55 UTC\u{a0}\n").unwrap()));
}
