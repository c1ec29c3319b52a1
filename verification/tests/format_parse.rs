use hifitime::efmt::{iso8601, iso8601_date, iso8601_ordinal, rfc2822, DayOfYearField, Format};
use hifitime::epoch::Epoch;
use hifitime::errors::{DurationError, HifitimeError, ParsingError};
use hifitime::timescale::TimeScale;
use hifitime::weekday::Weekday;

#[test]
fn format_reads_iso8601() {
    let (fracs, fields) = iso8601().parse_fields("2000-02-29T14:57:29.000000037 UTC");
    assert!(fracs.is_empty());
    let fields = fields.unwrap();
    assert_eq!(&fields.decomposed[..7], &[2000, 2, 29, 14, 57, 29, 37]);
    assert_eq!(fields.time_scale, TimeScale::UTC);
    let e = fields.gregorian_epoch().unwrap();
    let expected = Epoch::from_gregorian_utc(2000, 2, 29, 14, 57, 29, 37);
    assert_eq!(e.duration, expected.duration);
    assert_eq!(e.time_scale, TimeScale::UTC);
}

#[test]
fn format_reads_date_and_ordinal() {
    let (_, fields) = iso8601_date().parse_fields("2023-04-27");
    let fields = fields.unwrap();
    assert_eq!(&fields.decomposed[..3], &[2023, 4, 27]);
    let (_, fields) = iso8601_ordinal().parse_fields("2023-117");
    let fields = fields.unwrap();
    assert_eq!(fields.decomposed[0], 2023);
    assert_eq!(fields.day_of_year, Some(DayOfYearField::Integer(117)));
}

#[test]
fn format_reads_rfc2822() {
    let (_, fields) = rfc2822().parse_fields("Tue, 29 Feb 2000 14:57:29");
    let fields = fields.unwrap();
    assert_eq!(fields.weekday, Some(Weekday::Tuesday));
    assert_eq!(&fields.decomposed[..6], &[2000, 2, 29, 14, 57, 29]);
}

#[test]
fn format_reads_offset() {
    let fmt = Format::from_str("%Y-%m-%dT%H:%M:%S%z %T").unwrap();
    let (_, fields) = fmt.parse_fields("2017-01-14T00:31:55-05 UTC");
    let fields = fields.unwrap();
    assert_eq!(fields.offset_sign, -1);
    assert_eq!(fields.decomposed[7], 5);
    assert_eq!(fields.offset_duration().total_nanoseconds(), 5 * 3_600_000_000_000);
}

#[test]
fn format_reads_day_of_year_fraction() {
    let fmt = Format::from_str("%Y-%J").unwrap();
    let (fracs, fields) = fmt.parse_fields("2023-117.5");
    assert_eq!(fracs, vec![(5, 10)]);
    assert_eq!(fields.unwrap().day_of_year, Some(DayOfYearField::Fraction(5, 10)));
}

#[test]
fn format_errors() {
    let (_, fields) = Format::empty().parse_fields("2023");
    assert!(matches!(
        fields,
        Err(HifitimeError::Parse { source: ParsingError::NothingToParse, .. })
    ));
    let (_, fields) = iso8601_date().parse_fields("2023/04/27");
    assert!(matches!(
        fields,
        Err(HifitimeError::Parse { source: ParsingError::UnexpectedCharacter { found: '/', .. }, .. })
    ));
    let (_, fields) = iso8601_date().parse_fields("2023-13-27");
    assert!(matches!(
        fields,
        Err(HifitimeError::Parse { source: ParsingError::ValueError, .. })
    ));
}

#[test]
fn gh_248_regression() {
    let format = Format::from_str("%Y-%jT%H:%M:%S").unwrap();
    let (fracs, fields) = format.parse_fields("2023-117T12:55:26");
    assert!(fracs.is_empty());
    let fields = fields.unwrap();
    let e = match fields.day_of_year {
        Some(DayOfYearField::Integer(day)) => fields.ordinal_epoch(day).unwrap(),
        _ => panic!("the day of year is an integer"),
    };
    let e = e + fields.offset_duration();

    assert_eq!(e.to_text(), "2023-04-27T12:55:26 UTC");
}

#[test]
fn format_ordinal_epoch_errors() {
    let format = Format::from_str("%Y-%j").unwrap();
    let (_, fields) = format.parse_fields("2023-001");
    let mut fields = fields.unwrap();
    let first = fields.ordinal_epoch(1).unwrap();
    assert_eq!(first.duration, Epoch::from_gregorian_utc_at_midnight(2023, 1, 1).duration);
    // A year whose first of January an epoch cannot hold.
    fields.decomposed[0] = i32::MAX;
    assert_eq!(
        fields.ordinal_epoch(1).unwrap_err(),
        HifitimeError::Duration { source: DurationError::Overflow }
    );
}
