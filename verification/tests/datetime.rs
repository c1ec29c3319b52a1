use hifitime::datetime::{Datetime, Era, Errors, FixedOffset, Instant};

#[test]
fn datetime_epoch_instant() {
    let epoch = Datetime::new(1900, 1, 1, 0, 0, 0, 0).expect("epoch failed");
    assert_eq!(epoch.into_instant(), Instant::new(0, 0, Era::Present));
    assert_eq!(
        Datetime::new(1971, 12, 31, 23, 59, 59, 0)
            .expect("January 1972 leap second failed")
            .into_instant(),
        Instant::new(2272060799, 0, Era::Present)
    );
}

#[test]
fn datetime_leap_second_shares_instant() {
    let before = Datetime::new(1971, 12, 31, 23, 59, 59, 0).unwrap();
    let leap = Datetime::new(1971, 12, 31, 23, 59, 60, 0).unwrap();
    let after = Datetime::new(1972, 1, 1, 0, 0, 0, 0).unwrap();
    assert_eq!(before.into_instant(), leap.into_instant());
    assert!(before < leap);
    assert!(leap < after);
    assert!(leap.into_instant().secs() < after.into_instant().secs());
}

#[test]
fn datetime_add_one_hour() {
    let santa = Datetime::new(2017, 12, 25, 1, 2, 14, 0).expect("Xmas failed");
    let later = Datetime::new(2017, 12, 25, 2, 2, 14, 0).expect("Xmas failed");
    assert_eq!(
        santa.into_instant().add_duration(3600, 0),
        later.into_instant()
    );
}

#[test]
fn datetime_midnight_and_noon() {
    assert_eq!(
        Datetime::at_midnight(1900, 1, 1).unwrap().into_instant(),
        Instant::new(0, 0, Era::Present)
    );
    assert_eq!(
        Datetime::at_midnight(1972, 1, 1).unwrap().into_instant(),
        Instant::new(2272060800, 0, Era::Present)
    );
    assert_eq!(
        Datetime::at_noon(1900, 1, 1).unwrap().into_instant(),
        Instant::new(43200, 0, Era::Present)
    );
    assert_eq!(
        Datetime::at_noon(1972, 1, 1).unwrap().into_instant(),
        Instant::new(2272104000, 0, Era::Present)
    );
}

#[test]
fn datetime_offsets() {
    let whiskey_tz = FixedOffset::east_with_hours(10);
    assert_eq!(whiskey_tz.secs(), 36000);
    assert_eq!(whiskey_tz.era(), Era::Past);
    let kilo_tz = FixedOffset::west_with_hours(10);
    assert_eq!(kilo_tz.secs(), 36000);
    assert_eq!(kilo_tz.era(), Era::Present);
    assert_eq!(
        -Instant::new(3600, 159, Era::Past),
        Instant::new(3600, 159, Era::Present)
    );
    assert_eq!(
        -Instant::new(3600, 159, Era::Present),
        Instant::new(3600, 159, Era::Past)
    );
}

#[test]
fn datetime_with_offset_to_utc() {
    let santa_ktz =
        Datetime::with_offset(2017, 12, 25, 0, 0, 0, 0, FixedOffset::west_with_hours(10))
            .expect("Santa failed");
    let santa_wtz =
        Datetime::with_offset(2017, 12, 25, 0, 0, 0, 0, FixedOffset::east_with_hours(10))
            .expect("Santa failed");
    assert!(santa_wtz < santa_ktz);
    let wi = santa_wtz.into_instant();
    let ki = santa_ktz.into_instant();
    assert!(wi.secs() < ki.secs());
    let utc = santa_wtz.to_utc();
    assert_eq!(
        (*utc.year(), *utc.month(), *utc.day(), *utc.hour(), *utc.minute(), *utc.second()),
        (2017, 12, 24, 14, 0, 0)
    );
}

#[test]
fn datetime_add_and_sub_seconds() {
    let santa = Datetime::at_midnight(2017, 12, 25).unwrap();
    let santa_1h = santa.add_seconds(3600, 0);
    assert_eq!(santa.hour() + &1, *santa_1h.hour());
    let santa_m1h = santa.sub_seconds(3600, 0);
    assert_eq!(santa.day() - &1, *santa_m1h.day());
    assert_eq!(santa_m1h.hour(), &23);
}

#[test]
fn datetime_invalid_dates() {
    assert_eq!(Datetime::new(2017, 2, 29, 0, 0, 0, 0), Err(Errors::Carry));
    assert_eq!(Datetime::new(2017, 13, 1, 0, 0, 0, 0), Err(Errors::Carry));
    assert_eq!(Datetime::new(2017, 12, 31, 23, 59, 60, 0), Err(Errors::Carry));
    assert!(Datetime::new(2016, 12, 31, 23, 59, 60, 0).is_ok());
}

#[test]
fn datetime_from_instant_round_trip() {
    let dt = Datetime::new(2017, 1, 14, 0, 31, 55, 0).unwrap();
    let back = Datetime::from_instant(dt.into_instant());
    assert_eq!(back, dt);
    let end_of_2000 = Datetime::new(2000, 12, 31, 0, 0, 0, 0).unwrap();
    let back = Datetime::from_instant(end_of_2000.into_instant());
    assert_eq!((*back.year(), *back.month(), *back.day()), (2000, 12, 31));
    for (y, m, d) in [(2100, 11, 20), (2032, 11, 30), (1899, 12, 31), (1893, 1, 1), (2400, 2, 29)] {
        let dt = Datetime::new(y, m, d, 13, 14, 15, 16).unwrap();
        assert_eq!(Datetime::from_instant(dt.into_instant()), dt);
    }
}

#[test]
fn datetime_instants_keep_date_order() {
    let start = Datetime::new(1899, 1, 1, 0, 0, 0, 0).unwrap().into_instant();
    let end = Datetime::new(1899, 12, 31, 0, 0, 0, 0).unwrap().into_instant();
    assert_eq!(start, Instant::new(365 * 86_400, 0, Era::Past));
    assert_eq!(end, Instant::new(86_400, 0, Era::Past));
    let epoch = Datetime::new(1900, 1, 1, 0, 0, 0, 0).unwrap().into_instant();
    assert_eq!(epoch, Instant::new(0, 0, Era::Present));
    let half_second_before = Datetime::new(1899, 12, 31, 23, 59, 59, 500_000_000).unwrap();
    assert_eq!(half_second_before.into_instant(), Instant::new(0, 500_000_000, Era::Past));
    assert_eq!(Datetime::from_instant(Instant::new(0, 500_000_000, Era::Past)), half_second_before);
}

#[test]
fn datetime_negative_offset_with_zero_hours() {
    let dt = Datetime::from_text("2017-01-14T00:31:55-00:30").unwrap();
    let expected =
        Datetime::with_offset(2017, 1, 14, 0, 31, 55, 0, Instant::new(1800, 0, Era::Past)).unwrap();
    assert_eq!(dt, expected);
    let dt = Datetime::from_text("2017-01-14T00:31:55+00:30").unwrap();
    let expected =
        Datetime::with_offset(2017, 1, 14, 0, 31, 55, 0, Instant::new(1800, 0, Era::Present)).unwrap();
    assert_eq!(dt, expected);
}

#[test]
fn datetime_rejects_days_and_times_that_need_a_carry() {
    let o = Instant::new(0, 0, Era::Present);
    assert!(Datetime::with_offset(2000, 2, 29, 0, 0, 0, 0, o).is_ok());
    assert_eq!(Datetime::with_offset(2000, 2, 30, 0, 0, 0, 0, o), Err(Errors::Carry));
    assert_eq!(Datetime::with_offset(2000, 2, 31, 0, 0, 0, 0, o), Err(Errors::Carry));
    assert_eq!(Datetime::with_offset(2017, 12, 25, 24, 30, 0, 0, o), Err(Errors::Carry));
    assert_eq!(Datetime::with_offset(2017, 12, 25, 23, 0, 0, 1_000_000_000, o), Err(Errors::Carry));
}

#[test]
fn datetime_texts_without_offset() {
    let dt = Datetime::with_offset(2017, 1, 14, 0, 31, 55, 0, FixedOffset::east_with_hours(5)).unwrap();
    assert_eq!(dt.to_spaced_text(), "2017-01-14 00:31:55");
    assert_eq!(dt.to_iso_text(), "2017-01-14T00:31:55");
    let early = Datetime::new(-45, 3, 1, 9, 5, 7, 0).unwrap();
    assert_eq!(early.to_iso_text(), "-045-03-01T09:05:07");
}

#[test]
fn datetime_from_groups_reads_the_ranges() {
    let text = "2017-01-14T00:31:55-03:30";
    let groups = [
        Some((0, 4)),
        Some((5, 7)),
        Some((8, 10)),
        Some((11, 13)),
        Some((14, 16)),
        Some((17, 19)),
        Some((19, 25)),
        Some((19, 22)),
        Some((23, 25)),
    ];
    let dt = Datetime::from_groups(text, &groups).unwrap();
    assert_eq!(dt, Datetime::from_text(text).unwrap());
    assert_eq!(*dt.offset(), Instant::new(12_600, 0, Era::Past));
    let mut bad = groups;
    bad[1] = Some((4, 7));
    assert_eq!(
        Datetime::from_groups(text, &bad),
        Err(Errors::ParseError(String::from("invalid integer in date time")))
    );
    let no_offset = [groups[0], groups[1], groups[2], groups[3], groups[4], groups[5], None, None, None];
    assert_eq!(*Datetime::from_groups(text, &no_offset).unwrap().offset(), Instant::new(0, 0, Era::Present));
}

#[test]
fn offset_texts() {
    assert_eq!(Instant::new(12_600, 0, Era::Past).to_offset_text(), "-03:30");
    assert_eq!(Instant::new(1_800, 0, Era::Past).to_offset_text(), "-00:30");
    assert_eq!(FixedOffset::east_with_hours(5).to_offset_text(), "-05:00");
    assert_eq!(FixedOffset::west_with_hours(5).to_offset_text(), "+05:00");
    assert_eq!(Instant::new(0, 0, Era::Present).to_offset_text(), "+00:00");
}

#[test]
fn leap_second_instants_keep_order() {
    let before = Datetime::new(2016, 12, 31, 23, 59, 59, 0).unwrap().into_instant();
    let leap = Datetime::new(2016, 12, 31, 23, 59, 60, 500).unwrap().into_instant();
    let after = Datetime::new(2017, 1, 1, 0, 0, 0, 0).unwrap().into_instant();
    assert!(before <= leap && leap <= after);
    let late_59 = Datetime::new(2016, 12, 31, 23, 59, 59, 900_000_000).unwrap().into_instant();
    let early_60 = Datetime::new(2016, 12, 31, 23, 59, 60, 0).unwrap().into_instant();
    assert!(early_60 < late_59);
}
