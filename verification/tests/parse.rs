use hifitime::duration::Duration;
use hifitime::errors::{HifitimeError, ParsingError};
use hifitime::parse::{
    cmp_chars_to_str, parse_duration_terms, parse_offset, read_duration_text, DurationText,
};
use hifitime::unit::Unit;

#[test]
fn chars_compare_at_position() {
    assert!(cmp_chars_to_str("5 days", 2, "d"));
    assert!(cmp_chars_to_str("5 days", 2, "days"));
    assert!(!cmp_chars_to_str("5 days", 2, "dayss"));
    assert!(!cmp_chars_to_str("5 d", 3, "d"));
    assert!(cmp_chars_to_str("3 μs", 2, "μs"));
}

#[test]
fn offsets() {
    assert_eq!(parse_offset("+3615").unwrap(), 36 * Unit::Hour + 15 * Unit::Minute);
    assert_eq!(
        parse_offset("-01:15:30").unwrap(),
        1 * Unit::Hour + 15 * Unit::Minute + 30 * Unit::Second
    );
    assert_eq!(parse_offset("+05").unwrap(), 5 * Unit::Hour);
    assert_eq!(
        parse_offset("+1").unwrap_err(),
        HifitimeError::Parse {
            source: ParsingError::InvalidTimezone,
            details: "invalid timezone format [+/-]HH:MM",
        }
    );
    assert!(matches!(
        parse_offset("+ab:00"),
        Err(HifitimeError::Parse { source: ParsingError::Lexical { .. }, details: "invalid hours" })
    ));
    assert_eq!(
        parse_offset("+01:ab").unwrap_err(),
        HifitimeError::Parse { source: ParsingError::ValueError, details: "invalid minute" }
    );
}

#[test]
fn duration_text_kinds() {
    match read_duration_text("  -01:15:30 ").unwrap() {
        DurationText::Offset(d) => assert_eq!(
            d,
            -(1 * Unit::Hour + 15 * Unit::Minute + 30 * Unit::Second)
        ),
        _ => panic!("expected an offset"),
    }
    match read_duration_text("-5 h 256 ms 1 ns").unwrap() {
        DurationText::Terms { negative, start } => {
            assert!(negative);
            assert_eq!(start, 1);
        }
        _ => panic!("expected terms"),
    }
    match read_duration_text("1 d").unwrap() {
        DurationText::Terms { negative, start } => {
            assert!(!negative);
            assert_eq!(start, 0);
        }
        _ => panic!("expected terms"),
    }
    assert!(matches!(
        read_duration_text("   "),
        Err(HifitimeError::Parse { source: ParsingError::NothingToParse, .. })
    ));
}

#[test]
fn duration_terms() {
    let (numbers, terms) = parse_duration_terms("5 h 256 ms 1 ns");
    assert_eq!(numbers, vec![(0, 1), (4, 7), (11, 12)]);
    let terms = terms.unwrap();
    assert_eq!(terms[1], Some((0, 1)));
    assert_eq!(terms[4], Some((4, 7)));
    assert_eq!(terms[6], Some((11, 12)));
    assert_eq!(terms[0], None);

    let (_, terms) = parse_duration_terms("10.598 days");
    assert_eq!(terms.unwrap()[0], Some((0, 6)));

    let (_, terms) = parse_duration_terms("5 parsecs");
    assert_eq!(
        terms.unwrap_err(),
        HifitimeError::Parse { source: ParsingError::UnknownOrMissingUnit, details: "unknown unit" }
    );
    let (_, terms) = parse_duration_terms("5");
    assert_eq!(
        terms.unwrap_err(),
        HifitimeError::Parse {
            source: ParsingError::UnknownOrMissingUnit,
            details: "expect a unit after the last numeric",
        }
    );
    let _ = Duration::zero();
}

#[test]
fn duration_units_are_whole_names() {
    let unknown = HifitimeError::Parse {
        source: ParsingError::UnknownOrMissingUnit,
        details: "unknown unit",
    };
    assert_eq!(parse_duration_terms("5 dogs").1, Err(unknown));
    let unknown = HifitimeError::Parse {
        source: ParsingError::UnknownOrMissingUnit,
        details: "unknown unit",
    };
    assert_eq!(parse_duration_terms("5 dayss 1 h").1, Err(unknown));
    let (numbers, terms) = parse_duration_terms("5 days 3 min");
    assert_eq!(numbers, vec![(0, 1), (7, 8)]);
    let terms = terms.unwrap();
    assert_eq!(terms[0], Some((0, 1)));
    assert_eq!(terms[2], Some((7, 8)));
}
