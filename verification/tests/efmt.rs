use hifitime::efmt::{
    iso8601, iso8601_date, iso8601_flex, iso8601_ordinal, rfc2822, rfc2822_long, rfc3339,
    rfc3339_flex, Format, Item, Token,
};
use hifitime::errors::ParsingError;

#[test]
fn epoch_format_from_str() {
    let fmt = Format::from_str("%Y-%m-%d").unwrap();
    assert_eq!(fmt, iso8601_date());

    let fmt = Format::from_str("%Y-%m-%dT%H:%M:%S.%f %T").unwrap();
    assert_eq!(fmt, iso8601());

    let fmt = Format::from_str("%Y-%m-%dT%H:%M:%S.%f? %T?").unwrap();
    assert_eq!(fmt, iso8601_flex());

    let fmt = Format::from_str("%Y-%j").unwrap();
    assert_eq!(fmt, iso8601_ordinal());

    let fmt = Format::from_str("%A, %d %B %Y %H:%M:%S").unwrap();
    assert_eq!(fmt, rfc2822_long());

    let fmt = Format::from_str("%a, %d %b %Y %H:%M:%S").unwrap();
    assert_eq!(fmt, rfc2822());
}

#[test]
fn format_from_str_rfc3339() {
    assert_eq!(Format::from_str("%Y-%m-%dT%H:%M:%S.%f%z").unwrap(), rfc3339());
    assert_eq!(Format::from_str("%Y-%m-%dT%H:%M:%S.%f?%z").unwrap(), rfc3339_flex());
}

#[test]
fn format_unknown_token() {
    assert_eq!(
        Format::from_str("%Y-%Q").unwrap_err(),
        ParsingError::UnknownToken { token: 'Q' }
    );
}

#[test]
fn format_too_many_tokens() {
    let sixteen = "%Y%Y%Y%Y%Y%Y%Y%Y%Y%Y%Y%Y%Y%Y%Y%Y";
    assert!(Format::from_str(sixteen).is_ok());
    let seventeen = "%Y%Y%Y%Y%Y%Y%Y%Y%Y%Y%Y%Y%Y%Y%Y%Y%Y";
    assert_eq!(
        Format::from_str(seventeen).unwrap_err(),
        ParsingError::UnknownFormat
    );
}

#[test]
fn format_need_gregorian() {
    assert!(iso8601().need_gregorian());
    assert!(!Format::from_str("%j %T").unwrap().need_gregorian());
    assert!(!Format::empty().need_gregorian());
}

#[test]
fn item_optional_marker() {
    let item = Item::new(Token::Subsecond, Some('?'), Some(' '));
    assert!(item.optional);
    assert_eq!(item.sep_char, Some(' '));
    assert_eq!(item.second_sep_char, None);
    assert!(item.sep_char_is(' '));
    assert!(!item.sep_char_is_not(' '));
    assert!(item.sep_char_is_not('x'));
    assert!(!item.second_sep_char_is(' '));
    assert!(!item.second_sep_char_is_not(' '));
}
