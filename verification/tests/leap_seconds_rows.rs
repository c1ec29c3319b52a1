use hifitime::errors::{HifitimeError, ParsingError};
use hifitime::leap_seconds::leap_second_rows;

#[test]
fn leap_second_file_rows() {
    let text = "#\tcomment line\n#@\t3944332800\n\n2272060800\t10\t# 1 Jan 1972\r\n2287785600 \u{3000} 11\t# 1 Jul 1972\n+2303683200   012\n";
    assert_eq!(
        leap_second_rows(text),
        Ok(vec![(2_272_060_800, 10), (2_287_785_600, 11), (2_303_683_200, 12)])
    );
    assert_eq!(leap_second_rows(""), Ok(vec![]));
    assert_eq!(leap_second_rows("# only comments\n#\n"), Ok(vec![]));
}

#[test]
fn leap_second_file_errors() {
    assert_eq!(
        leap_second_rows("2272060800\n"),
        Err(HifitimeError::Parse {
            source: ParsingError::UnknownFormat,
            details: "leap seconds file should have two columns exactly",
        })
    );
    assert_eq!(
        leap_second_rows("   \n"),
        Err(HifitimeError::Parse {
            source: ParsingError::UnknownFormat,
            details: "leap seconds file should have two columns exactly",
        })
    );
    assert_eq!(
        leap_second_rows("22720x0800 10\n"),
        Err(HifitimeError::Parse {
            source: ParsingError::ValueError,
            details: "first column value is not numeric",
        })
    );
    assert_eq!(
        leap_second_rows("2272060800 -10\n"),
        Err(HifitimeError::Parse {
            source: ParsingError::ValueError,
            details: "second column value is not numeric",
        })
    );
}
