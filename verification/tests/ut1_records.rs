use hifitime::duration::Duration;
use hifitime::epoch::Epoch;
use hifitime::errors::{HifitimeError, ParsingError};
use hifitime::unit::Unit;
use hifitime::ut1::{eop2_rows, sort_records, ut1_offset};

const EOP2: &str = " header line\n EOP2=\n 59000.00, 1.0, 2.0, -37.5, 4\r\n\n 58999.00,1,2,-37.25\n $END\n 1,2,3,4\n";

#[test]
fn eop2_data_lines_give_their_columns() {
    let rows = eop2_rows(EOP2).unwrap();
    assert_eq!(rows.len(), 2);
    let ((a, b), (c, d)) = rows[0];
    assert_eq!(&EOP2[a..b], " 59000.00");
    assert_eq!(&EOP2[c..d], " -37.5");
    let ((a, b), (c, d)) = rows[1];
    assert_eq!(&EOP2[a..b], " 58999.00");
    assert_eq!(&EOP2[c..d], "-37.25");
}

#[test]
fn eop2_line_without_fourth_column_is_an_error() {
    let text = "EOP2=\n59000,1,2\n$END\n";
    assert_eq!(
        eop2_rows(text),
        Err(HifitimeError::Parse {
            source: ParsingError::UnknownFormat,
            details: "missing ΔUT1 column (3)",
        })
    );
    assert_eq!(eop2_rows("no data here\n1,2,3\n").unwrap().len(), 0);
}

fn record(days: i64, delta_ms: i64) -> (Epoch, Duration) {
    (Epoch::from_tai_duration(days * Unit::Day), delta_ms * Unit::Millisecond)
}

#[test]
fn records_are_sorted_and_looked_up() {
    let records = sort_records(vec![record(30, 3), record(10, 1), record(20, 2), record(10, 4)]);
    let days: Vec<i128> = records.iter().map(|(e, _)| e.duration.total_nanoseconds()).collect();
    let mut expected = days.clone();
    expected.sort();
    assert_eq!(days, expected);
    assert_eq!(records.len(), 4);
    assert_eq!(ut1_offset(&records, 5 * Unit::Day), None);
    assert_eq!(ut1_offset(&records, 25 * Unit::Day), Some(2 * Unit::Millisecond));
    assert_eq!(ut1_offset(&records, 30 * Unit::Day), Some(3 * Unit::Millisecond));
    assert_eq!(ut1_offset(&records, 300 * Unit::Day), Some(3 * Unit::Millisecond));
}
