use hifitime::consts::NANOSECONDS_PER_CENTURY;
use hifitime::duration::Duration;
use hifitime::errors::{DurationError, HifitimeError};
use hifitime::parts::DurationParts;
use hifitime::unit::Unit;

#[test]
fn duration_test_bounds() {
    let min = Duration::init_from_min();
    assert_eq!(min.to_parts().0, i16::MIN);
    assert_eq!(min.to_parts().1, 0);

    let max = Duration::init_from_max();
    assert_eq!(max.to_parts().0, i16::MAX);
    assert_eq!(max.to_parts().1, NANOSECONDS_PER_CENTURY);

    let min_p = Duration::min_positive();
    assert_eq!(min_p.to_parts().0, 0);
    assert_eq!(min_p.to_parts().1, 1);

    let min_n = Duration::min_negative();
    assert_eq!(min_n.to_parts().0, -1);
    assert_eq!(min_n.to_parts().1, NANOSECONDS_PER_CENTURY - 1);

    let min_n1 = Duration::init_from_min() - 1 * Unit::Nanosecond;
    assert_eq!(min_n1, Duration::init_from_min());

    let max_n1 = Duration::init_from_max() - 1 * Unit::Nanosecond;
    assert_eq!(max_n1.to_parts().0, i16::MAX);
    assert_eq!(max_n1.to_parts().1, NANOSECONDS_PER_CENTURY - 1);
}

#[test]
fn duration_decompose_negative_days() {
    let d = -73000 * Unit::Day;
    assert_eq!(d.total_nanoseconds(), -73000 * 86_400_000_000_000);
    assert_eq!(d.decompose(), (-1, 73000, 0, 0, 0, 0, 0, 0));
}

#[test]
fn duration_decompose_mixed() {
    let d = 5 * Unit::Hour + 256 * Unit::Millisecond + 1 * Unit::Nanosecond;
    assert_eq!(d.decompose(), (1, 0, 5, 0, 0, 256, 0, 1));
}

#[test]
fn duration_add_commutes_and_saturates() {
    let a = 3 * Unit::Day;
    let b = -5 * Unit::Hour;
    assert_eq!(a + b, b + a);
    assert_eq!((a + b).total_nanoseconds(), 3 * 86_400_000_000_000 - 5 * 3_600_000_000_000);
    let max = Duration::init_from_max();
    assert_eq!(max + a, max);
    let min = Duration::init_from_min();
    assert_eq!(min + b, min);
}

#[test]
fn duration_sub_then_add() {
    let a = 2 * Unit::Century + 7 * Unit::Second;
    let b = 3 * Unit::Century;
    assert_eq!((a - b) + b, a);
    assert_eq!(a - a, Duration::zero());
}

#[test]
fn duration_negation() {
    let a = 90 * Unit::Minute;
    assert_eq!(-(-a), a);
    assert_eq!((-a).total_nanoseconds(), -90 * 60_000_000_000);
    assert_eq!(-Duration::init_from_max(), Duration::init_from_min());
}

#[test]
fn duration_truncated_nanoseconds() {
    let d = Duration::from_truncated_nanoseconds(-1_000);
    assert_eq!(d.try_truncated_nanoseconds(), Ok(-1_000));
    assert_eq!(
        (3 * Unit::Century).try_truncated_nanoseconds(),
        Err(HifitimeError::Duration { source: DurationError::Overflow })
    );
    assert_eq!(Duration::from_total_nanoseconds(12).total_nanoseconds(), 12);
}

#[test]
fn duration_floor_ceil_round() {
    let d = 1 * Unit::Hour + 40 * Unit::Minute;
    let hour = 1 * Unit::Hour;
    assert_eq!(d.floor(hour), hour);
    assert_eq!(d.ceil(hour), 2 * Unit::Hour);
    assert_eq!(d.round(hour), 2 * Unit::Hour);
    let e = 1 * Unit::Hour + 20 * Unit::Minute;
    assert_eq!(e.round(hour), hour);
}

#[test]
fn duration_parts_round_trip() {
    let d = -(2 * Unit::Day + 3 * Unit::Hour + 4 * Unit::Minute + 5 * Unit::Second
        + 6 * Unit::Millisecond + 7 * Unit::Microsecond + 8 * Unit::Nanosecond);
    let parts = DurationParts::from(d);
    assert_eq!(parts.sign, -1);
    assert_eq!(parts.days, 2);
    assert_eq!(parts.hours, 3);
    assert_eq!(parts.minutes, 4);
    assert_eq!(parts.seconds, 5);
    assert_eq!(parts.milliseconds, 6);
    assert_eq!(parts.microseconds, 7);
    assert_eq!(parts.nanoseconds, 8);
    assert_eq!(Duration::from(parts), d);
}

#[test]
fn duration_from_parts_saturates() {
    let parts = DurationParts {
        sign: 1,
        centuries: 0,
        days: i128::MAX,
        hours: 0,
        minutes: 0,
        seconds: 0,
        milliseconds: 0,
        microseconds: 0,
        nanoseconds: 0,
        picoseconds: 0,
        femtoseconds: 0,
        attoseconds: 0,
        zeptoseconds: 0,
    };
    assert_eq!(Duration::from(parts), Duration::init_from_max());
}

#[test]
fn test_decompose() {
    let d = -(73000 * Unit::Day);
    let out_days = d.total_nanoseconds() as f64 / 86_400_000_000_000.0;
    assert_eq!(out_days, -73000.0);
    let (sign, days, hours, minutes, seconds, milliseconds, microseconds, nanoseconds) =
        d.decompose();
    assert_eq!(sign, -1);
    assert_eq!(days, 73000);
    assert_eq!(hours, 0);
    assert_eq!(minutes, 0);
    assert_eq!(seconds, 0);
    assert_eq!(milliseconds, 0);
    assert_eq!(microseconds, 0);
    assert_eq!(nanoseconds, 0);
}

#[test]
fn duration_floor_of_negative_durations() {
    let h = 2 * Unit::Hour + 3 * Unit::Minute;
    assert_eq!(h.floor(1 * Unit::Hour), 2 * Unit::Hour);
    assert_eq!(h.floor(30 * Unit::Minute), 2 * Unit::Hour);
    assert_eq!(h.floor(4 * Unit::Hour), Duration::zero());
    assert_eq!(h.floor(1 * Unit::Hour + 5 * Unit::Minute), 1 * Unit::Hour + 5 * Unit::Minute);
    let minus_90 = -(90 * Unit::Minute);
    assert_eq!(minus_90.floor(1 * Unit::Hour), -(2 * Unit::Hour));
    assert_eq!(minus_90.floor(-(1 * Unit::Hour)), -(2 * Unit::Hour));
    assert_eq!(minus_90.ceil(1 * Unit::Hour), -(1 * Unit::Hour));
    assert_eq!(minus_90.round(1 * Unit::Hour), -(1 * Unit::Hour));
    assert_eq!((-(100 * Unit::Minute)).round(1 * Unit::Hour), -(2 * Unit::Hour));
}

#[test]
fn duration_truncated_nanoseconds_every_i64() {
    for n in [i64::MIN, i64::MIN + 1, -1, 0, 1, i64::MAX] {
        assert_eq!(Duration::from_truncated_nanoseconds(n).try_truncated_nanoseconds(), Ok(n));
    }
}

#[test]
fn duration_equality_follows_the_values() {
    let quarter = 15 * Unit::Minute;
    assert!(-quarter != quarter);
    assert!(Duration::from_total_nanoseconds(1) != Duration::from_total_nanoseconds(-1));
    assert!(-quarter < quarter);
    assert_eq!(Duration::from_total_nanoseconds(-900_000_000_000), -quarter);
}
