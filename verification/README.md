# hifitime

Precise date and time handling: durations exact to the nanosecond over tens of thousands of
years, epochs in several time scales (TAI, TT, UTC, ET, TDB and the GNSS scales GPST, QZSST,
GST and BDT), the Gregorian calendar, and the reading and writing of dates and durations as
text.

The library in `src/` is written in Verus. Each public function states what it returns in
its `ensures` clause over mathematical models (a duration is an integer number of
nanoseconds, an epoch is such a duration and a time scale, a date is a tuple of integers), and
Verus proves the code against these contracts, free of overflow and of panics. Where a law
does not hold on some inputs (a 60th second shares its instant with the 59th, values that
saturate at the bounds of durations), its `requires` leaves those out and its doc comment says
so.

## Layout

- `duration.rs`, `parts.rs`, `unit.rs`, `unit_order.rs`, `std_duration.rs`: durations stored
  as centuries and nanoseconds, their arithmetic, rounding, decomposition into days, hours and
  smaller parts, and conversion to and from `core::time::Duration`.
- `gregorian.rs`, `epoch.rs`, `gregorian_laws.rs`: the calendar rules, epochs and their
  Gregorian decomposition (counted in cycles of 400 years), with the laws that a date rebuilt
  from its parts is the same epoch and the parts of the epoch of a date are that date, for
  every year whose first of January a duration holds, before 1900 too.
- `epoch_scales.rs`, `timescale.rs`: time scales and the conversions between those at a fixed
  offset from TAI.
- `epoch_with.rs`, `weekday.rs`: weekdays, month names, and setting the time of day of an
  epoch.
- `epoch_str.rs`, `epoch_text.rs`, `epoch_display.rs`, `text_round_trip.rs`: reading ISO 8601
  like dates, the `JD`, `MJD` and `SEC` notations, and writing dates; a date written by the
  library reads back as the same epoch.
- `efmt.rs`: format strings (`%Y-%m-%d` and the like) and reading dates with them.
- `parse.rs`, `display.rs`, `numeric.rs`, `text.rs`: reading and writing durations as text,
  and the numeric and white space primitives the readers use.
- `datetime.rs`: calendar date and time of day with a fixed offset from UTC, read from
  ISO8601 text and converted to and from instants, with the laws that the conversion gives the
  date time back for every year and keeps the order of date times, and that the constructors
  agree.
- `leap_seconds.rs`: the rows of leap seconds files in the IERS format.
- `ut1.rs`: the data lines of JPL EOP2 files, the sorting of their records and the lookup of
  the difference TAI - UT1 at an instant.
- `consts.rs`, `errors.rs`: common durations and the error types.

`app/` holds what the verified library leaves aside: floating point conversions (the
ephemeris and barycentric time scales, leap seconds, fractional days, the numbers of EOP2
files), the system clock, the network, serialisation, and the `Display` implementations.
