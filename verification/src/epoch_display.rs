use vstd::prelude::*;
use vstd::string::StringExecFns;

use crate::display::{decimal, push_decimal};
use crate::datetime::{Datetime, Era, Instant};
use crate::duration::Duration;
use crate::epoch::{gregorian_parts, Epoch};
use crate::timescale::TimeScale;

verus! {

/// `n` zeros (none when `n` is not positive).
pub open spec fn zeros(n: int) -> Seq<char> {
    Seq::new(if n > 0 { n as nat } else { 0 }, |i: int| '0')
}

/// The decimal writing of a natural number padded with leading zeros to `width` characters.
pub open spec fn padded_nat(v: nat, width: int) -> Seq<char> {
    zeros(width - decimal(v).len()) + decimal(v)
}

/// The decimal writing of an integer padded with zeros, after its sign, to `width`
/// characters (as integers are written with a zero flag and a width, e.g. `{:04}`).
pub open spec fn padded_int(v: int, width: int) -> Seq<char> {
    if v < 0 {
        "-"@ + padded_nat((-v) as nat, width - 1)
    } else {
        padded_nat(v as nat, width)
    }
}

/// The name of a time scale.
pub open spec fn time_scale_name(ts: TimeScale) -> Seq<char> {
    match ts {
        TimeScale::TAI => "TAI"@,
        TimeScale::TT => "TT"@,
        TimeScale::ET => "ET"@,
        TimeScale::TDB => "TDB"@,
        TimeScale::UTC => "UTC"@,
        TimeScale::GPST => "GPST"@,
        TimeScale::GST => "GST"@,
        TimeScale::BDT => "BDT"@,
        TimeScale::QZSST => "QZSST"@,
    }
}

/// A separator followed by a number padded with zeros to `width` characters.
pub open spec fn sep_padded(sep: Seq<char>, v: int, width: int) -> Seq<char> {
    sep + padded_nat(v as nat, width)
}

/// The date and time of Gregorian parts as `YYYY-MM-DDTHH:MM:SS`, followed by `.` and nine
/// digits of nanoseconds when these are not zero.
pub open spec fn date_time_text(p: (int, int, int, int, int, int, int)) -> Seq<char> {
    padded_int(p.0, 4) + sep_padded("-"@, p.1, 2) + sep_padded("-"@, p.2, 2) + sep_padded(
        "T"@,
        p.3,
        2,
    ) + sep_padded(":"@, p.4, 2) + sep_padded(":"@, p.5, 2) + if p.6 == 0 {
        Seq::<char>::empty()
    } else {
        sep_padded("."@, p.6, 9)
    }
}

/// The Gregorian text of a duration in a time scale: its date and time, a space and the name
/// of the time scale.
pub open spec fn gregorian_text(duration: Duration, ts: TimeScale) -> Seq<char> {
    date_time_text(gregorian_parts(duration, ts)) + " "@ + time_scale_name(ts)
}

/// The RFC3339 text of a UTC duration: its date and time followed by `+00:00`.
pub open spec fn rfc3339_text(duration: Duration) -> Seq<char> {
    date_time_text(gregorian_parts(duration, TimeScale::UTC)) + "+00:00"@
}

/// The date and time of a date time as `YYYY-MM-DD`, the separator, then `HH:MM:SS`.
pub open spec fn datetime_text_with(dt: Datetime, sep: Seq<char>) -> Seq<char> {
    padded_int(dt.spec_year() as int, 4) + sep_padded("-"@, dt.spec_month() as int, 2)
        + sep_padded("-"@, dt.spec_day() as int, 2) + sep_padded(sep, dt.spec_hour() as int, 2)
        + sep_padded(":"@, dt.spec_minute() as int, 2) + sep_padded(
        ":"@,
        dt.spec_second() as int,
        2,
    )
}

/// The text of an offset: `+` (or `-` in the past era), then its whole hours and the minutes
/// of the rest, each padded with zeros to two digits (`+03:30`, `-00:30`).
pub open spec fn offset_text(o: Instant) -> Seq<char> {
    (if o.spec_era() == Era::Past {
        "-"@
    } else {
        "+"@
    }) + padded_nat((o.spec_secs() / 3600) as nat, 2) + sep_padded(
        ":"@,
        (o.spec_secs() % 3600 / 60) as int,
        2,
    )
}

/// The number of digits of the decimal writing of a number.
fn decimal_len(v: u64) -> (n: usize)
    ensures
        n == decimal(v as nat).len(),
        1 <= n <= 20,
    decreases v,
{
    if v >= 10 {
        let k = decimal_len(v / 10);
        proof {
            assert(decimal(v as nat).len() == decimal((v / 10) as nat).len() + 1);
        }
        if k >= 20 {
            proof {
                lemma_decimal_len_bound(v as nat);
            }
        }
        k + 1
    } else {
        1
    }
}

/// A number below `10^19` has at most 19 digits, and any 64 bit number at most 20.
proof fn lemma_decimal_len_bound(v: nat)
    requires
        v <= u64::MAX,
    ensures
        decimal(v).len() <= 20,
    decreases v,
{
    reveal_with_fuel(pow10, 21);
    assert(pow10(20) == 100_000_000_000_000_000_000nat);
    lemma_decimal_len_le(v, 20);
}

/// The number of digits of a number below `10^k` is at most `k`.
pub proof fn lemma_decimal_len_le(v: nat, k: nat)
    requires
        k >= 1,
        v < pow10(k),
    ensures
        decimal(v).len() <= k,
    decreases v,
{
    if v >= 10 {
        assert(k >= 2) by {
            if k == 1 {
                assert(pow10(1) == 10 * pow10(0));
            }
        }
        assert(pow10(k) == 10 * pow10((k - 1) as nat));
        assert(v / 10 < pow10((k - 1) as nat));
        lemma_decimal_len_le(v / 10, (k - 1) as nat);
    }
}

/// Ten to the power `k`.
pub open spec fn pow10(k: nat) -> nat
    decreases k,
{
    if k == 0 {
        1
    } else {
        10 * pow10((k - 1) as nat)
    }
}

/// Appends `n` zeros to the text.
fn push_zeros(out: &mut String, n: usize)
    ensures
        final(out)@ == old(out)@ + zeros(n as int),
{
    proof {
        reveal_strlit("0");
    }
    let mut k: usize = 0;
    while k < n
        invariant
            k <= n,
            out@ == old(out)@ + zeros(k as int),
        decreases n - k,
    {
        out.append("0");
        proof {
            reveal_strlit("0");
            assert(zeros(k as int) + "0"@ =~= zeros(k + 1));
        }
        k = k + 1;
    }
}

/// Appends the decimal writing of a number padded with zeros to `width` characters.
fn push_padded(out: &mut String, v: u64, width: usize)
    ensures
        final(out)@ == old(out)@ + padded_nat(v as nat, width as int),
{
    let len = decimal_len(v);
    if len < width {
        push_zeros(out, width - len);
    } else {
        push_zeros(out, 0);
    }
    push_decimal(out, v);
    proof {
        assert(final(out)@ =~= old(out)@ + padded_nat(v as nat, width as int));
    }
}

/// Appends a year padded with zeros, after its sign, to four characters.
fn push_year(out: &mut String, y: i32)
    ensures
        final(out)@ == old(out)@ + padded_int(y as int, 4),
{
    if y < 0 {
        out.append("-");
        let magnitude: u64 = if y == i32::MIN {
            2_147_483_648
        } else {
            (-y) as u64
        };
        push_padded(out, magnitude, 3);
        proof {
            reveal_strlit("-");
            assert(final(out)@ =~= old(out)@ + padded_int(y as int, 4));
        }
    } else {
        push_padded(out, y as u64, 4);
    }
}

/// Appends a separator and a number padded with zeros.
fn push_sep_padded(out: &mut String, sep: &str, v: u64, width: usize)
    ensures
        final(out)@ == old(out)@ + sep_padded(sep@, v as int, width as int),
{
    out.append(sep);
    push_padded(out, v, width);
    proof {
        assert(final(out)@ =~= old(out)@ + sep_padded(sep@, v as int, width as int));
    }
}

/// Appends the date and time of Gregorian parts.
fn push_date_time(out: &mut String, p: (i32, u8, u8, u8, u8, u8, u32))
    ensures
        final(out)@ == old(out)@ + date_time_text(
            (p.0 as int, p.1 as int, p.2 as int, p.3 as int, p.4 as int, p.5 as int, p.6 as int),
        ),
{
    let ghost start = out@;
    let ghost q = (p.0 as int, p.1 as int, p.2 as int, p.3 as int, p.4 as int, p.5 as int, p.6 as int);
    push_year(out, p.0);
    let ghost t0 = padded_int(q.0, 4);
    push_sep_padded(out, "-", p.1 as u64, 2);
    let ghost t1 = t0 + sep_padded("-"@, q.1, 2);
    assert(out@ =~= start + t1);
    push_sep_padded(out, "-", p.2 as u64, 2);
    let ghost t2 = t1 + sep_padded("-"@, q.2, 2);
    assert(out@ =~= start + t2);
    push_sep_padded(out, "T", p.3 as u64, 2);
    let ghost t3 = t2 + sep_padded("T"@, q.3, 2);
    assert(out@ =~= start + t3);
    push_sep_padded(out, ":", p.4 as u64, 2);
    let ghost t4 = t3 + sep_padded(":"@, q.4, 2);
    assert(out@ =~= start + t4);
    push_sep_padded(out, ":", p.5 as u64, 2);
    let ghost t5 = t4 + sep_padded(":"@, q.5, 2);
    assert(out@ =~= start + t5);
    if p.6 != 0 {
        push_sep_padded(out, ".", p.6 as u64, 9);
        assert(out@ =~= start + (t5 + sep_padded("."@, q.6, 9)));
    } else {
        assert(t5 + Seq::<char>::empty() =~= t5);
    }
}

/// Appends the name of a time scale.
fn push_time_scale(out: &mut String, ts: TimeScale)
    ensures
        final(out)@ == old(out)@ + time_scale_name(ts),
{
    match ts {
        TimeScale::TAI => out.append("TAI"),
        TimeScale::TT => out.append("TT"),
        TimeScale::ET => out.append("ET"),
        TimeScale::TDB => out.append("TDB"),
        TimeScale::UTC => out.append("UTC"),
        TimeScale::GPST => out.append("GPST"),
        TimeScale::GST => out.append("GST"),
        TimeScale::BDT => out.append("BDT"),
        TimeScale::QZSST => out.append("QZSST"),
    }
}

impl Epoch {
    /// The Gregorian date and time of a duration in a time scale, in the ISO8601 format with
    /// the time scale appended (e.g. `2017-01-14T00:31:55 UTC`, with nine digits of
    /// nanoseconds when these are not zero).
    pub fn format_gregorian(duration: Duration, time_scale: TimeScale) -> (r: String)
        requires
            duration.wf(),
        ensures
            r@ == gregorian_text(duration, time_scale),
    {
        let p = Epoch::compute_gregorian(duration, time_scale);
        let mut out = String::new();
        push_date_time(&mut out, p);
        out.append(" ");
        push_time_scale(&mut out, time_scale);
        proof {
            reveal_strlit(" ");
            assert(out@ =~= gregorian_text(duration, time_scale));
        }
        out
    }

    /// Prints this epoch in Gregorian in the time scale used at initialization.
    pub fn to_text(&self) -> (r: String)
        requires
            self.wf(),
        ensures
            r@ == gregorian_text(self.duration, self.time_scale),
    {
        Epoch::format_gregorian(self.duration, self.time_scale)
    }

    /// The RFC3339 text of a UTC duration: its date and time followed by `+00:00`.
    pub fn format_rfc3339(duration_utc: Duration) -> (r: String)
        requires
            duration_utc.wf(),
        ensures
            r@ == rfc3339_text(duration_utc),
    {
        let p = Epoch::compute_gregorian(duration_utc, TimeScale::UTC);
        let mut out = String::new();
        push_date_time(&mut out, p);
        out.append("+00:00");
        proof {
            reveal_strlit("+00:00");
            assert(out@ =~= rfc3339_text(duration_utc));
        }
        out
    }
}

impl Datetime {
    /// Writes the date and time of this date time with the given separator between them
    /// (`YYYY-MM-DD`, the separator, `HH:MM:SS`), without its offset.
    fn text_with(&self, sep: &str) -> (r: String)
        ensures
            r@ == datetime_text_with(*self, sep@),
    {
        let mut out = String::new();
        let ghost start = out@;
        push_year(&mut out, *self.year());
        push_sep_padded(&mut out, "-", *self.month() as u64, 2);
        push_sep_padded(&mut out, "-", *self.day() as u64, 2);
        push_sep_padded(&mut out, sep, *self.hour() as u64, 2);
        push_sep_padded(&mut out, ":", *self.minute() as u64, 2);
        push_sep_padded(&mut out, ":", *self.second() as u64, 2);
        proof {
            assert(start =~= Seq::<char>::empty());
            assert(out@ =~= datetime_text_with(*self, sep@));
        }
        out
    }

    /// Formats as ISO8601 without the offset: `YYYY-MM-DDTHH:MM:SS`.
    pub fn to_iso_text(&self) -> (r: String)
        ensures
            r@ == datetime_text_with(*self, "T"@),
    {
        self.text_with("T")
    }

    /// Formats as human readable, with the date and time separated by a space and no offset:
    /// `YYYY-MM-DD HH:MM:SS`.
    pub fn to_spaced_text(&self) -> (r: String)
        ensures
            r@ == datetime_text_with(*self, " "@),
    {
        self.text_with(" ")
    }
}

impl Instant {
    /// Formats this instant as an offset from UTC: `+HH:MM`, or `-HH:MM` in the past era.
    pub fn to_offset_text(&self) -> (r: String)
        ensures
            r@ == offset_text(*self),
    {
        let mut out = String::new();
        let ghost start = out@;
        match self.era() {
            Era::Past => out.append("-"),
            Era::Present => out.append("+"),
        }
        let secs = self.secs();
        push_padded(&mut out, secs / 3600, 2);
        push_sep_padded(&mut out, ":", secs % 3600 / 60, 2);
        proof {
            reveal_strlit("-");
            reveal_strlit("+");
            assert(start =~= Seq::<char>::empty());
            assert(out@ =~= offset_text(*self));
        }
        out
    }
}

} // verus!
