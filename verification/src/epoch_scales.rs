use vstd::prelude::*;

use crate::duration::{add_value, lemma_shift, max_ns, min_ns, sub_value, Duration};
use crate::epoch::Epoch;
use crate::timescale::TimeScale;

verus! {

/// TT is ahead of TAI by 32.184 seconds, in nanoseconds.
pub open spec fn tt_offset_ns() -> int {
    32_184_000_000
}

/// The duration since 1900-01-01 TAI of the reference epoch of a GNSS time scale, in
/// nanoseconds: 1980-01-06 for GPST and QZSST, 1999-08-22 for GST and 2006-01-01 for BDT
/// (each at midnight UTC, which the leap seconds of the time put after midnight TAI).
pub open spec fn gnss_reference_ns(ts: TimeScale) -> int {
    match ts {
        TimeScale::GPST | TimeScale::QZSST => 2_524_953_619_000_000_000,
        TimeScale::GST => 3_144_268_819_000_000_000,
        TimeScale::BDT => 3_345_062_433_000_000_000,
        _ => 0,
    }
}

/// Whether a time scale differs from TAI by a fixed duration: TAI, TT and the GNSS time
/// scales (UTC follows the leap seconds; ET and TDB follow series of floating point terms).
pub open spec fn fixed_offset(ts: TimeScale) -> bool {
    !(ts == TimeScale::UTC || ts == TimeScale::ET || ts == TimeScale::TDB)
}

/// The value of the TAI duration of an epoch of a duration in a time scale at a fixed offset
/// from TAI: TT durations are lessened by the TT offset, GNSS durations increased by the
/// reference of their time scale, with the saturation of durations.
pub open spec fn tai_value(d: Duration, ts: TimeScale) -> int {
    match ts {
        TimeScale::TAI => d@,
        TimeScale::TT => sub_value(d, Duration::of_ns(tt_offset_ns())),
        _ => add_value(d, Duration::of_ns(gnss_reference_ns(ts))),
    }
}

/// The value of the duration, in a time scale at a fixed offset from TAI, of a TAI duration.
pub open spec fn scale_value(tai: Duration, ts: TimeScale) -> int {
    match ts {
        TimeScale::TAI => tai@,
        TimeScale::TT => add_value(tai, Duration::of_ns(tt_offset_ns())),
        _ => sub_value(tai, Duration::of_ns(gnss_reference_ns(ts))),
    }
}

/// The signed offset of a time scale at a fixed offset: its durations plus this offset are
/// TAI durations.
pub open spec fn offset_to_tai(ts: TimeScale) -> int {
    match ts {
        TimeScale::TAI => 0,
        TimeScale::TT => -tt_offset_ns(),
        _ => gnss_reference_ns(ts),
    }
}

/// The TT offset as a duration.
fn tt_offset() -> (d: Duration)
    ensures
        d.wf(),
        d == Duration::of_ns(tt_offset_ns()),
{
    let d = Duration::from_parts(0, 32_184_000_000);
    proof {
        Duration::lemma_of_ns(tt_offset_ns());
        Duration::lemma_unique(d, Duration::of_ns(tt_offset_ns()));
    }
    d
}

/// The reference of a GNSS time scale as a TAI duration.
fn gnss_reference(ts: TimeScale) -> (d: Duration)
    ensures
        d.wf(),
        d == Duration::of_ns(gnss_reference_ns(ts)),
{
    proof {
        Duration::lemma_of_ns(gnss_reference_ns(ts));
    }
    let d = match ts {
        TimeScale::GPST | TimeScale::QZSST => Duration::from_parts(0, 2_524_953_619_000_000_000),
        TimeScale::GST => Duration::from_parts(0, 3_144_268_819_000_000_000),
        TimeScale::BDT => Duration::from_parts(0, 3_345_062_433_000_000_000),
        _ => Duration::from_parts(0, 0),
    };
    proof {
        Duration::lemma_unique(d, Duration::of_ns(gnss_reference_ns(ts)));
    }
    d
}

impl Epoch {
    /// The duration since 1900-01-01 TAI of this epoch, when its time scale is at a fixed
    /// offset from TAI; None for UTC, ET and TDB.
    pub fn to_tai_duration_fixed(&self) -> (r: Option<Duration>)
        requires
            self.wf(),
        ensures
            r is None <==> !fixed_offset(self.time_scale),
            r is Some ==> r->0.wf() && r->0@ == tai_value(self.duration, self.time_scale),
    {
        match self.time_scale {
            TimeScale::TAI => Some(self.duration),
            TimeScale::TT => Some(self.duration - tt_offset()),
            TimeScale::GPST | TimeScale::QZSST | TimeScale::GST | TimeScale::BDT => Some(
                self.duration + gnss_reference(self.time_scale),
            ),
            TimeScale::UTC | TimeScale::ET | TimeScale::TDB => None,
        }
    }
}

impl Epoch {
    /// The epoch in a time scale at a fixed offset from TAI of a duration since 1900-01-01
    /// TAI; None for UTC, ET and TDB.
    pub fn from_tai_duration_fixed(tai: Duration, ts: TimeScale) -> (r: Option<Epoch>)
        requires
            tai.wf(),
        ensures
            r is None <==> !fixed_offset(ts),
            r is Some ==> r->0.wf() && r->0.time_scale == ts && r->0.duration@ == scale_value(
                tai,
                ts,
            ),
    {
        match ts {
            TimeScale::TAI => Some(Epoch::from_duration(tai, ts)),
            TimeScale::TT => Some(Epoch::from_duration(tai + tt_offset(), ts)),
            TimeScale::GPST | TimeScale::QZSST | TimeScale::GST | TimeScale::BDT => Some(
                Epoch::from_duration(tai - gnss_reference(ts), ts),
            ),
            TimeScale::UTC | TimeScale::ET | TimeScale::TDB => None,
        }
    }

    /// This epoch in another time scale, when both time scales are at a fixed offset from TAI
    /// (through its TAI duration), or when they are the same time scale (the epoch itself);
    /// None otherwise.
    pub fn to_time_scale_fixed(&self, ts: TimeScale) -> (r: Option<Epoch>)
        requires
            self.wf(),
        ensures
            ts == self.time_scale ==> r == Some(*self),
            ts != self.time_scale ==> (r is None <==> !(fixed_offset(self.time_scale)
                && fixed_offset(ts))),
            ts != self.time_scale ==> (r is Some ==> r->0.wf() && r->0.time_scale == ts
                && r->0.duration@ == scale_value(
                Duration::of_ns(tai_value(self.duration, self.time_scale)),
                ts,
            )),
    {
        if ts == self.time_scale {
            return Some(*self);
        }
        match self.to_tai_duration_fixed() {
            Some(tai) => {
                proof {
                    tai.lemma_range();
                    Duration::lemma_of_ns(tai@);
                    Duration::lemma_unique(tai, Duration::of_ns(tai@));
                }
                Epoch::from_tai_duration_fixed(tai, ts)
            },
            None => None,
        }
    }
}

/// Converting an epoch between two time scales at a fixed offset from TAI, and back, gives
/// the epoch again when neither conversion saturates: the first one gives the duration plus
/// the difference of the offsets of the time scales, the second one takes it away.
pub proof fn law_fixed_scales_round_trip(e: Epoch, ts: TimeScale)
    requires
        e.wf(),
        fixed_offset(e.time_scale),
        fixed_offset(ts),
        min_ns() <= e.duration@ + offset_to_tai(e.time_scale) <= max_ns(),
        min_ns() <= e.duration@ + offset_to_tai(e.time_scale) - offset_to_tai(ts) <= max_ns(),
    ensures
        ({
            let there = scale_value(Duration::of_ns(tai_value(e.duration, e.time_scale)), ts);
            &&& there == e.duration@ + offset_to_tai(e.time_scale) - offset_to_tai(ts)
            &&& scale_value(Duration::of_ns(tai_value(Duration::of_ns(there), ts)), e.time_scale)
                == e.duration@
        }),
{
    let d = e.duration;
    let (o1, o2) = (offset_to_tai(e.time_scale), offset_to_tai(ts));
    e.duration.lemma_range();
    lemma_shift(d, tt_offset_ns());
    lemma_shift(d, gnss_reference_ns(e.time_scale));
    let t1 = tai_value(d, e.time_scale);
    assert(t1 == d@ + o1);
    Duration::lemma_of_ns(t1);
    let tt1 = Duration::of_ns(t1);
    lemma_shift(tt1, tt_offset_ns());
    lemma_shift(tt1, gnss_reference_ns(ts));
    let s1 = scale_value(tt1, ts);
    assert(s1 == d@ + o1 - o2);
    Duration::lemma_of_ns(s1);
    let ss = Duration::of_ns(s1);
    lemma_shift(ss, tt_offset_ns());
    lemma_shift(ss, gnss_reference_ns(ts));
    let t2 = tai_value(ss, ts);
    assert(t2 == d@ + o1);
    let tt2 = Duration::of_ns(t2);
    lemma_shift(tt2, tt_offset_ns());
    lemma_shift(tt2, gnss_reference_ns(e.time_scale));
}

} // verus!
