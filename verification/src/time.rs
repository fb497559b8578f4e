//! Times and timestamps.
use vstd::prelude::*;

verus! {

/// A time, as whole seconds and nanoseconds that are added to them.
#[derive(Clone, Copy, Debug, PartialEq, Eq)]
pub struct Time {
    pub seconds: i64,
    pub nanos: u32,
}

/// The length in seconds of one tick of a timestamp, as a fraction.
#[derive(Clone, Copy, Debug, PartialEq, Eq)]
pub struct TimeBase {
    pub numer: u32,
    pub denom: u32,
}

impl Time {
    /// There are fewer nanoseconds than a second has.
    pub open spec fn wf(self) -> bool {
        self.nanos < 1_000_000_000
    }
}

/// Division that rounds towards zero.
pub open spec fn div_towards_zero(n: int, d: int) -> int {
    if n >= 0 {
        n / d
    } else {
        -((-n) / d)
    }
}

impl TimeBase {
    /// A tick lasts more than no time, and its length is defined.
    pub open spec fn wf(self) -> bool {
        self.numer > 0 && self.denom > 0
    }

    /// How many ticks have passed at `time`, rounded towards zero. The nanoseconds count as the
    /// whole number of units of `1 / denom` seconds that fit in them.
    pub open spec fn ticks_at(self, time: Time) -> int {
        div_towards_zero(
            time.seconds * self.denom + (time.nanos * self.denom) / 1_000_000_000,
            self.numer as int,
        )
    }

    /// The time base with `rate` ticks in a second.
    pub open spec fn recip(rate: u32) -> Option<TimeBase> {
        if rate == 0 {
            None
        } else {
            Some(TimeBase { numer: 1, denom: rate })
        }
    }

    /// The time base with `rate` ticks in a second, if there are any.
    pub fn try_from_recip(rate: u32) -> (base: Option<TimeBase>)
        ensures
            base == Self::recip(rate),
    {
        if rate == 0 {
            None
        } else {
            Some(TimeBase { numer: 1, denom: rate })
        }
    }

    /// The timestamp at `time`, or nothing if it is negative or does not fit in 63 bits.
    pub fn calc_timestamp(&self, time: Time) -> (ts: Option<u64>)
        requires
            self.wf(),
            time.wf(),
        ensures
            ts == if 0 <= self.ticks_at(time) <= i64::MAX {
                Some(self.ticks_at(time) as u64)
            } else {
                None
            },
    {
        match time_base_calc_timestamp(self.numer, self.denom, time.seconds, time.nanos) {
            Some(ts) => {
                if ts >= 0 {
                    Some(ts as u64)
                } else {
                    None
                }
            },
            None => None,
        }
    }
}

/// `symphonia_core::units::TimeBase::calc_timestamp`, for the time base `numer / denom` and the
/// time of `seconds` and `nanos`: the number of ticks, or nothing if an `i64` cannot hold it.
#[verifier::external_body]
fn time_base_calc_timestamp(numer: u32, denom: u32, seconds: i64, nanos: u32) -> (ts: Option<i64>)
    requires
        numer > 0,
        denom > 0,
        nanos < 1_000_000_000,
    ensures
        ts == ({
            let ticks = (TimeBase { numer, denom }).ticks_at(Time { seconds, nanos });
            if i64::MIN <= ticks <= i64::MAX {
                Some(ticks as i64)
            } else {
                None
            }
        }),
{
    let base = symphonia_core::units::TimeBase::try_new(numer, denom).unwrap();
    let time = symphonia_core::units::Time::try_new(seconds, nanos).unwrap();
    base.calc_timestamp(time).map(|ts| ts.get())
}

} // verus!
