//! Times and timestamps.
use crate::header::AdtsHeader;
use crate::open::reader_of;
use crate::protocol::Step;
use crate::reader::{SeekState, SeekTo, SeekedTo};
use crate::time::{Time, TimeBase};
use vstd::arithmetic::div_mod::{lemma_fundamental_div_mod, lemma_fundamental_div_mod_converse};
use vstd::prelude::*;

verus! {

/// A tick is the reciprocal of the rate: as many of them as the rate says are one second.
pub proof fn law_time_base(rate: u32)
    ensures
        rate == 0 <==> TimeBase::recip(rate) is None,
        TimeBase::recip(rate) matches Some(base) ==> base.numer == 1 && base.denom == rate,
{
}

/// Whether `ticks` is the number of ticks of `base` that have passed at `time`: the nanoseconds are
/// rounded down to units of `1 / denom` seconds, and the units since zero towards zero to ticks of
/// `numer` units each.
pub open spec fn is_tick_count(base: TimeBase, time: Time, ticks: int) -> bool {
    exists|part: int|
        {
            let units = #[trigger] units_at(base, time, part);
            &&& part * 1_000_000_000 <= time.nanos * base.denom < (part + 1) * 1_000_000_000
            &&& units >= 0 ==> ticks * base.numer <= units < (ticks + 1) * base.numer
            &&& units < 0 ==> (ticks - 1) * base.numer < units <= ticks * base.numer
        }
}

/// The units of `1 / denom` seconds in the whole seconds of `time`, and `part` more.
pub open spec fn units_at(base: TimeBase, time: Time, part: int) -> int {
    time.seconds * base.denom + part
}

/// The number of ticks at a time is the only one that is right.
pub proof fn law_ticks(base: TimeBase, time: Time, ticks: int)
    requires
        base.wf(),
    ensures
        is_tick_count(base, time, ticks) <==> ticks == base.ticks_at(time),
{
    let n = time.nanos * base.denom;
    let d = base.numer as int;
    let part = n / 1_000_000_000;
    let units = units_at(base, time, part);
    let right = base.ticks_at(time);
    assert(0 <= n) by (nonlinear_arith)
        requires
            n == time.nanos * base.denom,
    ;
    if units >= 0 {
        lemma_fundamental_div_mod(units, d);
        assert(right * d <= units < (right + 1) * d) by (nonlinear_arith)
            requires
                right == units / d,
                units == d * (units / d) + units % d,
                0 <= units % d < d,
        ;
    } else {
        lemma_fundamental_div_mod(-units, d);
        let q = (-units) / d;
        assert((right - 1) * d < units <= right * d) by (nonlinear_arith)
            requires
                right == -q,
                -units == d * q + (-units) % d,
                0 <= (-units) % d < d,
        ;
    }
    assert(is_tick_count(base, time, right));
    if is_tick_count(base, time, ticks) {
        let p = choose|p: int|
            {
                let units = #[trigger] units_at(base, time, p);
                &&& p * 1_000_000_000 <= time.nanos * base.denom < (p + 1) * 1_000_000_000
                &&& units >= 0 ==> ticks * base.numer <= units < (ticks + 1) * base.numer
                &&& units < 0 ==> (ticks - 1) * base.numer < units <= ticks * base.numer
            };
        assert(p == part);
        if units >= 0 {
            lemma_same_quotient(units, d, ticks, right);
        } else {
            assert((-ticks) * d <= -units < (-ticks + 1) * d) by (nonlinear_arith)
                requires
                    (ticks - 1) * d < units <= ticks * d,
            ;
            assert((-right) * d <= -units < (-right + 1) * d) by (nonlinear_arith)
                requires
                    (right - 1) * d < units <= right * d,
            ;
            lemma_same_quotient(-units, d, -ticks, -right);
        }
    }
}

/// A number lies between two multiples in a row in one way only.
pub(crate) proof fn lemma_same_quotient(x: int, d: int, a: int, b: int)
    requires
        d > 0,
        a * d <= x < (a + 1) * d,
        b * d <= x < (b + 1) * d,
    ensures
        a == b,
{
    assert(a == b) by (nonlinear_arith)
        requires
            d > 0,
            a * d <= x < (a + 1) * d,
            b * d <= x < (b + 1) * d,
    ;
}

/// A quotient is the one number of whole divisors that fit.
pub(crate) proof fn lemma_quotient(x: int, d: int, q: int)
    requires
        0 <= x,
        d > 0,
        q * d <= x < (q + 1) * d,
    ensures
        x / d == q,
{
    assert((q + 1) * d == q * d + d) by (nonlinear_arith);
    lemma_fundamental_div_mod_converse(x, d, q, x - q * d);
}

/// In a stream that was just opened, `s` whole seconds are `s` times as many samples as its first
/// header says that there are in a second; a seek to that time looks for that sample.
pub proof fn law_seek_seconds(
    header: AdtsHeader,
    first_frame_pos: u64,
    num_frames: Option<u64>,
    s: i64,
    seekable: bool,
)
    requires
        header.sample_rate > 0,
        s >= 0,
        s * header.sample_rate <= i64::MAX,
    ensures
        reader_of(header, first_frame_pos, num_frames).seek_start(
            SeekTo::Time(Time { seconds: s, nanos: 0 }),
            seekable,
        ) == Step::<SeekState, SeekedTo>::Continue(
            SeekState::Scanning { required_ts: (s * header.sample_rate) as u64 },
        ),
{
    let base = TimeBase { numer: 1, denom: header.sample_rate };
    let time = Time { seconds: s, nanos: 0 };
    assert(s * header.sample_rate >= 0) by (nonlinear_arith)
        requires
            s >= 0,
    ;
    assert(0 * header.sample_rate == 0) by (nonlinear_arith);
    assert(base.ticks_at(time) == s * header.sample_rate);
}

} // verus!
