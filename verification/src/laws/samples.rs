//! What the estimate of the length of a stream comes to.
use crate::error::Error;
use crate::estimate::{
    can_estimate, estimate_start, phase_after, point_after, sample_step, sample_stride, samples_in,
    Estimate, Phase, HEADERS_PER_POINT,
};
use crate::laws::estimate::{
    estimate_of, estimate_tally, law_estimate, lemma_sample_tally_bound, lemma_scan_tally_bound,
    points_tally, sample_tally, scan_tally, Tally,
};
use crate::laws::time::lemma_quotient;
use crate::protocol::{Step, StreamInfo};
use crate::stream::ByteStream;
use vstd::prelude::*;

verus! {

/// Whether `average` is the average length, rounded down, of `n` frames with `b` bytes in all, and
/// `frames` the number of frames of that length that fit in `t` bytes.
pub open spec fn averages(n: int, b: int, t: int, average: int, frames: int) -> bool {
    &&& average * n <= b < (average + 1) * n
    &&& frames * average <= t < (frames + 1) * average
}

/// The number of samples in `t` bytes, estimated from `n` frames with `b` bytes in all, is 1024
/// times the number of frames of the average length that fit.
pub proof fn law_samples_in(n: int, b: int, t: int, average: int, frames: int)
    requires
        n > 0,
        b >= n,
        t >= 0,
        averages(n, b, t, average, frames),
    ensures
        samples_in(t, n, b) == 1024 * frames,
{
    lemma_quotient(b, n, average);
    assert(average > 0) by (nonlinear_arith)
        requires
            n > 0,
            n <= b < (average + 1) * n,
    ;
    lemma_quotient(t, average, frames);
}

/// An estimate that found frames comes to 1024 samples for each frame of their average length that
/// fits in the stream, and can be told if that fits in its type. One that found none comes to
/// nothing.
pub proof fn law_count(e: Estimate, average: int, frames: int)
    requires
        e.wf(),
        e.parsed_n_frames > 0 ==> averages(
            e.parsed_n_frames as int,
            e.n_bytes as int,
            e.total_len as int,
            average,
            frames,
        ),
    ensures
        e.parsed_n_frames == 0 ==> e.spec_count() is None && e.count_fits(),
        e.parsed_n_frames > 0 ==> (e.count_fits() <==> 1024 * frames <= u64::MAX),
        e.parsed_n_frames > 0 && 1024 * frames <= u64::MAX ==> (e.spec_count() matches Some(count)
            && count == 1024 * frames),
{
    if e.parsed_n_frames > 0 {
        law_samples_in(
            e.parsed_n_frames as int,
            e.n_bytes as int,
            e.total_len as int,
            average,
            frames,
        );
        assert(frames >= 0) by (nonlinear_arith)
            requires
                0 <= e.total_len < (frames + 1) * average,
                0 < e.parsed_n_frames <= e.n_bytes < (average + 1) * e.parsed_n_frames,
        ;
    }
}

/// Frames are not empty.
proof fn lemma_points_not_empty(s: Seq<u8>, pos: int, total_len: int, point: Option<int>)
    requires
        0 <= pos <= total_len <= s.len(),
        sample_stride(pos, total_len) > 0,
        point matches Some(p) ==> 0 <= p <= total_len,
    ensures
        points_tally(s, pos, total_len, point).frames <= points_tally(
            s,
            pos,
            total_len,
            point,
        ).bytes,
    decreases
            match point {
                Some(p) => total_len - p,
                None => 0,
            },
            if point is Some {
                1int
            } else {
                0int
            },
{
    if point is Some {
        let p = point->0;
        lemma_sample_tally_bound(s, p, HEADERS_PER_POINT as nat);
        lemma_points_not_empty(s, pos, total_len, point_after(pos, total_len, p));
    }
}

/// The estimate of a stream, from any frames that were found: with `average` their average length,
/// it is 1024 times the number of frames of that length that fit in the stream. Without a frame, or
/// where the length of the stream is not known, there is none. The stream is left where it was.
pub proof fn law_estimate_samples(st: ByteStream, average: int, frames: int)
    requires
        st.wf(),
        st.limit is None,
        can_estimate(st.info()),
        st.sized && st.seekable && sample_stride(st.pos, st.data.len() - st.pos) != sample_step(
            st.pos,
            st.data.len() - st.pos,
        ) ==> estimate_tally(st).bytes <= u64::MAX,
        st.sized && estimate_tally(st).frames > 0 ==> {
            &&& averages(
                estimate_tally(st).frames as int,
                estimate_tally(st).bytes as int,
                st.data.len() - st.pos,
                average,
                frames,
            )
            &&& 1024 * frames <= u64::MAX
        },
    ensures
        estimate_of(st).0 == st,
        !st.sized || estimate_tally(st).frames == 0 ==> estimate_of(st).1 == Ok::<
            Option<u64>,
            Error,
        >(None),
        st.sized && estimate_tally(st).frames > 0 ==> {
            &&& estimate_of(st).1 matches Ok(Some(count))
            &&& count == 1024 * frames
        },
{
    let tally = estimate_tally(st);
    if st.sized && tally.frames > 0 {
        let n = tally.frames as int;
        let b = tally.bytes as int;
        let t = st.data.len() - st.pos;
        if st.seekable {
            lemma_points_not_empty(st.data, st.pos, t, point_after(st.pos, t, st.pos));
        } else {
            let end = if st.pos + 16384 < st.data.len() {
                st.pos + 16384
            } else {
                st.data.len() as int
            };
            assert(st.data.take(st.data.len() as int) =~= st.data);
            lemma_scan_tally_bound(st.data.take(end), st.pos);
        }
        law_samples_in(n, b, t, average, frames);
        assert(frames >= 0) by (nonlinear_arith)
            requires
                0 <= t < (frames + 1) * average,
                0 < n <= b < (average + 1) * n,
        ;
    }
    law_estimate(st);
}

/// The headers found at the points that lie `j`, `j + 1` and so on times `step` behind `pos`, as far
/// as they lie more than `step` before the end of `total_len` bytes: 101 at each of them at most.
pub open spec fn tally_at_points(s: Seq<u8>, pos: int, total_len: int, step: int, j: int) -> Tally
    decreases total_len - pos - j * step,
    when step > 0 && pos + j * step <= total_len
    via tally_at_points_decreases
{
    if pos + j * step < total_len - step {
        sample_tally(s, pos + j * step, 101).plus(
            tally_at_points(s, pos, total_len, step, j + 1),
        )
    } else {
        Tally::zero()
    }
}

#[via_fn]
proof fn tally_at_points_decreases(s: Seq<u8>, pos: int, total_len: int, step: int, j: int) {
    assert((j + 1) * step == j * step + step) by (nonlinear_arith);
}

/// A quarter of the way from `pos` to `total_len`, rounded down, is the distance of sample points,
/// as far as the machine's addresses reach. A point follows after that distance, unless it would
/// not lie more than that distance before the end.
pub proof fn law_sample_points(pos: int, total_len: int, point: int, step: int)
    requires
        0 <= pos <= total_len <= u64::MAX,
        0 <= point <= total_len,
        4 * step <= total_len - pos < 4 * step + 4,
        step <= usize::MAX,
    ensures
        sample_step(pos, total_len) == step,
        sample_stride(pos, total_len) == step,
        point + step < total_len - step ==> point_after(pos, total_len, point) == Some(point + step)
            && phase_after(pos, total_len, point) == (Phase::Seeking {
            point: (point + step) as u64,
        }),
        point + step >= total_len - step ==> point_after(pos, total_len, point) is None
            && phase_after(pos, total_len, point) == Phase::Restoring,
{
}

proof fn lemma_points(s: Seq<u8>, pos: int, total_len: int, step: int, j: int)
    requires
        0 <= pos <= total_len <= u64::MAX,
        4 * step <= total_len - pos < 4 * step + 4,
        0 < step <= usize::MAX,
        0 <= j,
        pos + j * step <= total_len - step,
    ensures
        tally_at_points(s, pos, total_len, step, j + 1) == points_tally(
            s,
            pos,
            total_len,
            point_after(pos, total_len, pos + j * step),
        ),
    decreases total_len - pos - j * step,
{
    let point = pos + j * step;
    assert(j * step >= 0) by (nonlinear_arith)
        requires
            j >= 0,
            step > 0,
    ;
    assert((j + 1) * step == j * step + step) by (nonlinear_arith);
    law_sample_points(pos, total_len, point, step);
    if point + step < total_len - step {
        lemma_points(s, pos, total_len, step, j + 1);
        assert((j + 1 + 1) * step == (j + 1) * step + step) by (nonlinear_arith);
        assert(tally_at_points(s, pos, total_len, step, j + 1) == sample_tally(
            s,
            point + step,
            101,
        ).plus(tally_at_points(s, pos, total_len, step, j + 1 + 1)));
        assert(points_tally(s, pos, total_len, Some(point + step)) == sample_tally(
            s,
            point + step,
            101,
        ).plus(points_tally(s, pos, total_len, point_after(pos, total_len, point + step))));
    } else {
        assert(tally_at_points(s, pos, total_len, step, j + 1) == Tally::zero());
    }
}

/// The frames that an estimate counts. Of a stream that can seek, they are those of the headers
/// found at the points that lie one, two and so on quarters of the way behind the first frame, but
/// not at the first frame itself, nor in the last quarter; up to 101 headers at each point. Of a
/// stream that cannot, they are the whole frames in the next 16384 bytes.
pub proof fn law_sampled_frames(st: ByteStream, step: int)
    requires
        st.wf(),
        st.seekable ==> {
            &&& 4 * step <= st.data.len() - 2 * st.pos < 4 * step + 4
            &&& 0 < step <= usize::MAX
        },
    ensures
        st.seekable ==> estimate_tally(st) == tally_at_points(
            st.data,
            st.pos,
            st.data.len() - st.pos,
            step,
            1,
        ),
        !st.seekable && st.data.len() - st.pos > 16384 ==> estimate_tally(st) == scan_tally(
            st.data.take(st.pos + 16384),
            st.pos,
        ),
        !st.seekable && st.data.len() - st.pos <= 16384 ==> estimate_tally(st) == scan_tally(
            st.data,
            st.pos,
        ),
{
    if st.seekable {
        assert(0 * step == 0);
        lemma_points(st.data, st.pos, st.data.len() - st.pos, step, 0);
    }
}

/// Which streams an estimate can be made of: all whose length is not known; and of the others those
/// that do not end before the position, and, if they can seek, from their position on go on for as
/// long as there was before, and for 4 bytes more at least.
pub proof fn law_can_estimate(info: StreamInfo)
    requires
        info.byte_len matches Some(len) ==> (len - 2 * info.pos) / 4 <= usize::MAX,
    ensures
        info.byte_len is None ==> can_estimate(info),
        info.byte_len matches Some(len) ==> (can_estimate(info) <==> if info.seekable {
            len - 2 * info.pos >= 4
        } else {
            info.pos <= len
        }),
{
    if info.byte_len is Some {
        let len = info.byte_len->0;
        let total_len = len - info.pos;
        if info.pos <= total_len {
            law_sample_points(
                info.pos as int,
                total_len,
                info.pos as int,
                (total_len - info.pos) / 4,
            );
        }
    }
}

/// How an estimate begins: with nothing counted, of the bytes from the position of the stream to its
/// end. A stream that can seek is sampled first at the point one step behind its position, if there
/// is one; a stream that cannot is limited first.
pub proof fn law_estimate_start(info: StreamInfo, step: int)
    requires
        info.byte_len matches Some(len) ==> {
            &&& info.pos <= len
            &&& info.seekable ==> {
                &&& 4 * step <= len - 2 * info.pos < 4 * step + 4
                &&& 0 <= step <= usize::MAX
            }
        },
    ensures
        info.byte_len is None ==> estimate_start(info) == Step::<Estimate, Option<u64>>::Done(
            Ok(None),
        ),
        info.byte_len matches Some(len) ==> {
            &&& estimate_start(info) matches Step::Continue(e)
            &&& e.original_pos == info.pos
            &&& e.total_len == len - info.pos
            &&& e.parsed_n_frames == 0
            &&& e.n_bytes == 0
            &&& !info.seekable ==> e.phase == Phase::OpeningScope
            &&& info.seekable && info.pos + step < len - info.pos - step ==> e.phase
                == (Phase::Seeking { point: (info.pos + step) as u64 })
            &&& info.seekable && info.pos + step >= len - info.pos - step ==> e.phase
                == Phase::Restoring
        },
{
    if info.byte_len is Some && info.seekable {
        law_sample_points(
            info.pos as int,
            info.byte_len->0 - info.pos,
            info.pos as int,
            step,
        );
    }
}

} // verus!
