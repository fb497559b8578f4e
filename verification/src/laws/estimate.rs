//! Estimating the length of a stream.
use crate::error::Error;
use crate::estimate::{
    can_estimate, estimate_start, estimate_transition, phase_after, point_after,
    sample_step, sample_stride, samples_in, Estimate, Phase, HEADERS_PER_POINT, MAX_LEN,
};
use crate::protocol::Step;
use crate::stream::{header_from, law_next_sync, law_read, next_sync, ByteStream};
use vstd::prelude::*;

verus! {

/// A number of frames, and the sum of their lengths.
pub struct Tally {
    pub frames: nat,
    pub bytes: nat,
}

impl Tally {
    pub open spec fn zero() -> Self {
        Tally { frames: 0, bytes: 0 }
    }

    pub open spec fn plus(self, other: Self) -> Self {
        Tally { frames: self.frames + other.frames, bytes: self.bytes + other.bytes }
    }

    pub open spec fn frame(len: u16) -> Self {
        Tally { frames: 1, bytes: len as nat }
    }

    /// The number of samples in `total_len` bytes of such frames.
    pub open spec fn count(self, total_len: int) -> Option<u64> {
        if self.frames == 0 {
            None
        } else {
            Some(samples_in(total_len, self.frames as int, self.bytes as int) as u64)
        }
    }

    /// Whether that number fits in its type.
    pub open spec fn count_fits(self, total_len: int) -> bool {
        self.frames > 0 ==> samples_in(total_len, self.frames as int, self.bytes as int) <= u64::MAX
    }
}

/// The frames that follow one another from `pos` on, as far as they are whole.
pub open spec fn scan_tally(s: Seq<u8>, pos: int) -> Tally
    decreases s.len() - pos,
    when 0 <= pos <= s.len()
    via scan_tally_decreases
{
    match header_from(s, pos) {
        Ok(header) => {
            let end = next_sync(s, pos)->0 + header.frame_len;
            if end <= s.len() {
                Tally::frame(header.frame_len).plus(scan_tally(s, end))
            } else {
                Tally::zero()
            }
        },
        Err(_) => Tally::zero(),
    }
}

#[via_fn]
proof fn scan_tally_decreases(s: Seq<u8>, pos: int) {
    law_read(s, None, pos);
    law_next_sync(s, pos);
}

/// The first headers found from `pos` on, `left` of them at most. Each is looked for behind the
/// header before it, and counts with the length that it declares.
pub open spec fn sample_tally(s: Seq<u8>, pos: int, left: nat) -> Tally
    decreases left,
{
    if left == 0 {
        Tally::zero()
    } else {
        match header_from(s, pos) {
            Ok(header) => Tally::frame(header.frame_len).plus(
                sample_tally(
                    s,
                    next_sync(s, pos)->0 + header.spec_header_len(),
                    (left - 1) as nat,
                ),
            ),
            Err(_) => Tally::zero(),
        }
    }
}

/// The headers found at the sample point `point`, and at all that come after it.
pub open spec fn points_tally(
    s: Seq<u8>,
    original_pos: int,
    total_len: int,
    point: Option<int>,
) -> Tally
    decreases
            match point {
                Some(p) => total_len - p,
                None => 0,
            },
            if point is Some {
                1int
            } else {
                0int
            },
    when
        sample_stride(original_pos, total_len) > 0 && original_pos <= total_len && (point matches Some(
            p,
        ) ==> p <= total_len)
    via points_tally_decreases
{
    match point {
        Some(p) => sample_tally(s, p, HEADERS_PER_POINT as nat).plus(
            points_tally(s, original_pos, total_len, point_after(original_pos, total_len, p)),
        ),
        None => Tally::zero(),
    }
}

#[via_fn]
proof fn points_tally_decreases(
    s: Seq<u8>,
    original_pos: int,
    total_len: int,
    point: Option<int>,
) {
}

/// Whether the sample points of an estimate lie apart.
pub open spec fn points_apart(e: Estimate) -> bool {
    match e.phase {
        Phase::Seeking { point } | Phase::Sampling { point, .. } => {
            &&& sample_stride(e.original_pos as int, e.total_len as int) > 0
            &&& e.original_pos <= e.total_len
            &&& point <= e.total_len
        },
        _ => true,
    }
}

/// The order of the phases of an estimate.
pub open spec fn estimate_rank(e: Estimate) -> int {
    match e.phase {
        Phase::OpeningScope => 2,
        Phase::Reading => 1,
        Phase::Skipping { .. } => 1,
        Phase::Seeking { .. } => 1,
        Phase::Sampling { .. } => 1,
        Phase::ClosingScope => 0,
        Phase::Restoring => 0,
    }
}

/// How much of the stream an estimate has still to go through.
pub open spec fn estimate_left(e: Estimate, st: ByteStream) -> int {
    match e.phase {
        Phase::Reading => st.end() - st.pos,
        Phase::Skipping { .. } => st.end() - st.pos + 1,
        Phase::Seeking { point } => e.total_len - point,
        Phase::Sampling { point, .. } => e.total_len - point,
        _ => 0,
    }
}

/// How many headers an estimate has still to read at a sample point.
pub open spec fn estimate_headers(e: Estimate) -> int {
    match e.phase {
        Phase::Seeking { .. } => HEADERS_PER_POINT + 1,
        Phase::Sampling { left, .. } => left as int,
        _ => 0,
    }
}

/// Estimates the length of `st`, from `e` on: the stream afterwards, and the result.
#[verifier::opaque]
pub open spec fn run_estimate(e: Estimate, st: ByteStream) -> (
    ByteStream,
    Result<Option<u64>, Error>,
)
    decreases estimate_rank(e), estimate_left(e, st), estimate_headers(e),
    when st.wf() && points_apart(e)
    via run_estimate_decreases
{
    let (next_st, event) = st.serve(e.spec_action());
    match estimate_transition(e, event) {
        Step::Continue(next) => run_estimate(next, next_st),
        Step::Done(res) => (next_st, res),
    }
}

#[via_fn]
proof fn run_estimate_decreases(e: Estimate, st: ByteStream) {
    law_read(st.visible(), st.limit, st.pos);
    law_next_sync(st.visible(), st.pos);
}

/// Estimates the length of `st`, from the start: the stream afterwards, and the result.
pub open spec fn estimate_of(st: ByteStream) -> (ByteStream, Result<Option<u64>, Error>) {
    match estimate_start(st.info()) {
        Step::Continue(e) => run_estimate(e, st),
        Step::Done(res) => (st, res),
    }
}

/// The frames that an estimate of `st` rests on.
pub open spec fn estimate_tally(st: ByteStream) -> Tally {
    let total_len = st.data.len() - st.pos;
    if st.seekable {
        points_tally(st.data, st.pos, total_len, point_after(st.pos, total_len, st.pos))
    } else if st.pos + MAX_LEN < st.data.len() {
        scan_tally(st.data.take(st.pos + MAX_LEN), st.pos)
    } else {
        scan_tally(st.data, st.pos)
    }
}

/// Whether the result of an estimate of `st` fits in its type; and the sum of the frame lengths too,
/// where the distance of the sample points is cut to what the machine's addresses reach, which
/// leaves no bound on the number of points.
pub open spec fn estimate_fits(st: ByteStream) -> bool {
    let total_len = st.data.len() - st.pos;
    st.sized ==> {
        &&& estimate_tally(st).count_fits(total_len)
        &&& st.seekable && sample_stride(st.pos, total_len) != sample_step(st.pos, total_len)
            ==> estimate_tally(st).bytes <= u64::MAX
    }
}

/// The tally of an estimate so far.
spec fn tally_of(e: Estimate) -> Tally {
    Tally { frames: e.parsed_n_frames as nat, bytes: e.n_bytes as nat }
}

pub(crate) proof fn lemma_scan_tally_bound(s: Seq<u8>, pos: int)
    requires
        0 <= pos <= s.len(),
    ensures
        scan_tally(s, pos).bytes <= s.len() - pos,
        scan_tally(s, pos).frames <= scan_tally(s, pos).bytes,
    decreases s.len() - pos,
{
    law_read(s, None, pos);
    law_next_sync(s, pos);
    if header_from(s, pos) is Ok {
        let end = next_sync(s, pos)->0 + header_from(s, pos)->Ok_0.frame_len;
        if end <= s.len() {
            lemma_scan_tally_bound(s, end);
        }
    }
}

pub(crate) proof fn lemma_sample_tally_bound(s: Seq<u8>, pos: int, left: nat)
    requires
        0 <= pos <= s.len(),
    ensures
        sample_tally(s, pos, left).frames <= sample_tally(s, pos, left).bytes,
        sample_tally(s, pos, left).bytes <= 8191 * left,
    decreases left,
{
    law_read(s, None, pos);
    law_next_sync(s, pos);
    if left > 0 && header_from(s, pos) is Ok {
        lemma_sample_tally_bound(
            s,
            next_sync(s, pos)->0 + header_from(s, pos)->Ok_0.spec_header_len(),
            (left - 1) as nat,
        );
    }
}

/// There are `n` sample points at most if the last of them comes within `n` steps. The lengths of
/// the frames found at them add up accordingly.
proof fn lemma_points_tally_bound(
    s: Seq<u8>,
    original_pos: int,
    total_len: int,
    point: Option<int>,
    n: nat,
)
    requires
        0 <= original_pos <= total_len <= s.len(),
        sample_stride(original_pos, total_len) == sample_step(original_pos, total_len),
        sample_step(original_pos, total_len) > 0,
        point matches Some(p) ==> {
            let step = sample_step(original_pos, total_len);
            0 <= p < total_len - step <= p + n * step
        },
    ensures
        points_tally(s, original_pos, total_len, point).bytes <= n * (HEADERS_PER_POINT * 8191),
    decreases n,
{
    if point is Some {
        let p = point->0;
        let step = sample_step(original_pos, total_len);
        assert(n > 0) by (nonlinear_arith)
            requires
                p < total_len - step <= p + n * step,
        ;
        assert((n - 1) * step == n * step - step) by (nonlinear_arith);
        lemma_sample_tally_bound(s, p, HEADERS_PER_POINT as nat);
        lemma_points_tally_bound(
            s,
            original_pos,
            total_len,
            point_after(original_pos, total_len, p),
            (n - 1) as nat,
        );
    }
}

/// The lengths of the frames that an estimate rests on add up to a number that fits in its type.
proof fn lemma_estimate_tally_fits(st: ByteStream)
    requires
        st.wf(),
        st.sized,
        can_estimate(st.info()),
        estimate_fits(st),
    ensures
        estimate_tally(st).bytes <= u64::MAX,
{
    let total_len = st.data.len() - st.pos;
    if !st.seekable {
        let end = if st.pos + MAX_LEN < st.data.len() {
            st.pos + MAX_LEN
        } else {
            st.data.len() as int
        };
        assert(st.data.take(st.data.len() as int) =~= st.data);
        lemma_scan_tally_bound(st.data.take(end), st.pos);
    } else if sample_stride(st.pos, total_len) == sample_step(st.pos, total_len) {
        let point = point_after(st.pos, total_len, st.pos);
        lemma_points_tally_bound(st.data, st.pos, total_len, point, 5);
    }
}

proof fn lemma_run_scan(e: Estimate, st: ByteStream)
    requires
        st.wf(),
        e.phase is Reading,
        e.n_bytes + scan_tally(st.visible(), st.pos).bytes <= u64::MAX,
        e.parsed_n_frames <= e.n_bytes,
    ensures
        run_estimate(e, st) == (
            st.within(None).at(e.original_pos as int),
            Ok::<Option<u64>, Error>(
                tally_of(e).plus(scan_tally(st.visible(), st.pos)).count(e.total_len as int),
            ),
        ),
    decreases st.end() - st.pos,
{
    let s = st.visible();
    law_read(s, st.limit, st.pos);
    law_next_sync(s, st.pos);
    reveal_with_fuel(run_estimate, 4);
    lemma_scan_tally_bound(s, st.pos);
    if header_from(s, st.pos) is Ok {
        let header = header_from(s, st.pos)->Ok_0;
        let end = next_sync(s, st.pos)->0 + header.frame_len;
        if end <= s.len() {
            lemma_scan_tally_bound(s, end);
            let next = e.counting(header);
            assert(st.at(end).visible() =~= s);
            lemma_run_scan(next, st.at(end));
            assert(tally_of(e).plus(scan_tally(s, st.pos)) == tally_of(next).plus(
                scan_tally(s, end),
            ));
        }
    }
}

/// The headers that an estimate has still to find.
spec fn tally_left(e: Estimate, st: ByteStream) -> Tally {
    let original_pos = e.original_pos as int;
    let total_len = e.total_len as int;
    match e.phase {
        Phase::Seeking { point } => points_tally(
            st.data,
            original_pos,
            total_len,
            Some(point as int),
        ),
        Phase::Sampling { point, left } => sample_tally(st.data, st.pos, left as nat).plus(
            points_tally(
                st.data,
                original_pos,
                total_len,
                point_after(original_pos, total_len, point as int),
            ),
        ),
        _ => Tally::zero(),
    }
}

/// Where an estimate can be that goes from sample point to sample point.
spec fn samples(e: Estimate, st: ByteStream) -> bool {
    &&& st.wf()
    &&& st.limit is None
    &&& st.seekable
    &&& points_apart(e)
    &&& e.phase is Seeking || e.phase is Sampling || e.phase is Restoring
    &&& e.phase matches Phase::Sampling { left, .. } ==> left > 0
    &&& e.original_pos <= st.data.len()
    &&& e.total_len <= st.data.len()
    &&& e.n_bytes + tally_left(e, st).bytes <= u64::MAX
    &&& e.parsed_n_frames <= e.n_bytes
}

/// Whether a step of such an estimate moves frames from those still to find to those found, or ends
/// the estimate with all of them.
spec fn samples_on(e: Estimate, st: ByteStream) -> bool {
    let (next_st, event) = st.serve(e.spec_action());
    match estimate_transition(e, event) {
        Step::Continue(next) => {
            &&& samples(next, next_st)
            &&& next.original_pos == e.original_pos
            &&& next.total_len == e.total_len
            &&& next_st == st.at(next_st.pos)
            &&& tally_of(next).plus(tally_left(next, next_st)) == tally_of(e).plus(
                tally_left(e, st),
            )
            &&& decreases_to!(
                estimate_rank(e), estimate_left(e, st), estimate_headers(e) =>
                estimate_rank(next), estimate_left(next, next_st), estimate_headers(next)
            )
        },
        Step::Done(res) => {
            &&& next_st == st.at(e.original_pos as int)
            &&& res == Ok::<Option<u64>, Error>(
                tally_of(e).plus(tally_left(e, st)).count(e.total_len as int),
            )
        },
    }
}

proof fn lemma_sample_seeking(e: Estimate, st: ByteStream)
    requires
        samples(e, st),
        e.phase is Seeking,
    ensures
        samples_on(e, st),
{
}

/// What is left to find after the last header at `point`.
proof fn lemma_tally_left_after(e: Estimate, st: ByteStream, point: int)
    requires
        e.phase == phase_after(e.original_pos as int, e.total_len as int, point),
        0 <= point <= e.total_len,
        e.original_pos <= e.total_len,
        sample_stride(e.original_pos as int, e.total_len as int) > 0,
    ensures
        points_apart(e),
        tally_left(e, st) == points_tally(
            st.data,
            e.original_pos as int,
            e.total_len as int,
            point_after(e.original_pos as int, e.total_len as int, point),
        ),
{
}

proof fn lemma_sample_sampling(e: Estimate, st: ByteStream)
    requires
        samples(e, st),
        e.phase is Sampling,
    ensures
        samples_on(e, st),
{
    let s = st.data;
    let (next_st, event) = st.serve(e.spec_action());
    let next = estimate_transition(e, event)->Continue_0;
    let point = e.phase->Sampling_point as int;
    let left = e.phase->left as nat;
    assert(st.visible() =~= s);
    law_read(s, st.limit, st.pos);
    law_next_sync(s, st.pos);
    lemma_sample_tally_bound(s, st.pos, left);
    if event->Header_0 is Ok {
        let pos = next_sync(s, st.pos)->0 + header_from(s, st.pos)->Ok_0.spec_header_len();
        lemma_sample_tally_bound(s, pos, (left - 1) as nat);
        if left == 1 {
            assert(sample_tally(s, pos, 0) == Tally::zero());
            lemma_tally_left_after(next, next_st, point);
        }
    } else {
        lemma_tally_left_after(next, next_st, point);
    }
}

proof fn lemma_sample_step(e: Estimate, st: ByteStream)
    requires
        samples(e, st),
    ensures
        samples_on(e, st),
{
    match e.phase {
        Phase::Seeking { .. } => lemma_sample_seeking(e, st),
        Phase::Sampling { .. } => lemma_sample_sampling(e, st),
        _ => {},
    }
}

proof fn lemma_run_sample(e: Estimate, st: ByteStream)
    requires
        samples(e, st),
    ensures
        run_estimate(e, st) == (
            st.at(e.original_pos as int),
            Ok::<Option<u64>, Error>(
                tally_of(e).plus(tally_left(e, st)).count(e.total_len as int),
            ),
        ),
    decreases estimate_rank(e), estimate_left(e, st), estimate_headers(e),
{
    lemma_sample_step(e, st);
    let (next_st, event) = st.serve(e.spec_action());
    match estimate_transition(e, event) {
        Step::Continue(next) => lemma_run_sample(next, next_st),
        Step::Done(_) => {},
    }
    reveal_with_fuel(run_estimate, 1);
}

/// An estimate leaves the stream where it was. It counts the frames that follow, up to a limit, of
/// a stream that cannot seek, and those found at the sample points of one that can; their average
/// length gives the number of samples in the stream. There is no estimate without any frame, nor
/// where the length of the stream is not known.
pub proof fn law_estimate(st: ByteStream)
    requires
        st.wf(),
        st.limit is None,
        can_estimate(st.info()),
        estimate_fits(st),
    ensures
        estimate_of(st) == (
            st,
            Ok::<Option<u64>, Error>(
                if st.sized {
                    estimate_tally(st).count(st.data.len() - st.pos)
                } else {
                    None
                },
            ),
        ),
{
    if st.sized {
        lemma_estimate_tally_fits(st);
        let e = estimate_start(st.info())->Continue_0;
        assert(st.visible() =~= st.data);
        assert(st.at(st.pos) == st);
        if st.seekable {
            assert(tally_of(e).plus(tally_left(e, st)) == estimate_tally(st));
            lemma_run_sample(e, st);
        } else {
            let limited = st.serve(e.spec_action()).0;
            assert(limited.visible() =~= st.data.take(limited.end()));
            let reading = e.in_phase(Phase::Reading);
            lemma_scan_tally_bound(limited.visible(), st.pos);
            lemma_run_scan(reading, limited);
            assert(run_estimate(e, st) == run_estimate(reading, limited)) by {
                reveal_with_fuel(run_estimate, 1);
            }
            assert(limited.within(None).at(st.pos) == st);
            assert(tally_of(reading).plus(estimate_tally(st)) == estimate_tally(st));
        }
    }
}

} // verus!
