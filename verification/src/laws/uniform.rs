//! Estimating the length of a stream whose frames all have the same length.
use crate::error::Error;
use crate::estimate::{
    point_after, sample_step, sample_stride, samples_in, HEADERS_PER_POINT, MAX_LEN,
};
use crate::laws::estimate::{
    estimate_of, estimate_tally, law_estimate, points_tally, sample_tally, scan_tally, Tally,
};
use crate::reader::SAMPLES_PER_AAC_PACKET;
use crate::stream::{
    header_at, header_from, law_next_sync, law_read, next_sync, sync_at, word_at, ByteStream,
};
use vstd::prelude::*;

verus! {

/// Whether `s` is `k` frames of `len` bytes each, one after the other, and holds no sync word but
/// theirs.
pub open spec fn uniform_frames(s: Seq<u8>, k: nat, len: u16) -> bool {
    &&& len > 0
    &&& s.len() == k * len
    &&& forall|p: int| #[trigger] sync_at(s, p) <==> 0 <= p < s.len() && p % len as int == 0
    &&& forall|p: int| #[trigger]
        sync_at(s, p) ==> (header_at(s, p) matches Ok(header) && header.frame_len == len)
}

/// Whether a tally is of frames of `len` bytes each.
spec fn all_of(tally: Tally, len: u16) -> bool {
    tally.bytes == tally.frames * len
}

proof fn lemma_all_of_base(len: u16)
    ensures
        all_of(Tally::zero(), len),
        all_of(Tally::frame(len), len),
{
    assert(0 * len == 0 && 1 * len == len) by (nonlinear_arith);
}

proof fn lemma_all_of_plus(a: Tally, b: Tally, len: u16)
    requires
        all_of(a, len),
        all_of(b, len),
    ensures
        all_of(a.plus(b), len),
{
    assert((a.frames + b.frames) * len == a.frames * len + b.frames * len) by (nonlinear_arith);
}

/// From anywhere, the next header is that of a frame, unless the last frame starts before.
proof fn lemma_next_header(s: Seq<u8>, k: nat, len: u16, pos: int)
    requires
        uniform_frames(s, k, len),
        0 <= pos <= s.len(),
    ensures
        header_from(s, pos) matches Ok(header) ==> header.frame_len == len,
        pos + len <= s.len() ==> header_from(s, pos) is Ok,
{
    law_next_sync(s, pos);
    if pos + len <= s.len() {
        let l = len as int;
        let q = (pos + l - 1) / l * l;
        assert(pos <= q < pos + l && q % l == 0) by (nonlinear_arith)
            requires
                l > 0,
                q == (pos + l - 1) / l * l,
        ;
        assert(sync_at(s, q));
    }
}

proof fn lemma_sample_uniform(s: Seq<u8>, k: nat, len: u16, pos: int, left: nat)
    requires
        uniform_frames(s, k, len),
        0 <= pos <= s.len(),
    ensures
        all_of(sample_tally(s, pos, left), len),
        left > 0 && pos + len <= s.len() ==> sample_tally(s, pos, left).frames > 0,
    decreases left,
{
    lemma_all_of_base(len);
    law_read(s, None, pos);
    law_next_sync(s, pos);
    lemma_next_header(s, k, len, pos);
    if left > 0 && header_from(s, pos) is Ok {
        let behind = next_sync(s, pos)->0 + header_from(s, pos)->Ok_0.spec_header_len();
        lemma_sample_uniform(s, k, len, behind, (left - 1) as nat);
        lemma_all_of_plus(
            Tally::frame(len),
            sample_tally(s, behind, (left - 1) as nat),
            len,
        );
    }
}

proof fn lemma_points_uniform(
    s: Seq<u8>,
    k: nat,
    len: u16,
    original_pos: int,
    total_len: int,
    point: Option<int>,
)
    requires
        uniform_frames(s, k, len),
        0 <= original_pos <= total_len <= s.len(),
        sample_stride(original_pos, total_len) > 0,
        point matches Some(p) ==> 0 <= p <= total_len,
    ensures
        all_of(points_tally(s, original_pos, total_len, point), len),
        point matches Some(p) && p + len <= s.len() ==> points_tally(
            s,
            original_pos,
            total_len,
            point,
        ).frames > 0,
    decreases
            match point {
                Some(p) => total_len - p,
                None => 0,
            },
            if point is Some {
                1int
            } else {
                0int
            },
{
    lemma_all_of_base(len);
    if point is Some {
        let p = point->0;
        let next = point_after(original_pos, total_len, p);
        lemma_sample_uniform(s, k, len, p, HEADERS_PER_POINT as nat);
        lemma_points_uniform(s, k, len, original_pos, total_len, next);
        lemma_all_of_plus(
            sample_tally(s, p, HEADERS_PER_POINT as nat),
            points_tally(s, original_pos, total_len, next),
            len,
        );
    }
}

/// The part of the stream before `end` holds as many frames as are whole there.
proof fn lemma_scan_uniform(s: Seq<u8>, k: nat, len: u16, end: int, pos: int)
    requires
        uniform_frames(s, k, len),
        0 <= pos <= end <= s.len(),
        pos % len as int == 0,
    ensures
        all_of(scan_tally(s.take(end), pos), len),
        pos + len <= end ==> scan_tally(s.take(end), pos).frames > 0,
    decreases end - pos,
{
    let part = s.take(end);
    lemma_all_of_base(len);
    law_read(part, None, pos);
    if pos < end {
        assert(sync_at(s, pos));
        law_read(s, None, pos);
    }
    if pos + 1 < end {
        assert(word_at(part, pos) == word_at(s, pos));
        assert(next_sync(part, pos) == Some(pos));
        let header = header_at(s, pos)->Ok_0;
        let behind = pos + header.spec_header_len();
        if behind <= end {
            assert(part.subrange(pos + 2, behind) =~= s.subrange(pos + 2, behind));
            assert(header_from(part, pos) == header_at(s, pos));
            if pos + len <= end {
                assert((pos + len) % len as int == 0) by (nonlinear_arith)
                    requires
                        pos % len as int == 0,
                        len > 0,
                ;
                lemma_scan_uniform(s, k, len, end, pos + len);
                lemma_all_of_plus(Tally::frame(len), scan_tally(part, pos + len), len);
            }
        }
    }
}

/// The average of equal lengths is that length, and it divides the length of the stream.
proof fn lemma_average(tally: Tally, k: nat, len: u16)
    requires
        tally.frames > 0,
        len > 0,
        all_of(tally, len),
    ensures
        samples_in(k * len, tally.frames as int, tally.bytes as int) == k * SAMPLES_PER_AAC_PACKET,
{
    let frames = tally.frames as int;
    let l = len as int;
    assert((frames * l) / frames == l) by (nonlinear_arith)
        requires
            frames > 0,
    ;
    assert((k * l) / l == k) by (nonlinear_arith)
        requires
            l > 0,
    ;
}

/// The estimate is exact where all frames have the same length: a stream of `k` of them, and no
/// sync word but theirs, has the samples of `k` packets, whether or not the stream can seek. The
/// start of a stream that can seek is not sampled, so it has to hold two frames. Where the distance
/// of its sample points is cut to what the machine's addresses reach, something has to be left of
/// it, and the sum of the frame lengths has to fit in its type.
pub proof fn law_uniform_frames(st: ByteStream, k: nat, len: u16)
    requires
        st.wf(),
        st.limit is None,
        st.sized,
        st.pos == 0,
        uniform_frames(st.data, k, len),
        k >= 1,
        k * SAMPLES_PER_AAC_PACKET <= u64::MAX,
        st.seekable ==> k >= 2,
        st.seekable && sample_stride(0, st.data.len() as int) != sample_step(
            0,
            st.data.len() as int,
        ) ==> {
            &&& sample_stride(0, st.data.len() as int) > 0
            &&& estimate_tally(st).bytes <= u64::MAX
        },
    ensures
        estimate_of(st) == (
            st,
            Ok::<Option<u64>, Error>(Some((k * SAMPLES_PER_AAC_PACKET) as u64)),
        ),
{
    let s = st.data;
    let total_len = s.len() as int;
    assert(len <= total_len) by (nonlinear_arith)
        requires
            total_len == k * len,
            k >= 1,
    ;
    assert(sync_at(s, 0));
    law_read(s, None, 0);
    assert(len >= 7);
    if st.seekable {
        let step = sample_step(0, total_len);
        let stride = sample_stride(0, total_len);
        assert(total_len >= 2 * len) by (nonlinear_arith)
            requires
                total_len == k * len,
                k >= 2,
        ;
        assert(0 < stride <= step);
        assert(point_after(0, total_len, 0) == Some(stride));
        lemma_points_uniform(s, k, len, 0, total_len, Some(stride));
    } else {
        let end = if MAX_LEN < total_len {
            MAX_LEN as int
        } else {
            total_len
        };
        assert(s.take(total_len) =~= s);
        lemma_scan_uniform(s, k, len, end, 0);
    }
    lemma_average(estimate_tally(st), k, len);
    law_estimate(st);
}

} // verus!
