//! Opening a stream.
use crate::error::Error;
use crate::estimate::{can_estimate, estimate_start, estimate_transition, Estimate, Phase};
use crate::header::{header_size, AdtsHeader};
use crate::laws::estimate::{
    estimate_fits, estimate_headers, estimate_left, estimate_rank, estimate_tally, law_estimate,
    points_apart, run_estimate,
};
use crate::laws::header::{law_header_fields, standard_rates};
use crate::laws::packets::in_step;
use crate::open::{open_transition, reader_of, OpenState};
use crate::protocol::Step;
use crate::reader::AdtsReader;
use crate::stream::{
    header_at, header_from, law_next_sync, law_read, next_sync, word_at, ByteStream,
};
use crate::tables::AAC_SAMPLE_RATES;
use vstd::prelude::*;

verus! {

/// The order of the states of an opening.
pub open spec fn open_rank(state: OpenState) -> int {
    match state {
        OpenState::Header => 5,
        OpenState::Rewinding { .. } => 4,
        OpenState::Locating { .. } => 3,
        OpenState::Counting { estimate, .. } => estimate_rank(estimate),
    }
}

/// Opens `st`, from `state` on: the stream afterwards, and the demuxer.
#[verifier::opaque]
pub open spec fn run_open(state: OpenState, st: ByteStream) -> (
    ByteStream,
    Result<AdtsReader, Error>,
)
    decreases
            open_rank(state),
            match state {
                OpenState::Counting { estimate, .. } => estimate_left(estimate, st),
                _ => 0,
            },
            match state {
                OpenState::Counting { estimate, .. } => estimate_headers(estimate),
                _ => 0,
            },
    when st.wf() && (state matches OpenState::Counting { estimate, .. } ==> points_apart(estimate))
    via run_open_decreases
{
    let (next_st, event) = st.serve(state.spec_action());
    match open_transition(state, event) {
        Step::Continue(next) => run_open(next, next_st),
        Step::Done(res) => (next_st, res),
    }
}

#[via_fn]
proof fn run_open_decreases(state: OpenState, st: ByteStream) {
    law_read(st.visible(), st.limit, st.pos);
    law_next_sync(st.visible(), st.pos);
}

/// An estimate that goes on keeps its sample points apart, and the stream within its bounds.
proof fn lemma_estimate_goes_on(e: Estimate, st: ByteStream)
    requires
        st.wf(),
        points_apart(e),
    ensures
        ({
            let (next_st, event) = st.serve(e.spec_action());
            estimate_transition(e, event) matches Step::Continue(next) ==> {
                &&& next_st.wf()
                &&& points_apart(next)
                &&& decreases_to!(
                    estimate_rank(e), estimate_left(e, st), estimate_headers(e) =>
                    estimate_rank(next), estimate_left(next, next_st), estimate_headers(next)
                )
            }
        }),
{
    law_read(st.visible(), st.limit, st.pos);
    law_next_sync(st.visible(), st.pos);
    match e.phase {
        Phase::OpeningScope => {},
        Phase::Reading => {},
        Phase::Skipping { .. } => {},
        Phase::ClosingScope => {},
        Phase::Seeking { .. } => {},
        Phase::Sampling { .. } => {},
        Phase::Restoring => {},
    }
}

/// The counting of an opening is an estimate, and its result goes into the demuxer.
proof fn lemma_run_counting(
    header: AdtsHeader,
    first_frame_pos: u64,
    estimate: Estimate,
    st: ByteStream,
)
    requires
        st.wf(),
        points_apart(estimate),
    ensures
        ({
            let run = run_open(OpenState::Counting { header, first_frame_pos, estimate }, st);
            let (end_st, res) = run_estimate(estimate, st);
            &&& run.0 == end_st
            &&& run.1 == match res {
                Ok(num_frames) => Ok(reader_of(header, first_frame_pos, num_frames)),
                Err(error) => Err(error),
            }
        }),
    decreases estimate_rank(estimate), estimate_left(estimate, st), estimate_headers(estimate),
{
    lemma_estimate_goes_on(estimate, st);
    let (next_st, event) = st.serve(estimate.spec_action());
    match estimate_transition(estimate, event) {
        Step::Continue(next) => lemma_run_counting(header, first_frame_pos, next, next_st),
        Step::Done(_) => {},
    }
    reveal_with_fuel(run_estimate, 1);
    reveal_with_fuel(run_open, 1);
}

/// A header that was read has a sample rate.
proof fn lemma_rate_known(s: Seq<u8>, p: int)
    requires
        header_at(s, p) is Ok,
    ensures
        header_at(s, p)->Ok_0.sample_rate > 0,
{
    let has_crc = word_at(s, p) % 2 == 0;
    let body = s.subrange(p + 2, p + header_size(has_crc));
    if body.len() == header_size(has_crc) - 2 {
        law_header_fields(body, has_crc);
    }
    assert(AAC_SAMPLE_RATES@ =~= standard_rates());
}

/// Opening a stream finds its first frame, and leaves the stream at the start of it. The demuxer
/// describes the stream as the header of that frame does: its track has the channels and the sample
/// rate of that header, and a tick is the length of one sample. It tells the length as far as it can
/// be estimated, and is in step with the stream: the first packet is that frame's, with the
/// timestamp 0. A stream without a first header cannot be opened.
pub proof fn law_open(st: ByteStream)
    requires
        st.wf(),
        st.limit is None,
        header_from(st.data, st.pos) is Ok ==> ({
            let first = st.at(next_sync(st.data, st.pos)->0);
            &&& can_estimate(first.info())
            &&& estimate_fits(first)
        }),
    ensures
        match header_from(st.data, st.pos) {
            Err(error) => run_open(OpenState::Header, st).1 == Err::<AdtsReader, Error>(error),
            Ok(header) => {
                let start = next_sync(st.data, st.pos)->0;
                let run = run_open(OpenState::Header, st);
                &&& run.0 == st.at(start)
                &&& run.1 matches Ok(reader)
                &&& reader.track.id == 0
                &&& reader.track.sample_rate == header.sample_rate
                &&& reader.track.channels == header.channels
                &&& header.sample_rate > 0
                &&& reader.track.time_base matches Some(base)
                &&& base.numer == 1
                &&& base.denom == header.sample_rate
                &&& reader.track.num_frames == if st.sized {
                    estimate_tally(st.at(start)).count(st.data.len() - start)
                } else {
                    None
                }
                &&& reader.first_frame_pos == start
                &&& reader.next_packet_ts == 0
                &&& reader == reader_of(header, start as u64, reader.track.num_frames)
                &&& reader.wf()
                &&& in_step(reader, st.at(start))
            },
        },
{
    reveal_with_fuel(run_open, 1);
    let s = st.data;
    assert(st.visible() =~= s);
    law_read(s, st.limit, st.pos);
    law_next_sync(s, st.pos);
    if header_from(s, st.pos) is Ok {
        let header = header_from(s, st.pos)->Ok_0;
        let start = next_sync(s, st.pos)->0;
        let first = st.at(start);
        assert(first.visible() =~= s);
        assert(run_open(OpenState::Header, st) == run_open(OpenState::Locating { header }, first))
            by {
            let behind = st.at(start + header.spec_header_len());
            assert(run_open(OpenState::Header, st) == run_open(
                OpenState::Rewinding { header },
                behind,
            ));
            assert(behind.at(start) == first);
        }
        law_estimate(first);
        lemma_rate_known(s, start);
        reveal(in_step);
        if st.sized {
            let estimate = estimate_start(first.info())->Continue_0;
            lemma_run_counting(header, start as u64, estimate, first);
        }
    }
}

} // verus!
