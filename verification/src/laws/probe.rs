//! Scoring a stream.
use crate::error::Error;
use crate::header::is_sync;
use crate::probe::{score_transition, ScoreState, MARKERS};
use crate::protocol::Step;
use crate::stream::{header_here, law_read_no_resync, ByteStream};
use vstd::prelude::*;

verus! {

/// The steps that a scoring in this state can still take.
pub open spec fn score_steps(state: ScoreState) -> nat {
    match state {
        ScoreState::First => 3,
        ScoreState::Measuring { .. } => 2,
        ScoreState::Skipping { .. } => 1,
        ScoreState::Second => 0,
    }
}

/// Scores `st`, from `state` on.
pub open spec fn run_score(state: ScoreState, st: ByteStream) -> Result<u8, Error>
    decreases score_steps(state),
    when st.wf()
    via run_score_decreases
{
    let (next_st, event) = st.serve(state.spec_action());
    match score_transition(state, event) {
        Step::Continue(next) => run_score(next, next_st),
        Step::Done(res) => res,
    }
}

#[via_fn]
proof fn run_score_decreases(state: ScoreState, st: ByteStream) {
}

/// The markers are all the sync words that there are, each of them once.
pub proof fn law_markers(first: u8, second: u8)
    ensures
        is_sync(first * 256 + second) <==> exists|i: int|
            0 <= i < 4 && #[trigger] MARKERS@[i]@ == seq![first, second],
        forall|i: int, j: int|
            0 <= i < j < 4 ==> #[trigger] MARKERS@[i]@ != #[trigger] MARKERS@[j]@,
{
    assert forall|i: int| 0 <= i < 4 implies #[trigger] MARKERS@[i]@.len() == 2 by {}
    assert(MARKERS@[0]@ =~= seq![0xffu8, 0xf1u8]);
    assert(MARKERS@[1]@ =~= seq![0xffu8, 0xf0u8]);
    assert(MARKERS@[2]@ =~= seq![0xffu8, 0xf9u8]);
    assert(MARKERS@[3]@ =~= seq![0xffu8, 0xf8u8]);
    assert(MARKERS@[0]@[1] == 0xf1 && MARKERS@[1]@[1] == 0xf0);
    assert(MARKERS@[2]@[1] == 0xf9 && MARKERS@[3]@[1] == 0xf8);
    if is_sync(first * 256 + second) {
        assert(first == 0xff);
        assert(second == 0xf0 || second == 0xf1 || second == 0xf8 || second == 0xf9);
        let i: int = if second == 0xf1 {
            0
        } else if second == 0xf0 {
            1
        } else if second == 0xf9 {
            2
        } else {
            3
        };
        assert(MARKERS@[i]@ == seq![first, second]);
    }
    if exists|i: int| 0 <= i < 4 && #[trigger] MARKERS@[i]@ == seq![first, second] {
        let i = choose|i: int| 0 <= i < 4 && #[trigger] MARKERS@[i]@ == seq![first, second];
        assert(seq![first, second][0] == MARKERS@[i]@[0]);
        assert(seq![first, second][1] == MARKERS@[i]@[1]);
    }
}

/// A stream that starts with a header is an ADTS stream, with full confidence if a second header
/// follows the first frame at once, and with less where the scope is too short to hold one. It is
/// none if there is no first header, or something else, or the end of the data, in place of the
/// second.
pub proof fn law_score(st: ByteStream)
    requires
        st.wf(),
        st.limit is Some,
        st.limit->0 - st.pos <= u64::MAX,
    ensures
        run_score(ScoreState::First, st) == match header_here(st.visible(), st.pos) {
            Err(error) => Err(error),
            Ok(header) => if st.limit->0 < st.pos + header.frame_len + 9 {
                Ok(127u8)
            } else {
                match header_here(st.visible(), st.pos + header.frame_len) {
                    Err(error) => Err(error),
                    Ok(_) => Ok(255u8),
                }
            },
        },
{
    law_read_no_resync(st.visible(), st.limit, st.pos);
    reveal_with_fuel(run_score, 4);
    if header_here(st.visible(), st.pos) is Ok {
        let next = st.pos + header_here(st.visible(), st.pos)->Ok_0.frame_len;
        if next <= st.end() {
            law_read_no_resync(st.visible(), st.limit, next);
        }
    }
}

} // verus!
