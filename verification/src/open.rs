//! Opening a stream: from the first header to a demuxer.
use crate::estimate::{
    approximate_frame_count, can_estimate, estimable, estimate_start, estimate_transition, Estimate,
};
use crate::header::AdtsHeader;
use crate::protocol::{Action, Event, Step};
use crate::reader::{AdtsReader, Track};
use crate::time::TimeBase;
use vstd::prelude::*;

verus! {

/// How far the opening of a stream has come.
#[derive(Clone, Copy, Debug, PartialEq, Eq)]
pub enum OpenState {
    /// Reading the first header.
    Header,
    /// Going back to the start of the first frame.
    Rewinding { header: AdtsHeader },
    /// Finding out where that is.
    Locating { header: AdtsHeader },
    /// Estimating the length of the stream.
    Counting { header: AdtsHeader, first_frame_pos: u64, estimate: Estimate },
}

/// The demuxer of a stream whose first header is `header`. One tick is one sample.
pub open spec fn reader_of(
    header: AdtsHeader,
    first_frame_pos: u64,
    num_frames: Option<u64>,
) -> AdtsReader {
    AdtsReader {
        track: Track {
            id: 0,
            sample_rate: header.sample_rate,
            channels: header.channels,
            num_frames,
            time_base: TimeBase::recip(header.sample_rate),
        },
        first_frame_pos,
        next_packet_ts: 0,
    }
}

/// What the outcome of a step of the estimate means for the opening.
pub open spec fn counted(
    header: AdtsHeader,
    first_frame_pos: u64,
    step: Step<Estimate, Option<u64>>,
) -> Step<OpenState, AdtsReader> {
    match step {
        Step::Continue(estimate) => Step::Continue(
            OpenState::Counting { header, first_frame_pos, estimate },
        ),
        Step::Done(Ok(num_frames)) => Step::Done(
            Ok(reader_of(header, first_frame_pos, num_frames)),
        ),
        Step::Done(Err(error)) => Step::Done(Err(error)),
    }
}

/// What follows an event.
pub open spec fn open_transition(state: OpenState, event: Event) -> Step<OpenState, AdtsReader> {
    match (state, event) {
        (OpenState::Header, Event::Header(Ok(header))) => Step::Continue(
            OpenState::Rewinding { header },
        ),
        (OpenState::Header, Event::Header(Err(error))) => Step::Done(Err(error)),
        (OpenState::Rewinding { header }, _) => Step::Continue(OpenState::Locating { header }),
        (OpenState::Locating { header }, Event::Info(info)) => counted(
            header,
            info.pos,
            estimate_start(info),
        ),
        (OpenState::Counting { header, first_frame_pos, estimate }, _) => counted(
            header,
            first_frame_pos,
            estimate_transition(estimate, event),
        ),
        _ => arbitrary(),
    }
}

/// The demuxer of a stream whose first header is `header`. One tick is one sample.
fn new_reader(header: &AdtsHeader, first_frame_pos: u64, num_frames: Option<u64>) -> (reader:
    AdtsReader)
    ensures
        reader == reader_of(*header, first_frame_pos, num_frames),
{
    // Use the header to populate the codec parameters.
    let track = Track {
        id: 0,
        sample_rate: header.sample_rate,
        channels: header.channels,
        num_frames,
        time_base: TimeBase::try_from_recip(header.sample_rate),
    };
    AdtsReader { track, first_frame_pos, next_packet_ts: 0 }
}

/// What the outcome of a step of the estimate means for the opening.
fn counted_step(header: &AdtsHeader, first_frame_pos: u64, step: Step<Estimate, Option<u64>>) -> (
    res: Step<OpenState, AdtsReader>)
    ensures
        res == counted(*header, first_frame_pos, step),
{
    match step {
        Step::Continue(estimate) => Step::Continue(
            OpenState::Counting { header: *header, first_frame_pos, estimate },
        ),
        Step::Done(Ok(num_frames)) => Step::Done(
            Ok(new_reader(header, first_frame_pos, num_frames)),
        ),
        Step::Done(Err(error)) => Step::Done(Err(error)),
    }
}

impl OpenState {
    pub open spec fn wf(self) -> bool {
        match self {
            OpenState::Counting { estimate, .. } => estimate.wf(),
            _ => true,
        }
    }

    /// What has to be done next.
    pub open spec fn spec_action(self) -> Action {
        match self {
            OpenState::Header => Action::ReadHeader,
            OpenState::Rewinding { header } => Action::SeekBufferedRev(
                header.spec_header_len() as u16,
            ),
            OpenState::Locating { .. } => Action::Inspect,
            OpenState::Counting { estimate, .. } => estimate.spec_action(),
        }
    }

    /// Whether the event answers what was asked for, and the estimate of the length can go on with
    /// it.
    pub open spec fn spec_accepts(self, event: Event) -> bool {
        &&& event.spec_answers(self.spec_action())
        &&& match (self, event) {
            (OpenState::Locating { .. }, Event::Info(info)) => can_estimate(info),
            (OpenState::Counting { estimate, .. }, _) => estimate.spec_accepts(event),
            _ => true,
        }
    }

    /// What has to be done next.
    pub fn action(&self) -> (action: Action)
        requires
            self.wf(),
        ensures
            action == self.spec_action(),
    {
        match self {
            OpenState::Header => Action::ReadHeader,
            OpenState::Rewinding { header } => Action::SeekBufferedRev(header.header_len()),
            OpenState::Locating { .. } => Action::Inspect,
            OpenState::Counting { estimate, .. } => estimate.action(),
        }
    }

    /// Whether the event answers what was asked for, and the estimate of the length can go on with
    /// it.
    pub fn accepts(&self, event: &Event) -> (b: bool)
        requires
            self.wf(),
        ensures
            b == self.spec_accepts(*event),
    {
        match (self, event) {
            (OpenState::Locating { .. }, Event::Info(info)) => estimable(info),
            (OpenState::Counting { estimate, .. }, _) => estimate.accepts(event),
            _ => event.answers(&self.action()),
        }
    }

    /// Goes on with the opening after an event.
    pub fn step(self, event: Event) -> (step: Step<OpenState, AdtsReader>)
        requires
            self.wf(),
            self.spec_accepts(event),
        ensures
            step == open_transition(self, event),
            step matches Step::Continue(next) ==> next.wf(),
            step matches Step::Done(Ok(reader)) ==> reader.wf(),
    {
        match (self, event) {
            (OpenState::Header, Event::Header(Ok(header))) => {
                // Rewind back to the start of the frame.
                Step::Continue(OpenState::Rewinding { header })
            },
            (OpenState::Header, Event::Header(Err(error))) => Step::Done(Err(error)),
            (OpenState::Rewinding { header }, _) => Step::Continue(OpenState::Locating { header }),
            (OpenState::Locating { header }, Event::Info(info)) => {
                counted_step(&header, info.pos, approximate_frame_count(info))
            },
            (OpenState::Counting { header, first_frame_pos, estimate }, event) => {
                counted_step(&header, first_frame_pos, estimate.step(event))
            },
            _ => {
                assert(false);
                Step::Continue(OpenState::Header)
            },
        }
    }
}

/// Starts opening a stream.
pub fn try_new() -> (state: OpenState)
    ensures
        state == OpenState::Header,
{
    OpenState::Header
}

} // verus!
