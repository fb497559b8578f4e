//! Telling whether a stream is an ADTS stream.
use crate::header::AdtsHeader;
use crate::protocol::{Action, Event, Step};
use vstd::prelude::*;

verus! {

/// The name of the format, for short.
pub const SHORT_NAME: &'static str = "aac";

/// The name of the format.
pub const LONG_NAME: &'static str = "Audio Data Transport Stream (native AAC)";

/// The extensions of the names of files in the format.
pub const EXTENSIONS: [&'static str; 1] = ["aac"];

/// The media types of the format.
pub const MIME_TYPES: [&'static str; 1] = ["audio/aac"];

/// The two bytes that an ADTS stream can start with: MPEG 4 without CRC and with CRC, MPEG 2
/// without CRC and with CRC.
pub const MARKERS: [[u8; 2]; 4] = [[0xff, 0xf1], [0xff, 0xf0], [0xff, 0xf9], [0xff, 0xf8]];

/// The confidence where only one header could be read.
pub const PARTIAL_CONFIDENCE: u8 = 127;

/// The confidence where a second header follows the first frame.
pub const FULL_CONFIDENCE: u8 = 255;

/// How far the scoring of a stream has come.
#[derive(Clone, Copy, Debug, PartialEq, Eq)]
pub enum ScoreState {
    /// Reading the first (assumed) ADTS header.
    First,
    /// Finding out how much follows it.
    Measuring { payload_len: u16 },
    /// Passing over the payload of the first frame.
    Skipping { payload_len: u16 },
    /// Reading the header of the second frame.
    Second,
}

/// What follows an event.
pub open spec fn score_transition(state: ScoreState, event: Event) -> Step<ScoreState, u8> {
    match (state, event) {
        (ScoreState::First, Event::Header(Ok(header))) => Step::Continue(
            ScoreState::Measuring { payload_len: header.spec_payload_len() as u16 },
        ),
        (ScoreState::First, Event::Header(Err(error))) => Step::Done(Err(error)),
        (ScoreState::Measuring { payload_len }, Event::Available(available)) => if available
            < payload_len + AdtsHeader::SIZE_WITH_CRC {
            Step::Done(Ok(PARTIAL_CONFIDENCE))
        } else {
            Step::Continue(ScoreState::Skipping { payload_len })
        },
        (ScoreState::Skipping { .. }, Event::Ignored(Ok(_))) => Step::Continue(ScoreState::Second),
        (ScoreState::Skipping { .. }, Event::Ignored(Err(error))) => Step::Done(Err(error)),
        (ScoreState::Second, Event::Header(Ok(_))) => Step::Done(Ok(FULL_CONFIDENCE)),
        (ScoreState::Second, Event::Header(Err(error))) => Step::Done(Err(error)),
        _ => arbitrary(),
    }
}

impl ScoreState {
    /// What has to be done next.
    pub open spec fn spec_action(self) -> Action {
        match self {
            ScoreState::First => Action::ReadHeaderNoResync,
            ScoreState::Measuring { .. } => Action::Measure,
            ScoreState::Skipping { payload_len } => Action::IgnoreBytes(payload_len as u64),
            ScoreState::Second => Action::ReadHeaderNoResync,
        }
    }

    /// What has to be done next.
    pub fn action(&self) -> (action: Action)
        ensures
            action == self.spec_action(),
    {
        match *self {
            ScoreState::First => Action::ReadHeaderNoResync,
            ScoreState::Measuring { .. } => Action::Measure,
            ScoreState::Skipping { payload_len } => Action::IgnoreBytes(payload_len as u64),
            ScoreState::Second => Action::ReadHeaderNoResync,
        }
    }

    /// Goes on with the scoring after an event.
    pub fn step(self, event: Event) -> (step: Step<ScoreState, u8>)
        requires
            event.spec_answers(self.spec_action()),
        ensures
            step == score_transition(self, event),
    {
        match (self, event) {
            (ScoreState::First, Event::Header(Ok(header))) => {
                Step::Continue(ScoreState::Measuring { payload_len: header.payload_len() })
            },
            (ScoreState::First, Event::Header(Err(error))) => Step::Done(Err(error)),
            (ScoreState::Measuring { payload_len }, Event::Available(available)) => {
                // Since the first header was read successfully, this may be an ADTS audio format.
                // However, if there is enough data left to read the frame body and another frame
                // header, then a higher confidence may be gained. If there is not enough data
                // left, return a partially confident score.
                if available < payload_len as u64 + AdtsHeader::SIZE_WITH_CRC as u64 {
                    Step::Done(Ok(PARTIAL_CONFIDENCE))
                } else {
                    Step::Continue(ScoreState::Skipping { payload_len })
                }
            },
            (ScoreState::Skipping { .. }, Event::Ignored(Ok(_))) => {
                Step::Continue(ScoreState::Second)
            },
            (ScoreState::Skipping { .. }, Event::Ignored(Err(error))) => Step::Done(Err(error)),
            (ScoreState::Second, Event::Header(Ok(_))) => Step::Done(Ok(FULL_CONFIDENCE)),
            (ScoreState::Second, Event::Header(Err(error))) => Step::Done(Err(error)),
            _ => {
                assert(false);
                Step::Done(Ok(PARTIAL_CONFIDENCE))
            },
        }
    }
}

/// Starts scoring a stream.
pub fn score() -> (state: ScoreState)
    ensures
        state == ScoreState::First,
{
    ScoreState::First
}

} // verus!
