//! The approximate length of a stream, from the frame lengths found in samples of it.
use crate::header::AdtsHeader;
use crate::protocol::{Action, Event, Step, StreamInfo};
use crate::reader::SAMPLES_PER_AAC_PACKET;
use vstd::prelude::*;

verus! {

/// The maximum length in bytes of frames to consume from a stream that cannot seek.
pub const MAX_LEN: u64 = 16384;

/// The number of points to sample within a stream that can seek.
pub const NUM_SAMPLE_POINTS: u64 = 4;

/// The number of headers to read at each of those points.
pub const HEADERS_PER_POINT: u64 = 101;

/// What an estimate does at the moment.
#[derive(Clone, Copy, Debug, PartialEq, Eq)]
pub enum Phase {
    /// Limiting a stream that cannot seek.
    OpeningScope,
    /// Reading a header of a stream that cannot seek.
    Reading,
    /// Passing over the payload of a frame of a stream that cannot seek.
    Skipping { header: AdtsHeader },
    /// Going back in a stream that cannot seek.
    ClosingScope,
    /// Going to a sample point.
    Seeking { point: u64 },
    /// Reading headers from a sample point on, `left` of them at most.
    Sampling { point: u64, left: u64 },
    /// Going back to where the estimate began.
    Restoring,
}

/// An estimate of the length of a stream, in progress.
#[derive(Clone, Copy, Debug, PartialEq, Eq)]
pub struct Estimate {
    /// Where the stream was when the estimate began.
    pub original_pos: u64,
    /// The number of bytes from there to the end of the stream.
    pub total_len: u64,
    /// The number of frames found so far.
    pub parsed_n_frames: u64,
    /// The sum of their lengths.
    pub n_bytes: u64,
    pub phase: Phase,
}

/// The distance of sample points.
pub open spec fn sample_step(original_pos: int, total_len: int) -> int {
    (total_len - original_pos) / NUM_SAMPLE_POINTS as int
}

/// The distance of sample points, as far as the machine's addresses reach.
pub open spec fn sample_stride(original_pos: int, total_len: int) -> int {
    (sample_step(original_pos, total_len) as usize) as int
}

/// The sample point after `point`: one stride on, unless it comes within a step of the end.
pub open spec fn point_after(original_pos: int, total_len: int, point: int) -> Option<int> {
    let next = point + sample_stride(original_pos, total_len);
    if next < total_len - sample_step(original_pos, total_len) {
        Some(next)
    } else {
        None
    }
}

/// The phase after the sampling at `point` is over.
pub open spec fn phase_after(original_pos: int, total_len: int, point: int) -> Phase {
    match point_after(original_pos, total_len, point) {
        Some(next) => Phase::Seeking { point: next as u64 },
        None => Phase::Restoring,
    }
}

/// The number of samples in `total_len` bytes of frames of which `parsed_n_frames` take up
/// `n_bytes` bytes.
pub open spec fn samples_in(total_len: int, parsed_n_frames: int, n_bytes: int) -> int {
    total_len / (n_bytes / parsed_n_frames) * SAMPLES_PER_AAC_PACKET
}

/// Whether an estimate can be made of a stream: its length, where known, does not end before its
/// position, and where it can seek the sample points lie apart.
pub open spec fn can_estimate(info: StreamInfo) -> bool {
    info.byte_len matches Some(len) ==> {
        let total_len = len - info.pos;
        &&& info.pos <= len
        &&& info.seekable ==> {
            &&& info.pos <= total_len
            &&& sample_stride(info.pos as int, total_len) != 0
        }
    }
}

/// How the estimate of a stream begins, or ends where the length of the stream is not known.
pub open spec fn estimate_start(info: StreamInfo) -> Step<Estimate, Option<u64>> {
    match info.byte_len {
        None => Step::Done(Ok(None)),
        Some(len) => {
            let total_len = len - info.pos;
            Step::Continue(
                Estimate {
                    original_pos: info.pos,
                    total_len: total_len as u64,
                    parsed_n_frames: 0,
                    n_bytes: 0,
                    // The start of the stream is an outlier, and not sampled.
                    phase: if info.seekable {
                        phase_after(info.pos as int, total_len, info.pos as int)
                    } else {
                        Phase::OpeningScope
                    },
                },
            )
        },
    }
}

/// What follows an event.
pub open spec fn estimate_transition(e: Estimate, event: Event) -> Step<Estimate, Option<u64>> {
    let original_pos = e.original_pos as int;
    let total_len = e.total_len as int;
    match (e.phase, event) {
        (Phase::OpeningScope, _) => Step::Continue(e.in_phase(Phase::Reading)),
        (Phase::Reading, Event::Header(Ok(header))) => Step::Continue(
            e.in_phase(Phase::Skipping { header }),
        ),
        (Phase::Reading, Event::Header(Err(_))) => Step::Continue(e.in_phase(Phase::ClosingScope)),
        (Phase::Skipping { header }, Event::Ignored(Ok(_))) => Step::Continue(
            e.counting(header).in_phase(Phase::Reading),
        ),
        (Phase::Skipping { .. }, Event::Ignored(Err(_))) => Step::Continue(
            e.in_phase(Phase::ClosingScope),
        ),
        (Phase::ClosingScope, _) => Step::Done(Ok(e.spec_count())),
        (Phase::Seeking { point }, Event::Seeked(Ok(_))) => Step::Continue(
            e.in_phase(Phase::Sampling { point, left: HEADERS_PER_POINT }),
        ),
        (Phase::Seeking { .. }, Event::Seeked(Err(_))) => Step::Continue(
            e.in_phase(Phase::Restoring),
        ),
        (Phase::Sampling { point, left }, Event::Header(Ok(header))) => Step::Continue(
            e.counting(header).in_phase(
                if left > 1 {
                    Phase::Sampling { point, left: (left - 1) as u64 }
                } else {
                    phase_after(original_pos, total_len, point as int)
                },
            ),
        ),
        (Phase::Sampling { point, .. }, Event::Header(Err(_))) => Step::Continue(
            e.in_phase(phase_after(original_pos, total_len, point as int)),
        ),
        (Phase::Restoring, Event::Seeked(Ok(_))) => Step::Done(Ok(e.spec_count())),
        (Phase::Restoring, Event::Seeked(Err(error))) => Step::Done(Err(error)),
        _ => arbitrary(),
    }
}

impl Estimate {
    /// Every frame counted has at least the size of a header. An estimate that seeks has a
    /// position to seek from, and headers left to read.
    pub open spec fn wf(self) -> bool {
        &&& self.n_bytes >= AdtsHeader::SIZE_NO_CRC * self.parsed_n_frames
        &&& match self.phase {
            Phase::Skipping { header } => header.wf(),
            Phase::Seeking { .. } => self.original_pos <= self.total_len,
            Phase::Sampling { left, .. } => self.original_pos <= self.total_len && left > 0,
            _ => true,
        }
    }

    pub open spec fn in_phase(self, phase: Phase) -> Self {
        Estimate { phase, ..self }
    }

    /// The estimate with one more frame counted.
    pub open spec fn counting(self, header: AdtsHeader) -> Self {
        Estimate {
            parsed_n_frames: (self.parsed_n_frames + 1) as u64,
            n_bytes: (self.n_bytes + header.frame_len) as u64,
            ..self
        }
    }

    /// The number of samples in the stream, if any frame was found.
    pub open spec fn spec_count(self) -> Option<u64> {
        if self.parsed_n_frames == 0 {
            None
        } else {
            Some(
                samples_in(
                    self.total_len as int,
                    self.parsed_n_frames as int,
                    self.n_bytes as int,
                ) as u64,
            )
        }
    }

    /// Whether the result fits in its type.
    pub open spec fn count_fits(self) -> bool {
        self.parsed_n_frames > 0 ==> samples_in(
            self.total_len as int,
            self.parsed_n_frames as int,
            self.n_bytes as int,
        ) <= u64::MAX
    }

    /// What has to be done next.
    pub open spec fn spec_action(self) -> Action {
        match self.phase {
            Phase::OpeningScope => Action::OpenScope(MAX_LEN),
            Phase::Reading => Action::ReadHeader,
            Phase::Skipping { header } => Action::IgnoreBytes(header.spec_payload_len() as u64),
            Phase::ClosingScope => Action::CloseScope(self.original_pos),
            Phase::Seeking { point } => Action::Seek(point),
            Phase::Sampling { .. } => Action::ReadHeader,
            Phase::Restoring => Action::Seek(self.original_pos),
        }
    }

    /// Whether the event answers what was asked for, and the sums that it leads to fit in their
    /// types.
    pub open spec fn spec_accepts(self, event: Event) -> bool {
        &&& event.spec_answers(self.spec_action())
        &&& match (self.phase, event) {
            (Phase::Skipping { header }, Event::Ignored(Ok(_))) => self.n_bytes + header.frame_len
                <= u64::MAX,
            (Phase::Sampling { .. }, Event::Header(Ok(header))) => self.n_bytes + header.frame_len
                <= u64::MAX,
            (Phase::ClosingScope, _) => self.count_fits(),
            (Phase::Restoring, Event::Seeked(Ok(_))) => self.count_fits(),
            _ => true,
        }
    }

    /// What has to be done next.
    pub fn action(&self) -> (action: Action)
        requires
            self.wf(),
        ensures
            action == self.spec_action(),
    {
        match self.phase {
            Phase::OpeningScope => Action::OpenScope(MAX_LEN),
            Phase::Reading => Action::ReadHeader,
            Phase::Skipping { header } => Action::IgnoreBytes(header.payload_len() as u64),
            Phase::ClosingScope => Action::CloseScope(self.original_pos),
            Phase::Seeking { point } => Action::Seek(point),
            Phase::Sampling { .. } => Action::ReadHeader,
            Phase::Restoring => Action::Seek(self.original_pos),
        }
    }

    /// The average length of the frames found, which is at least the size of a header.
    fn average_frame_len(&self) -> (len: u64)
        requires
            self.wf(),
            self.parsed_n_frames > 0,
        ensures
            len == self.n_bytes / self.parsed_n_frames,
            len >= AdtsHeader::SIZE_NO_CRC,
    {
        let len: u64 = self.n_bytes / self.parsed_n_frames;
        assert(len >= 7) by (nonlinear_arith)
            requires
                self.n_bytes >= 7 * self.parsed_n_frames,
                self.parsed_n_frames > 0,
                len == self.n_bytes / self.parsed_n_frames,
        ;
        len
    }

    /// Whether the event answers what was asked for, and the sums that it leads to fit in their
    /// types.
    pub fn accepts(&self, event: &Event) -> (b: bool)
        requires
            self.wf(),
        ensures
            b == self.spec_accepts(*event),
    {
        if !event.answers(&self.action()) {
            return false;
        }
        match (self.phase, event) {
            (Phase::Skipping { header }, Event::Ignored(Ok(_))) => self.n_bytes <= u64::MAX
                - header.frame_len as u64,
            (Phase::Sampling { .. }, Event::Header(Ok(header))) => self.n_bytes <= u64::MAX
                - header.frame_len as u64,
            (Phase::ClosingScope, _) => self.fits(),
            (Phase::Restoring, Event::Seeked(Ok(_))) => self.fits(),
            _ => true,
        }
    }

    /// Whether the result fits in its type.
    fn fits(&self) -> (b: bool)
        requires
            self.wf(),
        ensures
            b == self.count_fits(),
    {
        self.parsed_n_frames == 0 || self.total_len / self.average_frame_len() <= u64::MAX
            / SAMPLES_PER_AAC_PACKET
    }

    /// The number of samples in the stream, if any frame was found.
    fn count(&self) -> (count: Option<u64>)
        requires
            self.wf(),
            self.count_fits(),
        ensures
            count == self.spec_count(),
    {
        match self.parsed_n_frames {
            0 => None,
            _ => Some(self.total_len / self.average_frame_len() * SAMPLES_PER_AAC_PACKET),
        }
    }

    /// Counts one more frame.
    fn record(self, header: AdtsHeader) -> (e: Self)
        requires
            self.n_bytes >= AdtsHeader::SIZE_NO_CRC * self.parsed_n_frames,
            header.wf(),
            self.n_bytes + header.frame_len <= u64::MAX,
        ensures
            e == self.counting(header),
            e.n_bytes >= AdtsHeader::SIZE_NO_CRC * e.parsed_n_frames,
    {
        Estimate {
            parsed_n_frames: self.parsed_n_frames + 1,
            n_bytes: self.n_bytes + header.frame_len as u64,
            ..self
        }
    }

    /// The phase after the sampling at `point` is over.
    fn next_phase(&self, point: u64) -> (phase: Phase)
        requires
            self.original_pos <= self.total_len,
        ensures
            phase == phase_after(self.original_pos as int, self.total_len as int, point as int),
    {
        let step: u64 = (self.total_len - self.original_pos) / NUM_SAMPLE_POINTS;
        let stride: u64 = (step as usize) as u64;
        let end: u64 = self.total_len - step;
        if point < end && end - point > stride {
            Phase::Seeking { point: point + stride }
        } else {
            Phase::Restoring
        }
    }

    /// Goes on with the estimate after an event.
    pub fn step(self, event: Event) -> (step: Step<Estimate, Option<u64>>)
        requires
            self.wf(),
            self.spec_accepts(event),
        ensures
            step == estimate_transition(self, event),
            step matches Step::Continue(next) ==> {
                &&& next.wf()
                &&& next.original_pos == self.original_pos
                &&& next.total_len == self.total_len
            },
    {
        match (self.phase, event) {
            (Phase::OpeningScope, _) => {
                Step::Continue(Estimate { phase: Phase::Reading, ..self })
            },
            (Phase::Reading, Event::Header(Ok(header))) => {
                Step::Continue(Estimate { phase: Phase::Skipping { header }, ..self })
            },
            (Phase::Reading, Event::Header(Err(_))) => {
                Step::Continue(Estimate { phase: Phase::ClosingScope, ..self })
            },
            (Phase::Skipping { header }, Event::Ignored(Ok(_))) => {
                Step::Continue(Estimate { phase: Phase::Reading, ..self.record(header) })
            },
            (Phase::Skipping { .. }, Event::Ignored(Err(_))) => {
                Step::Continue(Estimate { phase: Phase::ClosingScope, ..self })
            },
            (Phase::ClosingScope, _) => Step::Done(Ok(self.count())),
            (Phase::Seeking { point }, Event::Seeked(Ok(_))) => {
                Step::Continue(
                    Estimate { phase: Phase::Sampling { point, left: HEADERS_PER_POINT }, ..self },
                )
            },
            (Phase::Seeking { .. }, Event::Seeked(Err(_))) => {
                Step::Continue(Estimate { phase: Phase::Restoring, ..self })
            },
            (Phase::Sampling { point, left }, Event::Header(Ok(header))) => {
                let phase = if left > 1 {
                    Phase::Sampling { point, left: left - 1 }
                } else {
                    self.next_phase(point)
                };
                Step::Continue(Estimate { phase, ..self.record(header) })
            },
            (Phase::Sampling { point, .. }, Event::Header(Err(_))) => {
                Step::Continue(Estimate { phase: self.next_phase(point), ..self })
            },
            (Phase::Restoring, Event::Seeked(Ok(_))) => Step::Done(Ok(self.count())),
            (Phase::Restoring, Event::Seeked(Err(error))) => Step::Done(Err(error)),
            _ => {
                assert(false);
                Step::Done(Ok(None))
            },
        }
    }
}

/// Whether an estimate can be made of a stream: its length, where known, does not end before its
/// position, and where it can seek the sample points lie apart.
pub fn estimable(info: &StreamInfo) -> (b: bool)
    ensures
        b == can_estimate(*info),
{
    match info.byte_len {
        Some(len) => {
            if len < info.pos {
                return false;
            }
            let total_len: u64 = len - info.pos;
            !info.seekable || (info.pos <= total_len && ((total_len - info.pos)
                / NUM_SAMPLE_POINTS) as usize != 0)
        },
        None => true,
    }
}

/// Starts an estimate of the number of samples in a stream. There is none where the length of the
/// stream is not known. A stream that can seek is sampled at a few points, without the start of
/// the stream, which is an outlier; of one that cannot, the next frames are read.
pub fn approximate_frame_count(info: StreamInfo) -> (step: Step<Estimate, Option<u64>>)
    requires
        can_estimate(info),
    ensures
        step == estimate_start(info),
        step matches Step::Continue(e) ==> e.wf(),
{
    let total_len: u64 = match info.byte_len {
        Some(len) => len - info.pos,
        None => return Step::Done(Ok(None)),
    };
    let e = Estimate {
        original_pos: info.pos,
        total_len,
        parsed_n_frames: 0,
        n_bytes: 0,
        phase: Phase::OpeningScope,
    };
    if info.seekable {
        Step::Continue(Estimate { phase: e.next_phase(info.pos), ..e })
    } else {
        Step::Continue(e)
    }
}

} // verus!
