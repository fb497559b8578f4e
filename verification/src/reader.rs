//! The demuxer: packets one after the other, and seeking to a timestamp.
use crate::error::{Error, IoErrorKind, SeekErrorKind};
use crate::protocol::{Action, Event, Step};
use crate::time::{Time, TimeBase};
use vstd::prelude::*;

verus! {

/// The number of samples, and so of ticks, in one AAC packet.
pub const SAMPLES_PER_AAC_PACKET: u64 = 1024;

/// The one track of an ADTS stream. Its codec is AAC.
#[derive(Clone, Copy, Debug, PartialEq, Eq)]
pub struct Track {
    pub id: u32,
    /// The sample rate in Hertz.
    pub sample_rate: u32,
    /// The number of channels, unless the payload describes them.
    pub channels: Option<u8>,
    /// The approximate length of the track in samples, where it is known.
    pub num_frames: Option<u64>,
    pub time_base: Option<TimeBase>,
}

/// A demuxer for ADTS (AAC native frames).
#[derive(Clone, Copy, Debug, PartialEq, Eq)]
pub struct AdtsReader {
    pub track: Track,
    /// Where the first frame of the stream starts.
    pub first_frame_pos: u64,
    /// The timestamp of the next packet.
    pub next_packet_ts: u64,
}

/// The payload of one ADTS frame.
#[derive(Debug, PartialEq, Eq)]
pub struct Packet {
    pub track_id: u32,
    pub ts: u64,
    pub dur: u64,
    pub data: Vec<u8>,
}

/// Where to seek.
#[derive(Clone, Copy, Debug, PartialEq, Eq)]
pub enum SeekTo {
    TimeStamp(u64),
    Time(Time),
}

/// Where a seek ended.
#[derive(Clone, Copy, Debug, PartialEq, Eq)]
pub struct SeekedTo {
    pub track_id: u32,
    pub required_ts: u64,
    /// The timestamp of the packet that comes next.
    pub actual_ts: u64,
}

/// How far the reading of a packet has come.
#[derive(Clone, Copy, Debug, PartialEq, Eq)]
pub enum PacketState {
    Header,
    Payload { ts: u64, len: u16 },
}

/// How far a seek has come.
#[derive(Clone, Copy, Debug, PartialEq, Eq)]
pub enum SeekState {
    /// Going back to the first frame.
    Rewinding { required_ts: u64, pos: u64 },
    /// Reading the header of the next frame.
    Scanning { required_ts: u64 },
    /// Passing over the payload of a frame.
    Skipping { required_ts: u64, payload_len: u16 },
    /// Going back over the header of the frame sought.
    Settling { required_ts: u64, header_len: u16 },
}

impl SeekTo {
    /// A time has fewer nanoseconds than a second has.
    pub open spec fn wf(self) -> bool {
        self matches SeekTo::Time(time) ==> time.wf()
    }
}

impl PacketState {
    /// What has to be done next.
    pub open spec fn spec_action(self) -> Action {
        match self {
            PacketState::Header => Action::ReadHeader,
            PacketState::Payload { len, .. } => Action::ReadBytes(len),
        }
    }

    /// What has to be done next.
    pub fn action(&self) -> (action: Action)
        ensures
            action == self.spec_action(),
    {
        match *self {
            PacketState::Header => Action::ReadHeader,
            PacketState::Payload { len, .. } => Action::ReadBytes(len),
        }
    }
}

impl SeekState {
    /// What has to be done next.
    pub open spec fn spec_action(self) -> Action {
        match self {
            SeekState::Rewinding { pos, .. } => Action::Seek(pos),
            SeekState::Scanning { .. } => Action::ReadHeader,
            SeekState::Skipping { payload_len, .. } => Action::IgnoreBytes(payload_len as u64),
            SeekState::Settling { header_len, .. } => Action::SeekBufferedRev(header_len),
        }
    }

    /// What has to be done next.
    pub fn action(&self) -> (action: Action)
        ensures
            action == self.spec_action(),
    {
        match *self {
            SeekState::Rewinding { pos, .. } => Action::Seek(pos),
            SeekState::Scanning { .. } => Action::ReadHeader,
            SeekState::Skipping { payload_len, .. } => Action::IgnoreBytes(payload_len as u64),
            SeekState::Settling { header_len, .. } => Action::SeekBufferedRev(header_len),
        }
    }

    /// The timestamp sought.
    pub open spec fn required_ts(self) -> int {
        match self {
            SeekState::Rewinding { required_ts, .. } => required_ts as int,
            SeekState::Scanning { required_ts } => required_ts as int,
            SeekState::Skipping { required_ts, .. } => required_ts as int,
            SeekState::Settling { required_ts, .. } => required_ts as int,
        }
    }
}

/// The timestamp that a seek asks for. A time can be sought only where the time base is known, and
/// only if it has a timestamp.
pub open spec fn sought_ts(time_base: Option<TimeBase>, to: SeekTo) -> Result<int, Error> {
    match to {
        SeekTo::TimeStamp(ts) => Ok(ts as int),
        SeekTo::Time(time) => match time_base {
            None => Err(Error::Seek(SeekErrorKind::Unseekable)),
            Some(base) => if 0 <= base.ticks_at(time) <= i64::MAX {
                Ok(base.ticks_at(time))
            } else {
                Err(Error::Seek(SeekErrorKind::OutOfRange))
            },
        },
    }
}

/// What follows an event while a packet is read: the timestamp of the next packet, and the step.
/// `Done(Ok(None))` is the end of the stream.
pub open spec fn packet_transition(next_packet_ts: int, state: PacketState, event: Event) -> (
    int,
    Step<PacketState, Option<Packet>>,
) {
    match (state, event) {
        (PacketState::Header, Event::Header(Ok(header))) => (
            next_packet_ts + SAMPLES_PER_AAC_PACKET,
            Step::Continue(
                PacketState::Payload {
                    ts: next_packet_ts as u64,
                    len: header.spec_payload_len() as u16,
                },
            ),
        ),
        (PacketState::Header, Event::Header(Err(Error::Io(IoErrorKind::UnexpectedEof)))) => (
            next_packet_ts,
            Step::Done(Ok(None)),
        ),
        (PacketState::Header, Event::Header(Err(error))) => (
            next_packet_ts,
            Step::Done(Err(error)),
        ),
        (PacketState::Payload { ts, .. }, Event::Bytes(Ok(data))) => (
            next_packet_ts,
            Step::Done(Ok(Some(Packet { track_id: 0, ts, dur: SAMPLES_PER_AAC_PACKET, data }))),
        ),
        (PacketState::Payload { .. }, Event::Bytes(Err(error))) => (
            next_packet_ts,
            Step::Done(Err(error)),
        ),
        _ => arbitrary(),
    }
}

/// What follows an event while a seek goes on: the timestamp of the next packet, and the step.
pub open spec fn seek_transition(next_packet_ts: int, state: SeekState, event: Event) -> (
    int,
    Step<SeekState, SeekedTo>,
) {
    match (state, event) {
        // The stream has no timestamps of its own, so it has to be exactly where it should be.
        (SeekState::Rewinding { required_ts, pos }, Event::Seeked(Ok(reached))) => if reached
            == pos {
            (0, Step::Continue(SeekState::Scanning { required_ts }))
        } else {
            (next_packet_ts, Step::Done(Err(Error::Seek(SeekErrorKind::Unseekable))))
        },
        (SeekState::Rewinding { .. }, Event::Seeked(Err(error))) => (
            next_packet_ts,
            Step::Done(Err(error)),
        ),
        // The frame sought is the one that the required timestamp falls in.
        (SeekState::Scanning { required_ts }, Event::Header(Ok(header))) => (
            next_packet_ts,
            if next_packet_ts + SAMPLES_PER_AAC_PACKET > required_ts {
                Step::Continue(
                    SeekState::Settling {
                        required_ts,
                        header_len: header.spec_header_len() as u16,
                    },
                )
            } else {
                Step::Continue(
                    SeekState::Skipping {
                        required_ts,
                        payload_len: header.spec_payload_len() as u16,
                    },
                )
            },
        ),
        (
            SeekState::Scanning { .. },
            Event::Header(Err(Error::Io(IoErrorKind::UnexpectedEof))),
        ) => (next_packet_ts, Step::Done(Err(Error::Seek(SeekErrorKind::OutOfRange)))),
        (SeekState::Scanning { .. }, Event::Header(Err(error))) => (
            next_packet_ts,
            Step::Done(Err(error)),
        ),
        (SeekState::Skipping { required_ts, .. }, Event::Ignored(Ok(_))) => (
            next_packet_ts + SAMPLES_PER_AAC_PACKET,
            Step::Continue(SeekState::Scanning { required_ts }),
        ),
        (SeekState::Skipping { .. }, Event::Ignored(Err(error))) => (
            next_packet_ts,
            Step::Done(Err(error)),
        ),
        (SeekState::Settling { required_ts, .. }, _) => (
            next_packet_ts,
            Step::Done(Ok(SeekedTo { track_id: 0, required_ts, actual_ts: next_packet_ts as u64 })),
        ),
        _ => arbitrary(),
    }
}

impl AdtsReader {
    /// All packets have the same duration, and the first has the timestamp 0.
    pub open spec fn wf(self) -> bool {
        &&& self.next_packet_ts % SAMPLES_PER_AAC_PACKET == 0
        &&& self.track.time_base matches Some(base) ==> base.wf()
    }

    /// The same demuxer, about to read the packet at `ts`.
    pub open spec fn at(self, ts: int) -> Self {
        AdtsReader { next_packet_ts: ts as u64, ..self }
    }

    /// Whether a seek can be in this state: the packet that comes next is not past the required
    /// timestamp, and the current frame stands where `state` says it does.
    pub open spec fn seeks(self, state: SeekState) -> bool {
        match state {
            SeekState::Rewinding { .. } => true,
            SeekState::Scanning { required_ts } => self.next_packet_ts <= required_ts,
            SeekState::Skipping { required_ts, .. } => self.next_packet_ts + SAMPLES_PER_AAC_PACKET
                <= required_ts,
            SeekState::Settling { required_ts, .. } => self.next_packet_ts <= required_ts
                < self.next_packet_ts + SAMPLES_PER_AAC_PACKET,
        }
    }

    /// How a seek begins, or fails at once.
    pub open spec fn seek_start(self, to: SeekTo, seekable: bool) -> Step<SeekState, SeekedTo> {
        match sought_ts(self.track.time_base, to) {
            Ok(ts) => if ts >= self.next_packet_ts {
                Step::Continue(SeekState::Scanning { required_ts: ts as u64 })
            } else if seekable {
                Step::Continue(
                    SeekState::Rewinding { required_ts: ts as u64, pos: self.first_frame_pos },
                )
            } else {
                Step::Done(Err(Error::Seek(SeekErrorKind::ForwardOnly)))
            },
            Err(error) => Step::Done(Err(error)),
        }
    }

    /// Starts reading the next packet.
    pub fn next_packet(&self) -> (state: PacketState)
        ensures
            state == PacketState::Header,
    {
        PacketState::Header
    }

    /// Goes on reading a packet after an event. A packet that was announced by its header counts,
    /// whether or not its payload can be read.
    pub fn next_packet_step(&mut self, state: PacketState, event: Event) -> (step: Step<
        PacketState,
        Option<Packet>,
    >)
        requires
            old(self).wf(),
            event.spec_answers(state.spec_action()),
            state is Header && event->Header_0 is Ok ==> old(self).next_packet_ts
                + SAMPLES_PER_AAC_PACKET <= u64::MAX,
        ensures
            final(self).wf(),
            *final(self) == old(self).at(
                packet_transition(old(self).next_packet_ts as int, state, event).0,
            ),
            step == packet_transition(old(self).next_packet_ts as int, state, event).1,
            step matches Step::Done(Err(error)) ==> error !is Seek,
    {
        match (state, event) {
            (PacketState::Header, Event::Header(Ok(header))) => {
                let ts: u64 = self.next_packet_ts;
                self.next_packet_ts = self.next_packet_ts + SAMPLES_PER_AAC_PACKET;
                Step::Continue(PacketState::Payload { ts, len: header.payload_len() })
            },
            (PacketState::Header, Event::Header(Err(Error::Io(IoErrorKind::UnexpectedEof)))) => {
                // ADTS streams have no well-defined end, so when no more frames can be read,
                // consider the stream ended.
                Step::Done(Ok(None))
            },
            (PacketState::Header, Event::Header(Err(error))) => Step::Done(Err(error)),
            (PacketState::Payload { ts, .. }, Event::Bytes(Ok(data))) => {
                Step::Done(Ok(Some(Packet { track_id: 0, ts, dur: SAMPLES_PER_AAC_PACKET, data })))
            },
            (PacketState::Payload { .. }, Event::Bytes(Err(error))) => Step::Done(Err(error)),
            _ => {
                assert(false);
                Step::Done(Ok(None))
            },
        }
    }

    /// The timestamp that a seek asks for.
    fn required_ts(&self, to: SeekTo) -> (res: Result<u64, Error>)
        requires
            self.wf(),
            to.wf(),
        ensures
            match sought_ts(self.track.time_base, to) {
                Ok(ts) => res == Ok::<u64, Error>(ts as u64) && 0 <= ts <= u64::MAX,
                Err(error) => res == Err::<u64, Error>(error),
            },
    {
        match to {
            // Frame timestamp given.
            SeekTo::TimeStamp(ts) => Ok(ts),
            // Time value given, calculate frame timestamp using the timebase. If the timebase is
            // not known, the seek cannot be completed.
            SeekTo::Time(time) => match self.track.time_base {
                Some(base) => match base.calc_timestamp(time) {
                    Some(ts) => Ok(ts),
                    None => Err(Error::Seek(SeekErrorKind::OutOfRange)),
                },
                None => Err(Error::Seek(SeekErrorKind::Unseekable)),
            },
        }
    }

    /// Starts a seek. If the desired timestamp is less than the next packet timestamp, the stream
    /// has to go back to its first frame, which only a seekable stream can.
    pub fn seek(&self, to: SeekTo, seekable: bool) -> (step: Step<SeekState, SeekedTo>)
        requires
            self.wf(),
            to.wf(),
        ensures
            step == self.seek_start(to, seekable),
            step matches Step::Continue(state) ==> self.seeks(state),
            step == Step::<SeekState, SeekedTo>::Done(Err(Error::Seek(SeekErrorKind::ForwardOnly)))
                <==> !seekable && (sought_ts(self.track.time_base, to) matches Ok(ts) && ts
                < self.next_packet_ts),
    {
        let required_ts: u64 = match self.required_ts(to) {
            Ok(ts) => ts,
            Err(error) => return Step::Done(Err(error)),
        };
        if required_ts < self.next_packet_ts {
            // If the reader is not seekable then only forward seeks are possible.
            if seekable {
                Step::Continue(SeekState::Rewinding { required_ts, pos: self.first_frame_pos })
            } else {
                Step::Done(Err(Error::Seek(SeekErrorKind::ForwardOnly)))
            }
        } else {
            Step::Continue(SeekState::Scanning { required_ts })
        }
    }

    /// Goes on with a seek after an event. Frames are passed over until the one that contains the
    /// required timestamp is reached.
    pub fn seek_step(&mut self, state: SeekState, event: Event) -> (step: Step<SeekState, SeekedTo>)
        requires
            old(self).wf(),
            old(self).seeks(state),
            event.spec_answers(state.spec_action()),
        ensures
            final(self).wf(),
            *final(self) == old(self).at(
                seek_transition(old(self).next_packet_ts as int, state, event).0,
            ),
            step == seek_transition(old(self).next_packet_ts as int, state, event).1,
            step matches Step::Continue(next) ==> final(self).seeks(next) && next.required_ts()
                == state.required_ts(),
            step matches Step::Done(Ok(seeked)) ==> {
                &&& seeked.actual_ts == final(self).next_packet_ts
                &&& seeked.actual_ts <= seeked.required_ts < seeked.actual_ts
                    + SAMPLES_PER_AAC_PACKET
                &&& seeked.required_ts == state.required_ts()
            },
            step != Step::<SeekState, SeekedTo>::Done(
                Err(Error::Seek(SeekErrorKind::ForwardOnly)),
            ),
    {
        match (state, event) {
            (SeekState::Rewinding { required_ts, pos }, Event::Seeked(Ok(reached))) => {
                // Since the elementary stream has no timestamp information, the position seeked
                // to must be exactly as requested.
                if reached != pos {
                    return Step::Done(Err(Error::Seek(SeekErrorKind::Unseekable)));
                }
                // Successfully seeked to the start of the stream, reset the next packet timestamp.
                self.next_packet_ts = 0;
                Step::Continue(SeekState::Scanning { required_ts })
            },
            (SeekState::Rewinding { .. }, Event::Seeked(Err(error))) => Step::Done(Err(error)),
            (SeekState::Scanning { required_ts }, Event::Header(Ok(header))) => {
                // If the next frame's timestamp would exceed the desired timestamp, rewind back to
                // the start of this frame and end the search.
                if required_ts - self.next_packet_ts < SAMPLES_PER_AAC_PACKET {
                    Step::Continue(
                        SeekState::Settling { required_ts, header_len: header.header_len() },
                    )
                } else {
                    // Otherwise, ignore the frame body.
                    Step::Continue(
                        SeekState::Skipping { required_ts, payload_len: header.payload_len() },
                    )
                }
            },
            (
                SeekState::Scanning { .. },
                Event::Header(Err(Error::Io(IoErrorKind::UnexpectedEof))),
            ) => {
                // ADTS streams have no well-defined end, so if no more frames can be read then
                // assume the seek position is out-of-range.
                Step::Done(Err(Error::Seek(SeekErrorKind::OutOfRange)))
            },
            (SeekState::Scanning { .. }, Event::Header(Err(error))) => Step::Done(Err(error)),
            (SeekState::Skipping { required_ts, .. }, Event::Ignored(Ok(_))) => {
                // Increment the timestamp for the next packet.
                self.next_packet_ts = self.next_packet_ts + SAMPLES_PER_AAC_PACKET;
                Step::Continue(SeekState::Scanning { required_ts })
            },
            (SeekState::Skipping { .. }, Event::Ignored(Err(error))) => Step::Done(Err(error)),
            (SeekState::Settling { required_ts, .. }, _) => Step::Done(
                Ok(SeekedTo { track_id: 0, required_ts, actual_ts: self.next_packet_ts }),
            ),
            _ => {
                assert(false);
                Step::Done(Err(Error::Seek(SeekErrorKind::Unseekable)))
            },
        }
    }
}

} // verus!
