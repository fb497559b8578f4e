//! What each answer of a stream leads to.
use crate::error::{DecodeErrorKind, Error, IoErrorKind, SeekErrorKind, UnsupportedKind};
use crate::estimate::{can_estimate, estimate_start, estimate_transition, Estimate, Phase};
use crate::header::AdtsHeader;
use crate::laws::samples::{averages, law_count, law_sample_points};
use crate::laws::time::{is_tick_count, law_ticks};
use crate::open::{open_transition, OpenState};
use crate::probe::{score_transition, ScoreState};
use crate::protocol::{Action, Event, Step, StreamInfo};
use crate::reader::{
    packet_transition, seek_transition, AdtsReader, Packet, PacketState, SeekState, SeekTo, SeekedTo,
};
use crate::time::{Time, TimeBase};
use vstd::prelude::*;

verus! {

/// Reading a packet begins with a header. One that is found uses up 1024 ticks and announces the
/// rest of its frame, which is read next, and is the packet; the end of the stream in place of a
/// header is no error; any other failure is handed on, and moves the timestamp no further.
pub proof fn law_packet_answers(
    ts: int,
    header: AdtsHeader,
    error: Error,
    packet_ts: u64,
    len: u16,
    data: Vec<u8>,
)
    requires
        0 <= ts <= u64::MAX - 1024,
        header.wf(),
    ensures
        PacketState::Header.spec_action() == Action::ReadHeader,
        ({
            let (next_ts, step) = packet_transition(
                ts,
                PacketState::Header,
                Event::Header(Ok(header)),
            );
            &&& next_ts == ts + 1024
            &&& step matches Step::Continue(PacketState::Payload { ts: announced, len: rest })
            &&& announced == ts
            &&& rest + (if header.crc is Some {
                9int
            } else {
                7int
            }) == header.frame_len
        }),
        ({
            let (next_ts, step) = packet_transition(
                ts,
                PacketState::Header,
                Event::Header(Err(error)),
            );
            &&& next_ts == ts
            &&& step matches Step::Done(res)
            &&& error == Error::Io(IoErrorKind::UnexpectedEof) ==> res == Ok::<
                Option<Packet>,
                Error,
            >(None)
            &&& error != Error::Io(IoErrorKind::UnexpectedEof) ==> res == Err::<
                Option<Packet>,
                Error,
            >(error)
        }),
        (PacketState::Payload { ts: packet_ts, len }).spec_action() == Action::ReadBytes(len),
        ({
            let (next_ts, step) = packet_transition(
                ts,
                PacketState::Payload { ts: packet_ts, len },
                Event::Bytes(Ok(data)),
            );
            &&& next_ts == ts
            &&& step matches Step::Done(Ok(Some(packet)))
            &&& packet.track_id == 0
            &&& packet.ts == packet_ts
            &&& packet.dur == 1024
            &&& packet.data == data
        }),
        packet_transition(
            ts,
            PacketState::Payload { ts: packet_ts, len },
            Event::Bytes(Err(error)),
        ) == (ts, Step::<PacketState, Option<Packet>>::Done(Err(error))),
{
}

/// A seek to a timestamp looks for its frame from where the stream is, if that is not behind it. If
/// it is, the stream has to go back to the first frame, and fails if it cannot.
pub proof fn law_seek_begins(reader: AdtsReader, ts: u64, seekable: bool)
    ensures
        ({
            let step = reader.seek_start(SeekTo::TimeStamp(ts), seekable);
            if ts >= reader.next_packet_ts {
                step == Step::<SeekState, SeekedTo>::Continue(
                    SeekState::Scanning { required_ts: ts },
                )
            } else if seekable {
                step == Step::<SeekState, SeekedTo>::Continue(
                    SeekState::Rewinding { required_ts: ts, pos: reader.first_frame_pos },
                )
            } else {
                step == Step::<SeekState, SeekedTo>::Done(
                    Err(Error::Seek(SeekErrorKind::ForwardOnly)),
                )
            }
        }),
{
}

/// A seek to a time is one to the number of ticks that have passed by then. Without a time base
/// there is no such number, and a negative one, or one of more than 63 bits, cannot be sought.
pub proof fn law_seek_time_begins(
    reader: AdtsReader,
    base: TimeBase,
    time: Time,
    ticks: int,
    seekable: bool,
)
    requires
        base.wf(),
        reader.track.time_base is Some ==> reader.track.time_base == Some(base),
        is_tick_count(base, time, ticks),
    ensures
        ({
            let step = reader.seek_start(SeekTo::Time(time), seekable);
            if reader.track.time_base is None {
                step == Step::<SeekState, SeekedTo>::Done(
                    Err(Error::Seek(SeekErrorKind::Unseekable)),
                )
            } else if 0 <= ticks < 0x8000_0000_0000_0000 {
                step == reader.seek_start(SeekTo::TimeStamp(ticks as u64), seekable)
            } else {
                step == Step::<SeekState, SeekedTo>::Done(
                    Err(Error::Seek(SeekErrorKind::OutOfRange)),
                )
            }
        }),
{
    law_ticks(base, time, ticks);
}

/// What the stream is asked for at each point of a seek.
pub proof fn law_seek_actions(required_ts: u64, pos: u64, len: u16)
    ensures
        (SeekState::Rewinding { required_ts, pos }).spec_action() == Action::Seek(pos),
        (SeekState::Scanning { required_ts }).spec_action() == Action::ReadHeader,
        (SeekState::Skipping { required_ts, payload_len: len }).spec_action()
            == Action::IgnoreBytes(len as u64),
        (SeekState::Settling { required_ts, header_len: len }).spec_action()
            == Action::SeekBufferedRev(len),
        (SeekState::Rewinding { required_ts, pos }).required_ts() == required_ts,
        (SeekState::Scanning { required_ts }).required_ts() == required_ts,
        (SeekState::Skipping { required_ts, payload_len: len }).required_ts() == required_ts,
        (SeekState::Settling { required_ts, header_len: len }).required_ts() == required_ts,
{
}

/// A stream that went back is scanned from timestamp 0 on, but only if it is exactly where it should
/// be. A frame that ends behind the required timestamp is the one sought: the stream goes back over
/// its header. Any other is passed over, and counts once that is done. The end of the stream in
/// place of a header is out of range; any other failure is handed on, and counts nothing.
pub proof fn law_seek_answers(
    ts: u64,
    required_ts: u64,
    header: AdtsHeader,
    error: Error,
    pos: u64,
    reached: u64,
    len: u16,
)
    requires
        header.wf(),
    ensures
        seek_transition(
            ts as int,
            SeekState::Rewinding { required_ts, pos },
            Event::Seeked(Ok(reached)),
        ) == if reached == pos {
            (
                0int,
                Step::<SeekState, SeekedTo>::Continue(SeekState::Scanning { required_ts }),
            )
        } else {
            (
                ts as int,
                Step::<SeekState, SeekedTo>::Done(Err(Error::Seek(SeekErrorKind::Unseekable))),
            )
        },
        seek_transition(
            ts as int,
            SeekState::Rewinding { required_ts, pos },
            Event::Seeked(Err(error)),
        ) == (ts as int, Step::<SeekState, SeekedTo>::Done(Err(error))),
        ({
            let (next_ts, step) = seek_transition(
                ts as int,
                SeekState::Scanning { required_ts },
                Event::Header(Ok(header)),
            );
            let header_len = if header.crc is Some {
                9int
            } else {
                7int
            };
            &&& next_ts == ts
            &&& required_ts < ts + 1024 ==> step == Step::<SeekState, SeekedTo>::Continue(
                SeekState::Settling { required_ts, header_len: header_len as u16 },
            )
            &&& required_ts >= ts + 1024 ==> step == Step::<SeekState, SeekedTo>::Continue(
                SeekState::Skipping {
                    required_ts,
                    payload_len: (header.frame_len - header_len) as u16,
                },
            )
        }),
        ({
            let (next_ts, step) = seek_transition(
                ts as int,
                SeekState::Scanning { required_ts },
                Event::Header(Err(error)),
            );
            &&& next_ts == ts
            &&& step == Step::<SeekState, SeekedTo>::Done(
                Err(
                    if error == Error::Io(IoErrorKind::UnexpectedEof) {
                        Error::Seek(SeekErrorKind::OutOfRange)
                    } else {
                        error
                    },
                ),
            )
        }),
        seek_transition(
            ts as int,
            SeekState::Skipping { required_ts, payload_len: len },
            Event::Ignored(Ok(())),
        ) == (
            ts + 1024,
            Step::<SeekState, SeekedTo>::Continue(SeekState::Scanning { required_ts }),
        ),
        seek_transition(
            ts as int,
            SeekState::Skipping { required_ts, payload_len: len },
            Event::Ignored(Err(error)),
        ) == (ts as int, Step::<SeekState, SeekedTo>::Done(Err(error))),
        seek_transition(
            ts as int,
            SeekState::Settling { required_ts, header_len: len },
            Event::Moved,
        ) == (
            ts as int,
            Step::<SeekState, SeekedTo>::Done(
                Ok(SeekedTo { track_id: 0, required_ts, actual_ts: ts }),
            ),
        ),
{
}

/// Where a seek can be: frames are passed over only if they end before the required timestamp or at
/// it, and the one that is settled on holds it.
pub proof fn law_seeks(reader: AdtsReader, required_ts: u64, pos: u64, len: u16)
    ensures
        reader.seeks(SeekState::Rewinding { required_ts, pos }),
        reader.seeks(SeekState::Scanning { required_ts }) <==> reader.next_packet_ts <= required_ts,
        reader.seeks(SeekState::Skipping { required_ts, payload_len: len }) <==> required_ts
            - reader.next_packet_ts >= 1024,
        reader.seeks(SeekState::Settling { required_ts, header_len: len }) <==> 0 <= required_ts
            - reader.next_packet_ts < 1024,
{
}

/// A demuxer that goes to another packet stays the same in all but the timestamp.
pub proof fn law_at(reader: AdtsReader, ts: u64)
    ensures
        reader.at(ts as int).next_packet_ts == ts,
        reader.at(ts as int).track == reader.track,
        reader.at(ts as int).first_frame_pos == reader.first_frame_pos,
        reader.wf() <==> reader.next_packet_ts % 1024 == 0 && (reader.track.time_base matches Some(
            base,
        ) ==> base.numer > 0 && base.denom > 0),
{
}

/// What the stream is asked for at each point of an estimate.
pub proof fn law_estimate_actions(e: Estimate)
    requires
        e.wf(),
    ensures
        match e.phase {
            Phase::OpeningScope => e.spec_action() == Action::OpenScope(16384),
            Phase::Reading => e.spec_action() == Action::ReadHeader,
            Phase::Skipping { header } => e.spec_action() == Action::IgnoreBytes(
                (header.frame_len - if header.crc is Some {
                    9int
                } else {
                    7int
                }) as u64,
            ),
            Phase::ClosingScope => e.spec_action() == Action::CloseScope(e.original_pos),
            Phase::Seeking { point } => e.spec_action() == Action::Seek(point),
            Phase::Sampling { .. } => e.spec_action() == Action::ReadHeader,
            Phase::Restoring => e.spec_action() == Action::Seek(e.original_pos),
        },
{
}

/// What an estimate of a stream that cannot seek makes of answers: a frame counts, with its whole
/// length, once its payload is passed over, and any failure ends the counting.
pub proof fn law_scan_answers(e: Estimate, header: AdtsHeader, error: Error)
    requires
        e.n_bytes + header.frame_len <= u64::MAX,
        e.parsed_n_frames < u64::MAX,
    ensures
        e.phase is OpeningScope ==> estimate_transition(e, Event::Moved) == Step::<
            Estimate,
            Option<u64>,
        >::Continue(Estimate { phase: Phase::Reading, ..e }),
        e.phase is Reading ==> estimate_transition(e, Event::Header(Ok(header))) == Step::<
            Estimate,
            Option<u64>,
        >::Continue(Estimate { phase: Phase::Skipping { header }, ..e }),
        e.phase is Reading ==> estimate_transition(e, Event::Header(Err(error))) == Step::<
            Estimate,
            Option<u64>,
        >::Continue(Estimate { phase: Phase::ClosingScope, ..e }),
        e.phase == (Phase::Skipping { header }) ==> {
            &&& estimate_transition(e, Event::Ignored(Ok(()))) matches Step::Continue(next)
            &&& next.parsed_n_frames == e.parsed_n_frames + 1
            &&& next.n_bytes == e.n_bytes + header.frame_len
            &&& next.original_pos == e.original_pos
            &&& next.total_len == e.total_len
            &&& next.phase == Phase::Reading
        },
        e.phase is Skipping ==> estimate_transition(e, Event::Ignored(Err(error))) == Step::<
            Estimate,
            Option<u64>,
        >::Continue(Estimate { phase: Phase::ClosingScope, ..e }),
{
}

/// What an estimate of a stream that can seek makes of answers: up to 101 headers count at each
/// sample point, each with the length of its frame; a header that fails ends the sampling at the
/// point, and a point that cannot be reached all of it. `step` is a quarter of the way to go.
pub proof fn law_sample_answers(
    e: Estimate,
    header: AdtsHeader,
    error: Error,
    reached: u64,
    step: int,
)
    requires
        e.wf(),
        e.n_bytes + header.frame_len <= u64::MAX,
        e.parsed_n_frames < u64::MAX,
        e.original_pos <= e.total_len,
        e.phase matches Phase::Sampling { point, .. } ==> point <= e.total_len,
        4 * step <= e.total_len - e.original_pos < 4 * step + 4,
        step <= usize::MAX,
    ensures
        e.phase matches Phase::Seeking { point } ==> {
            &&& estimate_transition(e, Event::Seeked(Ok(reached))) == Step::<
                Estimate,
                Option<u64>,
            >::Continue(Estimate { phase: Phase::Sampling { point, left: 101 }, ..e })
            &&& estimate_transition(e, Event::Seeked(Err(error))) == Step::<
                Estimate,
                Option<u64>,
            >::Continue(Estimate { phase: Phase::Restoring, ..e })
        },
        e.phase matches Phase::Sampling { point, left } ==> {
            let following = if point + step < e.total_len - step {
                Phase::Seeking { point: (point + step) as u64 }
            } else {
                Phase::Restoring
            };
            &&& estimate_transition(e, Event::Header(Ok(header))) matches Step::Continue(next)
            &&& next.parsed_n_frames == e.parsed_n_frames + 1
            &&& next.n_bytes == e.n_bytes + header.frame_len
            &&& next.original_pos == e.original_pos
            &&& next.total_len == e.total_len
            &&& left > 1 ==> next.phase == (Phase::Sampling { point, left: (left - 1) as u64 })
            &&& left == 1 ==> next.phase == following
            &&& estimate_transition(e, Event::Header(Err(error))) == Step::<
                Estimate,
                Option<u64>,
            >::Continue(Estimate { phase: following, ..e })
        },
{
    if e.phase is Sampling {
        law_sample_points(
            e.original_pos as int,
            e.total_len as int,
            e.phase->Sampling_point as int,
            step,
        );
    }
}

/// How an estimate ends, once the stream is back where it was: with 1024 samples for each frame of
/// the average length that fits, or with nothing if no frame was found. It fails if a stream that
/// can seek cannot go back.
pub proof fn law_estimate_ends(
    e: Estimate,
    average: int,
    frames: int,
    error: Error,
    reached: u64,
)
    requires
        e.wf(),
        e.parsed_n_frames > 0 ==> averages(
            e.parsed_n_frames as int,
            e.n_bytes as int,
            e.total_len as int,
            average,
            frames,
        ) && 1024 * frames <= u64::MAX,
    ensures
        e.phase is ClosingScope ==> {
            &&& estimate_transition(e, Event::Moved) matches Step::Done(Ok(count))
            &&& e.parsed_n_frames == 0 ==> count is None
            &&& e.parsed_n_frames > 0 ==> (count matches Some(n) && n == 1024 * frames)
        },
        e.phase is Restoring ==> {
            &&& estimate_transition(e, Event::Seeked(Ok(reached))) matches Step::Done(Ok(count))
            &&& e.parsed_n_frames == 0 ==> count is None
            &&& e.parsed_n_frames > 0 ==> (count matches Some(n) && n == 1024 * frames)
            &&& estimate_transition(e, Event::Seeked(Err(error))) == Step::<
                Estimate,
                Option<u64>,
            >::Done(Err(error))
        },
{
    law_count(e, average, frames);
}

/// Which answers an estimate goes on with: all that fit what it asked for, as long as the sum of the
/// frame lengths and the result fit in their types.
pub proof fn law_estimate_accepts(e: Estimate, event: Event, average: int, frames: int)
    requires
        e.wf(),
        e.parsed_n_frames > 0 ==> averages(
            e.parsed_n_frames as int,
            e.n_bytes as int,
            e.total_len as int,
            average,
            frames,
        ),
    ensures
        e.spec_accepts(event) <==> {
            &&& event.spec_answers(e.spec_action())
            &&& (e.phase matches Phase::Skipping { header } ==> event->Ignored_0 is Ok ==> e.n_bytes
                + header.frame_len <= u64::MAX)
            &&& e.phase is Sampling ==> (event matches Event::Header(Ok(header)) ==> e.n_bytes
                + header.frame_len <= u64::MAX)
            &&& e.phase is ClosingScope || (e.phase is Restoring && event->Seeked_0 is Ok)
                ==> e.parsed_n_frames == 0 || 1024 * frames <= u64::MAX
        },
{
    law_count(e, average, frames);
}

/// Opening a stream begins with the first header. A failure to find it is handed on; else the stream
/// goes back over it, by 9 bytes with a CRC and 7 without, and tells where it then is.
pub proof fn law_open_answers(header: AdtsHeader, error: Error)
    ensures
        OpenState::Header.spec_action() == Action::ReadHeader,
        open_transition(OpenState::Header, Event::Header(Ok(header))) == Step::<
            OpenState,
            AdtsReader,
        >::Continue(OpenState::Rewinding { header }),
        open_transition(OpenState::Header, Event::Header(Err(error))) == Step::<
            OpenState,
            AdtsReader,
        >::Done(Err(error)),
        (OpenState::Rewinding { header }).spec_action() == Action::SeekBufferedRev(
            if header.crc is Some {
                9u16
            } else {
                7u16
            },
        ),
        open_transition(OpenState::Rewinding { header }, Event::Moved) == Step::<
            OpenState,
            AdtsReader,
        >::Continue(OpenState::Locating { header }),
        (OpenState::Locating { header }).spec_action() == Action::Inspect,
{
}

/// Whether `reader` is what the opening of a stream gives whose first frame stands at `pos`, with
/// `header`, and of which `num_frames` samples are estimated.
pub open spec fn describes(
    reader: AdtsReader,
    header: AdtsHeader,
    pos: u64,
    num_frames: Option<u64>,
) -> bool {
    &&& reader.track.id == 0
    &&& reader.track.sample_rate == header.sample_rate
    &&& reader.track.channels == header.channels
    &&& reader.track.num_frames == num_frames
    &&& header.sample_rate == 0 ==> reader.track.time_base is None
    &&& header.sample_rate > 0 ==> reader.track.time_base == Some(
        TimeBase { numer: 1, denom: header.sample_rate },
    )
    &&& reader.first_frame_pos == pos
    &&& reader.next_packet_ts == 0
}

/// Then the length of the stream is estimated, from where it is on; the first frame stands there. The
/// demuxer describes the stream as its first header does, and tells the length as far as there is an
/// estimate of it.
pub proof fn law_open_counts(
    header: AdtsHeader,
    info: StreamInfo,
    pos: u64,
    e: Estimate,
    event: Event,
)
    requires
        info.byte_len matches Some(len) ==> info.pos <= len,
    ensures
        info.byte_len is None ==> {
            &&& open_transition(OpenState::Locating { header }, Event::Info(info)) matches Step::Done(
                Ok(reader),
            )
            &&& describes(reader, header, info.pos, None)
        },
        info.byte_len matches Some(len) ==> {
            &&& open_transition(OpenState::Locating { header }, Event::Info(info))
                matches Step::Continue(OpenState::Counting { header: kept, first_frame_pos, estimate })
            &&& kept == header
            &&& first_frame_pos == info.pos
            &&& estimate.original_pos == info.pos
            &&& estimate.total_len == len - info.pos
            &&& estimate_start(info) == Step::<Estimate, Option<u64>>::Continue(estimate)
        },
        ({
            let state = OpenState::Counting { header, first_frame_pos: pos, estimate: e };
            let step = open_transition(state, event);
            &&& state.spec_action() == e.spec_action()
            &&& match estimate_transition(e, event) {
                Step::Continue(estimate) => step == Step::<OpenState, AdtsReader>::Continue(
                    OpenState::Counting { header, first_frame_pos: pos, estimate },
                ),
                Step::Done(Ok(num_frames)) => {
                    &&& step matches Step::Done(Ok(reader))
                    &&& describes(reader, header, pos, num_frames)
                },
                Step::Done(Err(error)) => step == Step::<OpenState, AdtsReader>::Done(Err(error)),
            }
        }),
{
}

/// Which answers an opening goes on with: all that fit what it asked for, as long as the length of
/// the stream can be estimated.
pub proof fn law_open_accepts(header: AdtsHeader, pos: u64, estimate: Estimate, event: Event)
    ensures
        OpenState::Header.spec_accepts(event) <==> event.spec_answers(Action::ReadHeader),
        (OpenState::Rewinding { header }).spec_accepts(event) <==> event == Event::Moved,
        (OpenState::Locating { header }).spec_accepts(event) <==> (event matches Event::Info(info)
            && can_estimate(info)),
        (OpenState::Counting { header, first_frame_pos: pos, estimate }).spec_accepts(event)
            <==> estimate.spec_accepts(event),
{
}

/// Scoring a stream begins with a header where the stream is. If the scope has room for the rest of
/// its frame and a header of 9 bytes, a second header has to follow the frame, and the confidence is
/// 255 if it does; else it is 127. Every failure is handed on.
pub proof fn law_score_answers(header: AdtsHeader, error: Error, len: u16, available: u64)
    requires
        header.wf(),
    ensures
        ScoreState::First.spec_action() == Action::ReadHeaderNoResync,
        score_transition(ScoreState::First, Event::Header(Err(error))) == Step::<
            ScoreState,
            u8,
        >::Done(Err(error)),
        ({
            let step = score_transition(ScoreState::First, Event::Header(Ok(header)));
            &&& step matches Step::Continue(ScoreState::Measuring { payload_len })
            &&& payload_len + (if header.crc is Some {
                9int
            } else {
                7int
            }) == header.frame_len
        }),
        (ScoreState::Measuring { payload_len: len }).spec_action() == Action::Measure,
        score_transition(
            ScoreState::Measuring { payload_len: len },
            Event::Available(available),
        ) == if available >= len + 9 {
            Step::<ScoreState, u8>::Continue(ScoreState::Skipping { payload_len: len })
        } else {
            Step::<ScoreState, u8>::Done(Ok(127u8))
        },
        (ScoreState::Skipping { payload_len: len }).spec_action() == Action::IgnoreBytes(
            len as u64,
        ),
        score_transition(ScoreState::Skipping { payload_len: len }, Event::Ignored(Ok(())))
            == Step::<ScoreState, u8>::Continue(ScoreState::Second),
        score_transition(ScoreState::Skipping { payload_len: len }, Event::Ignored(Err(error)))
            == Step::<ScoreState, u8>::Done(Err(error)),
        ScoreState::Second.spec_action() == Action::ReadHeaderNoResync,
        score_transition(ScoreState::Second, Event::Header(Ok(header))) == Step::<
            ScoreState,
            u8,
        >::Done(Ok(255u8)),
        score_transition(ScoreState::Second, Event::Header(Err(error))) == Step::<
            ScoreState,
            u8,
        >::Done(Err(error)),
{
}

/// What can come of the reading of a header: one whose frame has room for it, and is no longer than
/// 13 bits can say; or a failure of the stream, or something that is wrong with the header, but
/// nothing that only a seek can come to.
pub proof fn law_header_answers(
    header: AdtsHeader,
    io: IoErrorKind,
    decode: DecodeErrorKind,
    unsupported: UnsupportedKind,
    seek: SeekErrorKind,
)
    ensures
        forall|action: Action|
            action is ReadHeader || action is ReadHeaderNoResync ==> {
                &&& (#[trigger] Event::Header(Ok::<AdtsHeader, Error>(header)).spec_answers(action)
                    <==> (if header.crc is Some {
                    9int
                } else {
                    7int
                }) <= header.frame_len <= 8191)
                &&& Event::Header(Err::<AdtsHeader, Error>(Error::Io(io))).spec_answers(action)
                &&& Event::Header(Err::<AdtsHeader, Error>(Error::Decode(decode))).spec_answers(
                    action,
                )
                &&& Event::Header(
                    Err::<AdtsHeader, Error>(Error::Unsupported(unsupported)),
                ).spec_answers(action)
                &&& !Event::Header(Err::<AdtsHeader, Error>(Error::Seek(seek))).spec_answers(action)
            },
{
}

/// What can come of anything else that the stream is asked for. The stream fails with errors of its
/// own only, and where bytes are asked for, it is that many.
pub proof fn law_stream_answers(event: Event, n: u64, len: u16)
    ensures
        event.spec_answers(Action::IgnoreBytes(n)) <==> (event matches Event::Ignored(res) && (
        res is Ok || res->Err_0 is Io)),
        event.spec_answers(Action::ReadBytes(len)) <==> (event matches Event::Bytes(res) && (
        if res is Ok {
            res->Ok_0@.len() == len
        } else {
            res->Err_0 is Io
        })),
        event.spec_answers(Action::Seek(n)) <==> (event matches Event::Seeked(res) && (res is Ok
            || res->Err_0 is Io)),
        event.spec_answers(Action::SeekBufferedRev(len)) <==> event == Event::Moved,
        event.spec_answers(Action::OpenScope(n)) <==> event == Event::Moved,
        event.spec_answers(Action::CloseScope(n)) <==> event == Event::Moved,
        event.spec_answers(Action::Inspect) <==> event is Info,
        event.spec_answers(Action::Measure) <==> event is Available,
        event.spec_answers(Action::ReadHeader) ==> event is Header,
        event.spec_answers(Action::ReadHeaderNoResync) ==> event is Header,
{
}

} // verus!
