//! What every sequence of calls keeps, whatever the stream answers.
use crate::header::AdtsHeader;
use crate::open::reader_of;
use crate::protocol::{Action, Event, Step};
use crate::reader::{
    packet_transition, seek_transition, AdtsReader, PacketState, SeekState, SeekTo,
    SAMPLES_PER_AAC_PACKET,
};
use vstd::prelude::*;

verus! {

/// What a demuxer is about.
pub enum Activity {
    /// No call is under way.
    Idle,
    /// A packet is read.
    Packet(PacketState),
    /// A seek goes on.
    Seek(SeekState),
}

/// A demuxer at one moment of its life.
pub struct Moment {
    pub reader: AdtsReader,
    pub activity: Activity,
}

/// Whether `event` answers what the reading of a packet asks for in `state`, and there is a timestamp
/// left for the packet after the one that it announces.
pub open spec fn packet_accepts(reader: AdtsReader, state: PacketState, event: Event) -> bool {
    &&& event.spec_answers(state.spec_action())
    &&& state is Header && event->Header_0 is Ok ==> reader.next_packet_ts + SAMPLES_PER_AAC_PACKET
        <= u64::MAX
}

/// The moment after `event` came in while a packet was read.
pub open spec fn packet_moment(reader: AdtsReader, state: PacketState, event: Event) -> Moment {
    let (ts, step) = packet_transition(reader.next_packet_ts as int, state, event);
    Moment {
        reader: reader.at(ts),
        activity: match step {
            Step::Continue(next) => Activity::Packet(next),
            Step::Done(_) => Activity::Idle,
        },
    }
}

/// The moment after a seek was asked for.
pub open spec fn seek_begun(reader: AdtsReader, to: SeekTo, seekable: bool) -> Moment {
    Moment {
        reader,
        activity: match reader.seek_start(to, seekable) {
            Step::Continue(state) => Activity::Seek(state),
            Step::Done(_) => Activity::Idle,
        },
    }
}

/// The moment after `event` came in while a seek went on.
pub open spec fn seek_moment(reader: AdtsReader, state: SeekState, event: Event) -> Moment {
    let (ts, step) = seek_transition(reader.next_packet_ts as int, state, event);
    Moment {
        reader: reader.at(ts),
        activity: match step {
            Step::Continue(next) => Activity::Seek(next),
            Step::Done(_) => Activity::Idle,
        },
    }
}

/// Whether `next` can be the moment after `now`: a call begins, or goes on with some answer of the
/// stream, be it a success or a failure.
pub open spec fn can_follow(now: Moment, next: Moment) -> bool {
    let reader = now.reader;
    match now.activity {
        Activity::Idle => {
            ||| next == Moment { reader, activity: Activity::Packet(PacketState::Header) }
            ||| exists|to: SeekTo, seekable: bool|
                to.wf() && next == #[trigger] seek_begun(reader, to, seekable)
        },
        Activity::Packet(state) => exists|event: Event|
            packet_accepts(reader, state, event) && next == #[trigger] packet_moment(
                reader,
                state,
                event,
            ),
        Activity::Seek(state) => exists|event: Event|
            event.spec_answers(state.spec_action()) && next == #[trigger] seek_moment(
                reader,
                state,
                event,
            ),
    }
}

/// Whether moment `i + 1` can follow moment `i`.
pub open spec fn goes_on(life: Seq<Moment>, i: int) -> bool {
    can_follow(life[i], life[i + 1])
}

/// Whether `life` begins with a demuxer that was just opened, and goes on with any calls.
pub open spec fn is_life(
    life: Seq<Moment>,
    header: AdtsHeader,
    first_frame_pos: u64,
    num_frames: Option<u64>,
) -> bool {
    &&& life.len() > 0
    &&& life[0] == Moment {
        reader: reader_of(header, first_frame_pos, num_frames),
        activity: Activity::Idle,
    }
    &&& forall|i: int| 0 <= i < life.len() - 1 ==> #[trigger] goes_on(life, i)
}

/// What holds at every moment of a demuxer that began as `first`.
pub open spec fn keeps(first: AdtsReader, now: Moment) -> bool {
    &&& now.reader.wf()
    &&& now.reader.next_packet_ts % SAMPLES_PER_AAC_PACKET == 0
    &&& now.reader.track == first.track
    &&& now.reader.first_frame_pos == first.first_frame_pos
    &&& match now.activity {
        Activity::Idle => true,
        Activity::Packet(PacketState::Header) => true,
        Activity::Packet(PacketState::Payload { ts, .. }) => now.reader.next_packet_ts == ts
            + SAMPLES_PER_AAC_PACKET,
        Activity::Seek(state) => now.reader.seeks(state),
    }
}

proof fn lemma_keeps(first: AdtsReader, now: Moment, next: Moment)
    requires
        keeps(first, now),
        can_follow(now, next),
    ensures
        keeps(first, next),
{
    match now.activity {
        Activity::Idle => {},
        Activity::Packet(_) => {},
        Activity::Seek(_) => {},
    }
}

/// Whatever calls are made, and whether or not they succeed, the timestamp of the next packet stays
/// a multiple of the duration of a packet, and the track and the place of the first frame stay as
/// the opening set them. No packet is read after which there is no timestamp left.
pub proof fn law_calls(
    life: Seq<Moment>,
    header: AdtsHeader,
    first_frame_pos: u64,
    num_frames: Option<u64>,
    i: int,
)
    requires
        is_life(life, header, first_frame_pos, num_frames),
        0 <= i < life.len(),
    ensures
        keeps(reader_of(header, first_frame_pos, num_frames), life[i]),
    decreases i,
{
    if i > 0 {
        law_calls(life, header, first_frame_pos, num_frames, i - 1);
        assert(goes_on(life, i - 1));
        lemma_keeps(reader_of(header, first_frame_pos, num_frames), life[i - 1], life[i]);
    }
}

/// A call for a packet, whatever the stream answers, moves the timestamp of the next packet by the
/// duration of a packet if a header was read, and not at all if none was. Nothing else changes.
pub proof fn law_packet_timestamp(reader: AdtsReader, header: Event, bytes: Event)
    requires
        reader.wf(),
        packet_accepts(reader, PacketState::Header, header),
        header->Header_0 matches Ok(found) ==> bytes.spec_answers(
            Action::ReadBytes(found.spec_payload_len() as u16),
        ),
    ensures
        ({
            let after_header = packet_moment(reader, PacketState::Header, header);
            let after = match after_header.activity {
                Activity::Packet(state) => packet_moment(after_header.reader, state, bytes),
                _ => after_header,
            };
            &&& after.activity is Idle
            &&& after.reader.wf()
            &&& after.reader == reader.at(
                if header->Header_0 is Ok {
                    reader.next_packet_ts + SAMPLES_PER_AAC_PACKET
                } else {
                    reader.next_packet_ts as int
                },
            )
        }),
{
}

} // verus!
