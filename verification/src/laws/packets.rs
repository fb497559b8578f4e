//! Reading packets and seeking, on a stream whose frames follow one another.
use crate::error::{Error, SeekErrorKind};
use crate::header::AdtsHeader;
use crate::protocol::{Action, Event, Step};
use crate::reader::{
    packet_transition, seek_transition, AdtsReader, Packet, PacketState, SeekState, SeekTo,
    SeekedTo, SAMPLES_PER_AAC_PACKET,
};
use crate::stream::{
    behind_header_from, end_of_stream, header_from, law_next_sync, law_read, law_rewind, next_sync,
    ByteStream,
};
use crate::time::Time;
use vstd::prelude::*;

verus! {

/// The error of seeking past the last frame.
pub open spec fn out_of_range() -> Error {
    Error::Seek(SeekErrorKind::OutOfRange)
}

/// Where the frame starts that comes `n` frames after the first one found from `pos` on. Each
/// frame is looked for behind the end of the one before it.
pub open spec fn nth_frame(s: Seq<u8>, pos: int, n: nat) -> Result<int, Error>
    decreases n,
{
    match header_from(s, pos) {
        Ok(header) => {
            let start = next_sync(s, pos)->0;
            if n == 0 {
                Ok(start)
            } else if start + header.frame_len > s.len() {
                Err(end_of_stream())
            } else {
                nth_frame(s, start + header.frame_len, (n - 1) as nat)
            }
        },
        Err(error) => if error == end_of_stream() {
            Err(out_of_range())
        } else {
            Err(error)
        },
    }
}

/// How the search ends for the frame that comes `n` frames after the first one found from `pos` on:
/// how many frames are passed over, and where the stream then stands. That is at the start of the
/// frame; or, where there is none, behind the header that is malformed, or at the end.
pub open spec fn search_end(s: Seq<u8>, pos: int, n: nat) -> (nat, int)
    decreases n,
{
    match header_from(s, pos) {
        Ok(header) => {
            let start = next_sync(s, pos)->0;
            if n == 0 {
                (0, start)
            } else if start + header.frame_len > s.len() {
                (0, s.len() as int)
            } else {
                let (passed, stop) = search_end(s, start + header.frame_len, (n - 1) as nat);
                (passed + 1, stop)
            }
        },
        Err(_) => (0, behind_header_from(s, None, pos)),
    }
}

/// Whether the stream stands where the packet comes next that `reader` expects, in the order of
/// the frames from the first on.
#[verifier::opaque]
pub open spec fn in_step(reader: AdtsReader, st: ByteStream) -> bool {
    forall|n: nat|
        #[trigger] nth_frame(st.visible(), st.pos, n) == nth_frame(
            st.visible(),
            reader.first_frame_pos as int,
            (reader.next_packet_ts / SAMPLES_PER_AAC_PACKET) as nat + n,
        )
}

/// The order of the states of a seek.
pub open spec fn seek_rank(state: SeekState) -> int {
    match state {
        SeekState::Rewinding { .. } => 2,
        SeekState::Scanning { .. } => 1,
        SeekState::Skipping { .. } => 1,
        SeekState::Settling { .. } => 0,
    }
}

/// How much of the stream a seek can still pass over.
pub open spec fn seek_left(state: SeekState, st: ByteStream) -> int {
    match state {
        SeekState::Skipping { .. } => st.end() - st.pos + 1,
        _ => st.end() - st.pos,
    }
}

/// Seeks in `st`, from `state` on: the demuxer and the stream afterwards, and the result.
#[verifier::opaque]
pub open spec fn run_seek(reader: AdtsReader, state: SeekState, st: ByteStream) -> (
    AdtsReader,
    ByteStream,
    Result<SeekedTo, Error>,
)
    decreases seek_rank(state), seek_left(state, st),
    when st.wf()
    via run_seek_decreases
{
    let (next_st, event) = st.serve(state.spec_action());
    let (ts, step) = seek_transition(reader.next_packet_ts as int, state, event);
    match step {
        Step::Continue(next) => run_seek(reader.at(ts), next, next_st),
        Step::Done(res) => (reader.at(ts), next_st, res),
    }
}

#[via_fn]
proof fn run_seek_decreases(reader: AdtsReader, state: SeekState, st: ByteStream) {
    law_read(st.visible(), st.limit, st.pos);
    law_next_sync(st.visible(), st.pos);
}

/// Seeks in `st`, from the start: the demuxer and the stream afterwards, and the result.
pub open spec fn seek_in(reader: AdtsReader, to: SeekTo, st: ByteStream) -> (
    AdtsReader,
    ByteStream,
    Result<SeekedTo, Error>,
) {
    match reader.seek_start(to, st.seekable) {
        Step::Continue(state) => run_seek(reader, state, st),
        Step::Done(res) => (reader, st, res),
    }
}

/// Frames are counted the same way from anywhere before the same sync word.
proof fn lemma_nth_frame_from_start(s: Seq<u8>, pos: int, n: nat)
    requires
        0 <= pos <= s.len(),
        header_from(s, pos) is Ok,
    ensures
        nth_frame(s, next_sync(s, pos)->0, n) == nth_frame(s, pos, n),
{
    law_read(s, None, pos);
    law_rewind(s, None, pos);
}

/// Counting `m` frames and then `n` from there is counting both at once.
proof fn lemma_nth_frame_add(s: Seq<u8>, pos: int, m: nat, n: nat)
    requires
        0 <= pos <= s.len(),
        nth_frame(s, pos, m) is Ok,
    ensures
        0 <= nth_frame(s, pos, m)->Ok_0 <= s.len(),
        nth_frame(s, nth_frame(s, pos, m)->Ok_0, n) == nth_frame(s, pos, m + n),
    decreases m,
{
    law_read(s, None, pos);
    law_next_sync(s, pos);
    if m == 0 {
        lemma_nth_frame_from_start(s, pos, n);
    } else {
        let next = next_sync(s, pos)->0 + header_from(s, pos)->Ok_0.frame_len;
        lemma_nth_frame_add(s, next, (m - 1) as nat, n);
    }
}

/// What a seek that looks for the next frame does with it.
proof fn lemma_seek_scan(reader: AdtsReader, required_ts: u64, st: ByteStream)
    requires
        st.wf(),
        st.limit is None,
        reader.next_packet_ts <= required_ts,
    ensures
        ({
            let s = st.visible();
            let ts = reader.next_packet_ts;
            let run = run_seek(reader, SeekState::Scanning { required_ts }, st);
            match header_from(s, st.pos) {
                Ok(header) => {
                    let start = next_sync(s, st.pos)->0;
                    let end = start + header.frame_len;
                    if required_ts < ts + SAMPLES_PER_AAC_PACKET {
                        run == (
                            reader,
                            st.at(start),
                            Ok::<SeekedTo, Error>(
                                SeekedTo { track_id: 0, required_ts, actual_ts: ts },
                            ),
                        )
                    } else if end <= st.end() {
                        run == run_seek(
                            reader.at(ts + SAMPLES_PER_AAC_PACKET),
                            SeekState::Scanning { required_ts },
                            st.at(end),
                        )
                    } else {
                        run == (reader, st.at(st.end()), Err::<SeekedTo, Error>(end_of_stream()))
                    }
                },
                Err(error) => run == (
                    reader,
                    st.at(behind_header_from(s, None, st.pos)),
                    Err::<SeekedTo, Error>(
                        if error == end_of_stream() {
                            out_of_range()
                        } else {
                            error
                        },
                    ),
                ),
            }
        }),
{
    let s = st.visible();
    let run = run_seek(reader, SeekState::Scanning { required_ts }, st);
    reveal_with_fuel(run_seek, 1);
    law_read(s, st.limit, st.pos);
    law_next_sync(s, st.pos);
    assert(reader.at(reader.next_packet_ts as int) == reader);
    if header_from(s, st.pos) is Ok {
        let header = header_from(s, st.pos)->Ok_0;
        let start = next_sync(s, st.pos)->0;
        let after = st.at(start + header.spec_header_len());
        if required_ts < reader.next_packet_ts + SAMPLES_PER_AAC_PACKET {
            let settling = SeekState::Settling {
                required_ts,
                header_len: header.spec_header_len() as u16,
            };
            assert(run == run_seek(reader, settling, after));
            assert(after.at(start) == st.at(start));
        } else {
            let skipping = SeekState::Skipping {
                required_ts,
                payload_len: header.spec_payload_len() as u16,
            };
            assert(run == run_seek(reader, skipping, after));
            assert(after.at(start + header.frame_len) == st.at(start + header.frame_len));
            assert(after.at(st.end()) == st.at(st.end()));
        }
    }
}

/// A seek that moves forward searches for the frame as many frames on as lie between the next packet
/// and the required timestamp.
proof fn lemma_seek_forward(reader: AdtsReader, required_ts: u64, st: ByteStream)
    requires
        st.wf(),
        st.limit is None,
        reader.next_packet_ts <= required_ts,
    ensures
        ({
            let s = st.visible();
            let n = ((required_ts - reader.next_packet_ts) / SAMPLES_PER_AAC_PACKET as int) as nat;
            let (passed, stop) = search_end(s, st.pos, n);
            let ts = reader.next_packet_ts + passed * SAMPLES_PER_AAC_PACKET;
            &&& run_seek(reader, SeekState::Scanning { required_ts }, st) == (
                reader.at(ts),
                st.at(stop),
                match nth_frame(s, st.pos, n) {
                    Ok(_) => Ok(SeekedTo { track_id: 0, required_ts, actual_ts: ts as u64 }),
                    Err(error) => Err(error),
                },
            )
            &&& ts <= required_ts
        }),
    decreases required_ts - reader.next_packet_ts,
{
    let s = st.visible();
    let n = (required_ts - reader.next_packet_ts) / SAMPLES_PER_AAC_PACKET as int;
    law_read(s, None, st.pos);
    law_next_sync(s, st.pos);
    lemma_seek_scan(reader, required_ts, st);
    assert(reader.at(reader.next_packet_ts as int) == reader);
    if n > 0 && header_from(s, st.pos) is Ok {
        let end = next_sync(s, st.pos)->0 + header_from(s, st.pos)->Ok_0.frame_len;
        if end <= st.end() {
            let next_ts = reader.next_packet_ts + SAMPLES_PER_AAC_PACKET;
            let rest = (required_ts - next_ts) / SAMPLES_PER_AAC_PACKET as int;
            assert(rest == n - 1);
            assert(st.at(end).visible() == s);
            lemma_seek_forward(reader.at(next_ts), required_ts, st.at(end));
            assert(nth_frame(s, st.pos, n as nat) == nth_frame(s, end, rest as nat));
            let passed = search_end(s, end, rest as nat).0;
            assert(search_end(s, st.pos, n as nat).0 == passed + 1);
            assert(reader.at(next_ts).at(next_ts + passed * SAMPLES_PER_AAC_PACKET) == reader.at(
                reader.next_packet_ts + (passed + 1) * SAMPLES_PER_AAC_PACKET,
            ));
        }
    }
}

/// A search that finds its frame stops at its start, with all frames before it passed over. One that
/// runs out of frames stops at the end, and there is no frame with as many before it.
proof fn lemma_search_end(s: Seq<u8>, pos: int, n: nat)
    requires
        0 <= pos <= s.len(),
    ensures
        search_end(s, pos, n).0 <= n,
        nth_frame(s, pos, n) matches Ok(start) ==> search_end(s, pos, n) == (n, start),
        nth_frame(s, pos, n) == Err::<int, Error>(out_of_range()) ==> {
            &&& search_end(s, pos, n).1 == s.len()
            &&& forall|k: nat|
                k >= search_end(s, pos, n).0 ==> #[trigger] nth_frame(s, pos, k) == Err::<
                    int,
                    Error,
                >(out_of_range())
        },
    decreases n,
{
    law_read(s, None, pos);
    law_next_sync(s, pos);
    if n > 0 && header_from(s, pos) is Ok {
        let end = next_sync(s, pos)->0 + header_from(s, pos)->Ok_0.frame_len;
        if end <= s.len() {
            lemma_search_end(s, end, (n - 1) as nat);
            if nth_frame(s, pos, n) == Err::<int, Error>(out_of_range()) {
                assert forall|k: nat| k >= search_end(s, pos, n).0 implies #[trigger] nth_frame(
                    s,
                    pos,
                    k,
                ) == Err::<int, Error>(out_of_range()) by {
                    assert(nth_frame(s, pos, k) == nth_frame(s, end, (k - 1) as nat));
                }
            }
        }
    }
}

/// Where a seek starts to look for frames, and how many frames there are before: at the first frame
/// if it has to go back, or else where the stream is.
pub open spec fn search_start(reader: AdtsReader, required_ts: u64, st: ByteStream) -> (int, nat) {
    if required_ts < reader.next_packet_ts {
        (reader.first_frame_pos as int, 0)
    } else {
        (st.pos, (reader.next_packet_ts / SAMPLES_PER_AAC_PACKET) as nat)
    }
}

/// Whether `run` is the outcome of a seek in `st` to the frame that the required timestamp falls in,
/// counted from the first frame on. The timestamp of the next packet is that of the frame at which
/// the search ended, found or not, and the stream stands where it ended.
pub open spec fn seeks_frame(
    reader: AdtsReader,
    required_ts: u64,
    st: ByteStream,
    run: (AdtsReader, ByteStream, Result<SeekedTo, Error>),
) -> bool {
    let s = st.visible();
    let n = (required_ts / SAMPLES_PER_AAC_PACKET) as nat;
    let (from, before) = search_start(reader, required_ts, st);
    let (passed, stop) = search_end(s, from, (n - before) as nat);
    let ts = (before + passed) * SAMPLES_PER_AAC_PACKET;
    &&& run.0 == reader.at(ts)
    &&& run.1 == st.at(stop)
    &&& ts <= required_ts
    &&& run.0.wf()
    &&& match nth_frame(s, reader.first_frame_pos as int, n) {
        Ok(start) => {
            &&& run.2 == Ok::<SeekedTo, Error>(
                SeekedTo { track_id: 0, required_ts, actual_ts: ts as u64 },
            )
            &&& required_ts < ts + SAMPLES_PER_AAC_PACKET
            &&& before + passed == n
            &&& stop == start
            &&& in_step(run.0, run.1)
        },
        Err(error) => {
            &&& run.2 == Err::<SeekedTo, Error>(error)
            &&& error == out_of_range() ==> stop == s.len() && in_step(run.0, run.1)
        },
    }
}

/// A demuxer that was in step is so after a seek that moves forward, unless it fails half-way.
proof fn lemma_seek_in_step(reader: AdtsReader, required_ts: u64, st: ByteStream)
    requires
        st.wf(),
        st.limit is None,
        reader.wf(),
        reader.first_frame_pos <= st.end(),
        reader.next_packet_ts <= required_ts,
        in_step(reader, st),
    ensures
        seeks_frame(
            reader,
            required_ts,
            st,
            run_seek(reader, SeekState::Scanning { required_ts }, st),
        ),
{
    reveal(in_step);
    let s = st.visible();
    let first = reader.first_frame_pos as int;
    let n = (required_ts / SAMPLES_PER_AAC_PACKET) as nat;
    let m = (reader.next_packet_ts / SAMPLES_PER_AAC_PACKET) as nat;
    let rest = (n - m) as nat;
    let (passed, stop) = search_end(s, st.pos, rest);
    lemma_seek_forward(reader, required_ts, st);
    lemma_search_end(s, st.pos, rest);
    assert((required_ts - reader.next_packet_ts) / SAMPLES_PER_AAC_PACKET as int == rest);
    assert(nth_frame(s, st.pos, rest) == nth_frame(s, first, m + rest));
    assert(reader.next_packet_ts + passed * SAMPLES_PER_AAC_PACKET == (m + passed)
        * SAMPLES_PER_AAC_PACKET);
    assert(st.at(stop).visible() =~= s);
    match nth_frame(s, first, n) {
        Ok(start) => {
            assert forall|k: nat| #[trigger]
                nth_frame(s, start, k) == nth_frame(s, first, n + k) by {
                lemma_nth_frame_add(s, first, n, k);
            }
        },
        Err(error) => {
            if error == out_of_range() {
                assert forall|k: nat| #[trigger]
                    nth_frame(s, stop, k) == nth_frame(s, first, (m + passed) + k) by {
                    let j = passed + k;
                    assert(nth_frame(s, st.pos, j) == nth_frame(s, first, m + j));
                    assert(header_from(s, stop) == Err::<AdtsHeader, Error>(end_of_stream()));
                }
            }
        },
    }
}

/// A seek leads to the frame that the required timestamp falls in, counted from the first frame
/// on, wherever the stream was before; the packets from there on follow in step. Where there is no
/// such frame the seek fails: the frames before the failure are passed over and counted, and the
/// stream stands behind the header that is malformed, or at its end; past the last frame, the
/// demuxer is in step with the end of the stream. A stream that cannot seek is left alone if the
/// frame lies behind.
pub proof fn law_seek(reader: AdtsReader, required_ts: u64, st: ByteStream)
    requires
        st.wf(),
        st.limit is None,
        reader.wf(),
        reader.first_frame_pos <= st.end(),
        in_step(reader, st),
    ensures
        ({
            let run = seek_in(reader, SeekTo::TimeStamp(required_ts), st);
            if required_ts < reader.next_packet_ts && !st.seekable {
                run == (
                    reader,
                    st,
                    Err::<SeekedTo, Error>(Error::Seek(SeekErrorKind::ForwardOnly)),
                )
            } else {
                seeks_frame(reader, required_ts, st, run)
            }
        }),
{
    if required_ts >= reader.next_packet_ts {
        lemma_seek_in_step(reader, required_ts, st);
    } else if st.seekable {
        let back = st.at(reader.first_frame_pos as int);
        let run = run_seek(reader.at(0), SeekState::Scanning { required_ts }, back);
        assert(back.visible() =~= st.visible());
        assert(in_step(reader.at(0), back)) by {
            reveal(in_step);
        }
        lemma_seek_in_step(reader.at(0), required_ts, back);
        assert(seeks_frame(reader, required_ts, st, run));
        let rewinding = SeekState::Rewinding { required_ts, pos: reader.first_frame_pos };
        assert(run_seek(reader, rewinding, st) == run) by {
            reveal_with_fuel(run_seek, 1);
        }
    }
}

/// A seek to a time is a seek to its timestamp. If the time has none, or the time base is not
/// known, the seek fails, and leaves the demuxer and the stream alone.
pub proof fn law_seek_time(reader: AdtsReader, time: Time, st: ByteStream)
    ensures
        match reader.track.time_base {
            Some(base) => if 0 <= base.ticks_at(time) <= i64::MAX {
                seek_in(reader, SeekTo::Time(time), st) == seek_in(
                    reader,
                    SeekTo::TimeStamp(base.ticks_at(time) as u64),
                    st,
                )
            } else {
                seek_in(reader, SeekTo::Time(time), st) == (
                    reader,
                    st,
                    Err::<SeekedTo, Error>(Error::Seek(SeekErrorKind::OutOfRange)),
                )
            },
            None => seek_in(reader, SeekTo::Time(time), st) == (
                reader,
                st,
                Err::<SeekedTo, Error>(Error::Seek(SeekErrorKind::Unseekable)),
            ),
        },
{
}

/// A packet is the payload of the next frame, with the timestamp that the demuxer expects; in step,
/// that is the frame with as many frames before it as packets. If the frame is whole, the packets
/// after it follow in step, and their timestamps go on by the duration of a packet. If the frame is
/// cut off, reading it fails. The end of the stream, where no frame is found, is no error; after a
/// malformed header, the next frame is looked for behind that header.
pub proof fn law_next_packet(reader: AdtsReader, st: ByteStream, after: ByteStream, bytes: Event)
    requires
        st.wf(),
        reader.wf(),
        reader.next_packet_ts + SAMPLES_PER_AAC_PACKET <= u64::MAX,
        header_from(st.visible(), st.pos) matches Ok(header) ==> st.serve(
            Action::ReadHeader,
        ).0.reads(header.spec_payload_len() as u16, after, bytes),
    ensures
        ({
            let s = st.visible();
            let ts = reader.next_packet_ts as int;
            let frame = nth_frame(
                s,
                reader.first_frame_pos as int,
                (reader.next_packet_ts / SAMPLES_PER_AAC_PACKET) as nat,
            );
            let (after_header, event) = st.serve(Action::ReadHeader);
            let (next_ts, step) = packet_transition(ts, PacketState::Header, event);
            &&& after_header == st.at(behind_header_from(s, st.limit, st.pos))
            &&& match header_from(s, st.pos) {
                Ok(header) => {
                    let start = next_sync(s, st.pos)->0;
                    let end = start + header.frame_len;
                    let payload = PacketState::Payload {
                        ts: ts as u64,
                        len: header.spec_payload_len() as u16,
                    };
                    let (end_ts, end_step) = packet_transition(next_ts, payload, bytes);
                    &&& in_step(reader, st) ==> frame == Ok::<int, Error>(start)
                    &&& step == Step::<PacketState, Option<Packet>>::Continue(payload)
                    &&& payload.spec_action() == Action::ReadBytes(header.spec_payload_len() as u16)
                    &&& next_ts == ts + SAMPLES_PER_AAC_PACKET
                    &&& end_ts == next_ts
                    &&& if end <= st.end() {
                        &&& end_step matches Step::Done(Ok(Some(packet)))
                        &&& packet.track_id == 0
                        &&& packet.ts == ts
                        &&& packet.dur == SAMPLES_PER_AAC_PACKET
                        &&& packet.data@ == s.subrange(start + header.spec_header_len(), end)
                        &&& after == st.at(end)
                        &&& in_step(reader, st) ==> in_step(reader.at(next_ts), after)
                    } else {
                        end_step == Step::<PacketState, Option<Packet>>::Done(Err(end_of_stream()))
                    }
                },
                Err(error) => {
                    &&& in_step(reader, st) ==> frame is Err
                    &&& next_ts == ts
                    &&& step == Step::<PacketState, Option<Packet>>::Done(
                        if error == end_of_stream() {
                            Ok(None)
                        } else {
                            Err(error)
                        },
                    )
                },
            }
        }),
{
    reveal(in_step);
    let s = st.visible();
    let m = (reader.next_packet_ts / SAMPLES_PER_AAC_PACKET) as nat;
    law_read(s, st.limit, st.pos);
    law_next_sync(s, st.pos);
    if in_step(reader, st) {
        assert(nth_frame(s, st.pos, 0) == nth_frame(s, reader.first_frame_pos as int, m + 0));
    }
    if header_from(s, st.pos) is Ok {
        let header = header_from(s, st.pos)->Ok_0;
        let start = next_sync(s, st.pos)->0;
        let end = start + header.frame_len;
        let next_ts = reader.next_packet_ts + SAMPLES_PER_AAC_PACKET;
        assert(next_ts / SAMPLES_PER_AAC_PACKET as int == m + 1);
        assert(st.at(end).visible() =~= s);
        if end <= st.end() {
            let body = start + header.spec_header_len();
            assert(st.data.subrange(body, end) =~= s.subrange(body, end));
        }
        if in_step(reader, st) && end <= st.end() {
            assert forall|k: nat| #[trigger]
                nth_frame(s, end, k) == nth_frame(
                    s,
                    reader.first_frame_pos as int,
                    (m + 1) as nat + k,
                ) by {
                assert(nth_frame(s, st.pos, k + 1) == nth_frame(s, end, k));
            }
        }
    }
}

/// After a seek the stream stands at the frame that the required timestamp falls in. The next packet
/// is that frame's, and it has the timestamp that the seek reported.
pub proof fn law_packet_after_seek(reader: AdtsReader, required_ts: u64, st: ByteStream)
    requires
        st.wf(),
        st.limit is None,
        reader.wf(),
        reader.first_frame_pos <= st.end(),
        in_step(reader, st),
        seek_in(reader, SeekTo::TimeStamp(required_ts), st).2 is Ok,
    ensures
        ({
            let (sought, sought_st, res) = seek_in(reader, SeekTo::TimeStamp(required_ts), st);
            let event = sought_st.serve(Action::ReadHeader).1;
            let header = header_from(sought_st.visible(), sought_st.pos)->Ok_0;
            &&& nth_frame(
                st.visible(),
                reader.first_frame_pos as int,
                (required_ts / SAMPLES_PER_AAC_PACKET) as nat,
            ) == Ok::<int, Error>(sought_st.pos)
            &&& event == Event::Header(Ok::<AdtsHeader, Error>(header))
            &&& next_sync(sought_st.visible(), sought_st.pos) == Some(sought_st.pos)
            &&& packet_transition(sought.next_packet_ts as int, PacketState::Header, event).1
                == Step::<PacketState, Option<Packet>>::Continue(
                PacketState::Payload {
                    ts: res->Ok_0.actual_ts,
                    len: header.spec_payload_len() as u16,
                },
            )
        }),
{
    law_seek(reader, required_ts, st);
    let s = st.visible();
    let n = (required_ts / SAMPLES_PER_AAC_PACKET) as nat;
    let start = nth_frame(s, reader.first_frame_pos as int, n)->Ok_0;
    assert(st.at(start).visible() =~= s);
    lemma_nth_frame_is_start(s, reader.first_frame_pos as int, n);
    law_read(s, None, start);
}

/// A frame that was counted starts with a header.
proof fn lemma_nth_frame_is_start(s: Seq<u8>, pos: int, n: nat)
    requires
        0 <= pos <= s.len(),
        nth_frame(s, pos, n) is Ok,
    ensures
        ({
            let start = nth_frame(s, pos, n)->Ok_0;
            &&& 0 <= start <= s.len()
            &&& header_from(s, start) is Ok
            &&& next_sync(s, start) == Some(start)
        }),
    decreases n,
{
    law_read(s, None, pos);
    law_next_sync(s, pos);
    if n == 0 {
        law_rewind(s, None, pos);
    } else {
        lemma_nth_frame_is_start(
            s,
            next_sync(s, pos)->0 + header_from(s, pos)->Ok_0.frame_len,
            (n - 1) as nat,
        );
    }
}

} // verus!
