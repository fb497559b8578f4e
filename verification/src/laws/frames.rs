//! Streams that are put together from frames, and what is read back of them.
use crate::error::{DecodeErrorKind, Error, UnsupportedKind};
use crate::estimate::can_estimate;
use crate::header::{
    channel_configuration, declared_crc, declared_frame_len, extra_data_blocks, profile_index,
    sample_rate_index, AdtsHeader,
};
use crate::laws::estimate::estimate_fits;
use crate::laws::header::{standard_channels, standard_profile, standard_rates};
use crate::laws::open::{law_open, run_open};
use crate::laws::packets::{in_step, law_seek, nth_frame, out_of_range, seek_in, seeks_frame};
use crate::laws::probe::{law_score, run_score};
use crate::laws::run::{
    back_to_back, frame_stands, is_call, is_packet, law_all_packets, payload,
};
use crate::open::OpenState;
use crate::probe::ScoreState;
use crate::reader::{AdtsReader, Packet, SeekTo, SeekedTo};
use crate::stream::{
    end_of_stream, header_at, header_from, header_here, next_sync, sync_at, word_at, ByteStream,
};
use crate::tables::AAC_SAMPLE_RATES;
use vstd::prelude::*;

verus! {

/// What a writer can say in a header, besides the length of the frame.
pub struct Fields {
    /// 0 for MPEG 4, and 1 for MPEG 2.
    pub version: int,
    pub profile: int,
    pub rate: int,
    pub private: int,
    pub channels: int,
    /// Four bits that only encoders use.
    pub marks: int,
    pub fullness: int,
    /// How many packets there are in the frame, besides the first.
    pub extra: int,
    pub crc: Option<u16>,
}

impl Fields {
    /// Whether each field fits in its bits.
    pub open spec fn fit(self) -> bool {
        &&& 0 <= self.version < 2
        &&& 0 <= self.profile < 4
        &&& 0 <= self.rate < 16
        &&& 0 <= self.private < 2
        &&& 0 <= self.channels < 8
        &&& 0 <= self.marks < 16
        &&& 0 <= self.fullness < 2048
        &&& 0 <= self.extra < 4
    }

    pub open spec fn header_len(self) -> int {
        if self.crc is Some {
            9
        } else {
            7
        }
    }

    /// The header, sync word included, of a frame of `len` bytes.
    pub open spec fn written(self, len: int) -> Seq<u8> {
        let start = seq![
            0xffu8,
            (0xf0 + 8 * self.version + if self.crc is Some {
                0int
            } else {
                1int
            }) as u8,
            (64 * self.profile + 4 * self.rate + 2 * self.private + self.channels / 4) as u8,
            (64 * (self.channels % 4) + 4 * self.marks + len / 2048) as u8,
            ((len / 8) % 256) as u8,
            (32 * (len % 8) + self.fullness / 64) as u8,
            (4 * (self.fullness % 64) + self.extra) as u8,
        ];
        match self.crc {
            Some(crc) => start + seq![(crc / 256) as u8, (crc % 256) as u8],
            None => start,
        }
    }
}

/// Numbers that are put together in a byte come apart again.
proof fn lemma_bytes_come_apart(fields: Fields, len: int)
    requires
        fields.fit(),
        0 <= len < 8192,
    ensures
        ({
            let b0 = 64 * fields.profile + 4 * fields.rate + 2 * fields.private + fields.channels
                / 4;
            let b1 = 64 * (fields.channels % 4) + 4 * fields.marks + len / 2048;
            let b2 = (len / 8) % 256;
            let b3 = 32 * (len % 8) + fields.fullness / 64;
            let b4 = 4 * (fields.fullness % 64) + fields.extra;
            &&& 0 <= b0 < 256 && 0 <= b1 < 256 && 0 <= b2 < 256 && 0 <= b3 < 256 && 0 <= b4 < 256
            &&& b0 / 64 == fields.profile
            &&& (b0 / 4) % 16 == fields.rate
            &&& (b0 % 2) * 4 + b1 / 64 == fields.channels
            &&& (b1 % 4) * 2048 + b2 * 8 + b3 / 32 == len
            &&& b4 % 4 == fields.extra
        }),
{
}

/// What the body of a header says that was written.
proof fn lemma_written_body(body: Seq<u8>, fields: Fields, len: int)
    requires
        fields.fit(),
        0 <= len < 8192,
        body == fields.written(len).skip(2),
    ensures
        profile_index(body) == fields.profile,
        sample_rate_index(body) == fields.rate,
        channel_configuration(body) == fields.channels,
        declared_frame_len(body) == len,
        extra_data_blocks(body) == fields.extra,
        fields.crc matches Some(crc) ==> declared_crc(body) == crc,
{
    lemma_bytes_come_apart(fields, len);
    let bytes = fields.written(len);
    assert(body[0] == bytes[2] && body[1] == bytes[3] && body[2] == bytes[4]);
    assert(body[3] == bytes[5] && body[4] == bytes[6]);
    if fields.crc is Some {
        assert(body[5] == bytes[7] && body[6] == bytes[8]);
    }
}

/// A header is read back as it was written, anywhere in a stream: with all that it says, or with the
/// first thing that is wrong with it.
pub proof fn law_written_header(s: Seq<u8>, p: int, fields: Fields, len: int)
    requires
        fields.fit(),
        0 <= len < 8192,
        0 <= p,
        p + fields.header_len() <= s.len(),
        s.subrange(p, p + fields.header_len()) == fields.written(len),
    ensures
        sync_at(s, p),
        ({
            let res = header_at(s, p);
            if fields.rate == 15 {
                res == Err::<AdtsHeader, Error>(Error::Decode(DecodeErrorKind::ForbiddenSampleRate))
            } else if fields.rate > 12 {
                res == Err::<AdtsHeader, Error>(Error::Decode(DecodeErrorKind::ReservedSampleRate))
            } else if len < fields.header_len() {
                res == Err::<AdtsHeader, Error>(Error::Decode(DecodeErrorKind::InvalidFrameLength))
            } else if fields.extra > 0 {
                res == Err::<AdtsHeader, Error>(
                    Error::Unsupported(UnsupportedKind::MultiplePackets),
                )
            } else {
                &&& res matches Ok(header)
                &&& header.profile == standard_profile(fields.profile)
                &&& header.sample_rate == standard_rates()[fields.rate]
                &&& header.channels == standard_channels(fields.channels)
                &&& header.frame_len == len
                &&& header.crc == fields.crc
            }
        }),
{
    let has_crc = fields.crc is Some;
    let bytes = s.subrange(p, p + fields.header_len());
    assert(s[p] == bytes[0] && s[p + 1] == bytes[1]);
    assert(word_at(s, p) == 0xfff0 + 8 * fields.version + if has_crc {
        0int
    } else {
        1int
    });
    let body = s.subrange(p + 2, p + fields.header_len());
    assert(body =~= fields.written(len).skip(2));
    lemma_written_body(body, fields, len);
    assert(AAC_SAMPLE_RATES@ =~= standard_rates());
}

/// A frame with one packet, which can be read.
pub struct Frame {
    pub fields: Fields,
    pub payload: Seq<u8>,
}

impl Frame {
    pub open spec fn len(self) -> int {
        self.fields.header_len() + self.payload.len()
    }

    pub open spec fn valid(self) -> bool {
        &&& self.fields.fit()
        &&& self.fields.rate <= 12
        &&& self.fields.extra == 0
        &&& self.len() < 8192
    }

    pub open spec fn bytes(self) -> Seq<u8> {
        self.fields.written(self.len()) + self.payload
    }
}

/// The stream that is put together from `frames`.
pub open spec fn stream_of(frames: Seq<Frame>) -> Seq<u8>
    decreases frames.len(),
{
    if frames.len() == 0 {
        Seq::empty()
    } else {
        stream_of(frames.drop_last()) + frames.last().bytes()
    }
}

/// Where frame `i` starts in it.
pub open spec fn start_of(frames: Seq<Frame>, i: int) -> int {
    stream_of(frames.take(i)).len() as int
}

/// Where all frames start in it, and where it ends.
pub open spec fn starts_of(frames: Seq<Frame>) -> Seq<int> {
    Seq::new(frames.len() + 1, |i: int| start_of(frames, i))
}

pub open spec fn all_valid(frames: Seq<Frame>) -> bool {
    forall|i: int| 0 <= i < frames.len() ==> #[trigger] frames[i].valid()
}

proof fn lemma_bytes_len(frame: Frame)
    ensures
        frame.bytes().len() == frame.len(),
        frame.bytes().subrange(0, frame.fields.header_len()) =~= frame.fields.written(frame.len()),
        frame.bytes().subrange(frame.fields.header_len(), frame.len()) =~= frame.payload,
{
}

/// Frame `i` stands in the stream as it was written.
proof fn lemma_frame_in_stream(frames: Seq<Frame>, i: int)
    requires
        0 <= i < frames.len(),
    ensures
        0 <= start_of(frames, i),
        start_of(frames, i + 1) == start_of(frames, i) + frames[i].len(),
        start_of(frames, i + 1) <= stream_of(frames).len(),
        stream_of(frames).subrange(start_of(frames, i), start_of(frames, i + 1))
            == frames[i].bytes(),
    decreases frames.len(),
{
    let last = frames.len() - 1;
    let before = frames.drop_last();
    lemma_bytes_len(frames[i]);
    assert(frames.take(i + 1).drop_last() =~= frames.take(i));
    assert(frames.take(i + 1).last() == frames[i]);
    if i == last {
        assert(frames.take(i) =~= before);
        assert(frames.take(i + 1) =~= frames);
        assert(stream_of(frames).subrange(start_of(frames, i), start_of(frames, i + 1))
            =~= frames[i].bytes());
    } else {
        lemma_frame_in_stream(before, i);
        assert(before.take(i) =~= frames.take(i));
        assert(before.take(i + 1) =~= frames.take(i + 1));
        assert(stream_of(frames).subrange(start_of(frames, i), start_of(frames, i + 1))
            =~= stream_of(before).subrange(start_of(frames, i), start_of(frames, i + 1)));
    }
}

/// The header of frame `i` is read back where the frame starts, also if only a part of the stream
/// that holds it is seen.
proof fn lemma_header_of_frame(frames: Seq<Frame>, i: int, end: int)
    requires
        0 <= i < frames.len(),
        frames[i].valid(),
        start_of(frames, i) + frames[i].fields.header_len() <= end <= stream_of(frames).len(),
    ensures
        sync_at(stream_of(frames).take(end), start_of(frames, i)),
        ({
            let fields = frames[i].fields;
            &&& header_at(stream_of(frames).take(end), start_of(frames, i)) matches Ok(header)
            &&& header.profile == standard_profile(fields.profile)
            &&& header.sample_rate == standard_rates()[fields.rate]
            &&& header.channels == standard_channels(fields.channels)
            &&& header.frame_len == frames[i].len()
            &&& header.crc == fields.crc
        }),
{
    let s = stream_of(frames);
    let p = start_of(frames, i);
    let header_len = frames[i].fields.header_len();
    lemma_frame_in_stream(frames, i);
    lemma_bytes_len(frames[i]);
    let bytes = s.subrange(p, start_of(frames, i + 1));
    assert(s.take(end).subrange(p, p + header_len) =~= bytes.subrange(0, header_len));
    law_written_header(s.take(end), p, frames[i].fields, frames[i].len());
}

/// The frames of such a stream stand back to back, and their payloads are those that were written.
proof fn lemma_back_to_back(frames: Seq<Frame>)
    requires
        all_valid(frames),
        frames.len() > 0,
    ensures
        back_to_back(stream_of(frames), starts_of(frames)),
        starts_of(frames)[0] == 0,
        forall|i: int|
            0 <= i < frames.len() ==> payload(stream_of(frames), starts_of(frames), i)
                == #[trigger] frames[i].payload,
{
    let s = stream_of(frames);
    let starts = starts_of(frames);
    assert(frames.take(frames.len() as int) =~= frames);
    assert(frames.take(0).len() == 0);
    assert(s.take(s.len() as int) =~= s);
    assert forall|i: int| 0 <= i < starts.len() - 1 implies #[trigger] frame_stands(
        s,
        starts,
        i,
    ) by {
        assert(frames[i].valid());
        lemma_frame_in_stream(frames, i);
        lemma_header_of_frame(frames, i, s.len() as int);
    }
    assert forall|i: int| 0 <= i < frames.len() implies payload(s, starts, i)
        == #[trigger] frames[i].payload by {
        assert(frames[i].valid());
        lemma_frame_in_stream(frames, i);
        lemma_header_of_frame(frames, i, s.len() as int);
        lemma_bytes_len(frames[i]);
        let bytes = s.subrange(starts[i], starts[i + 1]);
        assert(payload(s, starts, i) =~= bytes.subrange(
            frames[i].fields.header_len(),
            frames[i].len(),
        ));
    }
}

/// Opening such a stream leaves it at its start, with the header of the first frame read.
proof fn lemma_written_stream_opens(frames: Seq<Frame>, st: ByteStream)
    requires
        all_valid(frames),
        frames.len() > 0,
        st.wf(),
        st.data == stream_of(frames),
        st.pos == 0,
        st.limit is None,
        can_estimate(st.info()),
        estimate_fits(st),
    ensures
        ({
            let run = run_open(OpenState::Header, st);
            &&& run.0 == st
            &&& run.1 matches Ok(reader)
            &&& reader.track.sample_rate == standard_rates()[frames[0].fields.rate]
            &&& reader.track.channels == standard_channels(frames[0].fields.channels)
            &&& reader.first_frame_pos == 0
            &&& reader.next_packet_ts == 0
            &&& reader.wf()
            &&& in_step(reader, st)
        }),
{
    let s = st.data;
    assert(frames[0].valid());
    assert(frames.take(0).len() == 0);
    lemma_frame_in_stream(frames, 0);
    assert(s.take(s.len() as int) =~= s);
    lemma_header_of_frame(frames, 0, s.len() as int);
    assert(next_sync(s, 0) == Some(0int));
    assert(st.at(0) == st);
    law_open(st);
}

/// A stream that is put together from frames gives back their payloads, whatever their headers say:
/// once it is opened, call `i` gives a packet with exactly the payload that was written into frame
/// `i`, at the timestamp 1024 times `i`, and the call after the last frame gives nothing. Its track
/// has the sample rate and the channels that the header of the first frame was written with.
pub proof fn law_written_stream(
    frames: Seq<Frame>,
    st: ByteStream,
    readers: Seq<AdtsReader>,
    streams: Seq<ByteStream>,
    results: Seq<Result<Option<Packet>, Error>>,
)
    requires
        all_valid(frames),
        frames.len() > 0,
        1024 * frames.len() <= u64::MAX,
        st.wf(),
        st.data == stream_of(frames),
        st.pos == 0,
        st.limit is None,
        can_estimate(st.info()),
        estimate_fits(st),
        readers.len() == frames.len() + 2,
        streams.len() == frames.len() + 2,
        results.len() == frames.len() + 1,
        run_open(OpenState::Header, st) == (streams[0], Ok::<AdtsReader, Error>(readers[0])),
        forall|i: int| 0 <= i <= frames.len() ==> #[trigger] is_call(readers, streams, results, i),
    ensures
        readers[0].track.sample_rate == standard_rates()[frames[0].fields.rate],
        readers[0].track.channels == standard_channels(frames[0].fields.channels),
        forall|i: int|
            0 <= i < frames.len() ==> {
                &&& #[trigger] results[i] matches Ok(Some(packet))
                &&& packet.track_id == 0
                &&& packet.ts == 1024 * i
                &&& packet.dur == 1024
                &&& packet.data@ == frames[i].payload
            },
        results.last() == Ok::<Option<Packet>, Error>(None),
{
    let s = st.data;
    let starts = starts_of(frames);
    lemma_back_to_back(frames);
    law_all_packets(st, starts, readers, streams, results);
    assert forall|i: int| 0 <= i < frames.len() implies {
        &&& #[trigger] results[i] matches Ok(Some(packet))
        &&& packet.track_id == 0
        &&& packet.ts == 1024 * i
        &&& packet.dur == 1024
        &&& packet.data@ == frames[i].payload
    } by {
        assert(is_packet(s, starts, i, results[i]));
        assert(payload(s, starts, i) == frames[i].payload);
    }
    lemma_written_stream_opens(frames, st);
}

/// From frame `i` on, the frames of such a stream are counted one by one.
proof fn lemma_count_frames(s: Seq<u8>, starts: Seq<int>, i: int, n: nat)
    requires
        back_to_back(s, starts),
        0 <= i < starts.len(),
    ensures
        nth_frame(s, starts[i], n) == if i + n < starts.len() - 1 {
            Ok::<int, Error>(starts[i + n])
        } else {
            Err::<int, Error>(out_of_range())
        },
    decreases n,
{
    if i < starts.len() - 1 {
        assert(frame_stands(s, starts, i));
        assert(next_sync(s, starts[i]) == Some(starts[i]));
        if i + 1 < starts.len() - 1 {
            assert(frame_stands(s, starts, i + 1));
        }
        if n > 0 {
            lemma_count_frames(s, starts, i + 1, (n - 1) as nat);
        }
    } else {
        assert(header_from(s, starts[i]) == Err::<AdtsHeader, Error>(end_of_stream()));
    }
}

/// What a seek comes to if the frame that it looks for is known.
proof fn lemma_sought(
    reader: AdtsReader,
    required_ts: u64,
    st: ByteStream,
    run: (AdtsReader, ByteStream, Result<SeekedTo, Error>),
    frame: Result<int, Error>,
)
    requires
        seeks_frame(reader, required_ts, st, run),
        frame == nth_frame(
            st.visible(),
            reader.first_frame_pos as int,
            (required_ts / 1024) as nat,
        ),
    ensures
        match frame {
            Ok(start) => {
                let ts = 1024 * (required_ts as int / 1024);
                &&& run.2 == Ok::<SeekedTo, Error>(
                    SeekedTo { track_id: 0, required_ts, actual_ts: ts as u64 },
                )
                &&& run.0.next_packet_ts == ts
                &&& run.1 == st.at(start)
            },
            Err(error) => run.2 == Err::<SeekedTo, Error>(error),
        },
{
}

/// A seek in a stream that is put together from frames, once it is opened, goes to the start of the
/// frame that the timestamp falls in, each frame being 1024 ticks long, and says where that begins.
/// Past the last frame it is out of range.
pub proof fn law_written_stream_sought(
    frames: Seq<Frame>,
    st: ByteStream,
    opened: ByteStream,
    reader: AdtsReader,
    required_ts: u64,
)
    requires
        all_valid(frames),
        frames.len() > 0,
        st.wf(),
        st.data == stream_of(frames),
        st.pos == 0,
        st.limit is None,
        can_estimate(st.info()),
        estimate_fits(st),
        run_open(OpenState::Header, st) == (opened, Ok::<AdtsReader, Error>(reader)),
    ensures
        ({
            let n = required_ts as int / 1024;
            let (sought, sought_st, res) = seek_in(reader, SeekTo::TimeStamp(required_ts), opened);
            if n < frames.len() {
                &&& res == Ok::<SeekedTo, Error>(
                    SeekedTo { track_id: 0, required_ts, actual_ts: (1024 * n) as u64 },
                )
                &&& sought.next_packet_ts == 1024 * n
                &&& sought_st == st.at(start_of(frames, n))
            } else {
                res == Err::<SeekedTo, Error>(out_of_range())
            }
        }),
{
    let n = (required_ts / 1024) as nat;
    let run = seek_in(reader, SeekTo::TimeStamp(required_ts), st);
    let frame = if n < frames.len() {
        Ok::<int, Error>(start_of(frames, n as int))
    } else {
        Err::<int, Error>(out_of_range())
    };
    lemma_written_stream_opens(frames, st);
    assert(st.visible() =~= st.data);
    assert(frame == nth_frame(st.data, 0, n)) by {
        lemma_back_to_back(frames);
        lemma_count_frames(st.data, starts_of(frames), 0, n);
    }
    assert(seeks_frame(reader, required_ts, st, run)) by {
        law_seek(reader, required_ts, st);
    }
    lemma_sought(reader, required_ts, st, run, frame);
}

/// A stream that is put together from two frames or more is an ADTS stream beyond doubt, if the
/// scope has room for the first frame and the longest header; if not, it is likely to be one.
pub proof fn law_written_stream_scored(frames: Seq<Frame>, st: ByteStream)
    requires
        all_valid(frames),
        frames.len() >= 2,
        st.wf(),
        st.data == stream_of(frames),
        st.pos == 0,
        st.limit is Some,
        9 <= st.limit->0 <= u64::MAX,
    ensures
        run_score(ScoreState::First, st) == Ok::<u8, Error>(
            if frames[0].len() + 9 <= st.limit->0 {
                255u8
            } else {
                127u8
            },
        ),
{
    let s = st.data;
    assert(frames[0].valid() && frames[1].valid());
    assert(frames.take(0).len() == 0);
    lemma_frame_in_stream(frames, 0);
    lemma_frame_in_stream(frames, 1);
    lemma_header_of_frame(frames, 0, st.end());
    law_score(st);
    if frames[0].len() + 9 <= st.limit->0 {
        lemma_header_of_frame(frames, 1, st.end());
        assert(header_here(st.visible(), start_of(frames, 1)) is Ok);
    }
}

} // verus!
