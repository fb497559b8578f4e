use adts::error::{DecodeErrorKind, Error, IoErrorKind, SeekErrorKind};
use adts::estimate::{approximate_frame_count, estimable, Estimate, Phase};
use adts::header::AdtsHeader;
use adts::open::{try_new, OpenState};
use adts::probe::{score, EXTENSIONS, LONG_NAME, MARKERS, MIME_TYPES, SHORT_NAME};
use adts::protocol::{Action, Event, Step, StreamInfo};
use adts::reader::{AdtsReader, Packet, PacketState, SeekState, SeekTo, SeekedTo, Track};
use adts::scan::{HeaderProgress, HeaderReader};
use adts::time::{Time, TimeBase};

const EOF: Error = Error::Io(IoErrorKind::UnexpectedEof);

/// A frame without a CRC: AAC-LC, 44.1 kHz, stereo.
fn frame(payload: &[u8]) -> Vec<u8> {
    let len = payload.len() + 7;
    let mut bytes = vec![
        0xff,
        0xf1,
        0x50,
        0x80 | (len >> 11) as u8,
        (len >> 3) as u8,
        ((len & 7) << 5) as u8 | 0x1f,
        0xfc,
    ];
    bytes.extend(payload);
    bytes
}

/// `n` frames of `len` bytes each. The payload of a frame repeats its number.
fn frames(n: usize, len: usize) -> Vec<u8> {
    let mut bytes = Vec::new();
    for i in 0..n {
        bytes.extend(frame(&vec![i as u8 % 100; len - 7]));
    }
    bytes
}

/// A stream in memory.
struct Mem {
    data: Vec<u8>,
    pos: usize,
    /// Where the scope ends, if there is one.
    limit: Option<usize>,
    seekable: bool,
    sized: bool,
    /// Every position asked for.
    seeks: Vec<u64>,
}

impl Mem {
    fn new(data: Vec<u8>, seekable: bool) -> Mem {
        Mem { data, pos: 0, limit: None, seekable, sized: true, seeks: Vec::new() }
    }

    /// Takes the next `n` bytes. Past the limit of a scope nothing is taken, and past the end of the
    /// data all that is left.
    fn take(&mut self, n: usize) -> Result<&[u8], IoErrorKind> {
        let start = self.pos;
        let end = start + n;
        if self.limit.is_some_and(|limit| end > limit) {
            return Err(IoErrorKind::UnexpectedEof);
        }
        self.pos = end.min(self.data.len());
        if end > self.data.len() {
            return Err(IoErrorKind::UnexpectedEof);
        }
        Ok(&self.data[start..end])
    }

    fn read_header(&mut self, mut reader: HeaderReader) -> Event {
        loop {
            match reader.supply(self.take(reader.wanted())) {
                HeaderProgress::More(next) => reader = next,
                HeaderProgress::Done(res) => return Event::Header(res),
            }
        }
    }

    fn perform(&mut self, action: Action) -> Event {
        match action {
            Action::ReadHeader => self.read_header(AdtsHeader::read()),
            Action::ReadHeaderNoResync => self.read_header(AdtsHeader::read_no_resync()),
            Action::IgnoreBytes(n) => {
                Event::Ignored(self.take(n as usize).map(|_| ()).map_err(Error::Io))
            }
            Action::ReadBytes(n) => {
                Event::Bytes(self.take(n as usize).map(|bytes| bytes.to_vec()).map_err(Error::Io))
            }
            Action::SeekBufferedRev(n) => {
                self.pos -= n as usize;
                Event::Moved
            }
            Action::OpenScope(n) => {
                self.limit = Some(self.pos + n as usize);
                Event::Moved
            }
            Action::CloseScope(pos) => {
                self.limit = None;
                self.pos = pos as usize;
                Event::Moved
            }
            Action::Seek(pos) => {
                self.seeks.push(pos);
                if self.seekable {
                    self.pos = pos as usize;
                    Event::Seeked(Ok(pos))
                } else {
                    Event::Seeked(Err(Error::Io(IoErrorKind::Other)))
                }
            }
            Action::Inspect => Event::Info(StreamInfo {
                pos: self.pos as u64,
                byte_len: if self.sized { Some(self.data.len() as u64) } else { None },
                seekable: self.seekable,
            }),
            Action::Measure => {
                let limit = self.limit.unwrap_or(self.data.len());
                Event::Available((limit - self.pos) as u64)
            },
        }
    }

    fn open(&mut self) -> Result<AdtsReader, Error> {
        let mut state = try_new();
        loop {
            let event = self.perform(state.action());
            assert!(state.accepts(&event));
            match state.step(event) {
                Step::Continue(next) => state = next,
                Step::Done(res) => return res,
            }
        }
    }

    fn next_packet(&mut self, reader: &mut AdtsReader) -> Result<Option<Packet>, Error> {
        let mut state = reader.next_packet();
        loop {
            let event = self.perform(state.action());
            assert!(event.answers(&state.action()));
            match reader.next_packet_step(state, event) {
                Step::Continue(next) => state = next,
                Step::Done(res) => return res,
            }
        }
    }

    fn seek(&mut self, reader: &mut AdtsReader, to: SeekTo) -> Result<SeekedTo, Error> {
        let mut step = reader.seek(to, self.seekable);
        loop {
            match step {
                Step::Continue(state) => {
                    let event = self.perform(state.action());
                    step = reader.seek_step(state, event);
                }
                Step::Done(res) => return res,
            }
        }
    }

    fn estimate(&mut self) -> Result<Option<u64>, Error> {
        let info = match self.perform(Action::Inspect) {
            Event::Info(info) => info,
            _ => unreachable!(),
        };
        assert!(estimable(&info));
        let mut step = approximate_frame_count(info);
        loop {
            match step {
                Step::Continue(estimate) => {
                    let event = self.perform(estimate.action());
                    assert!(estimate.accepts(&event));
                    step = estimate.step(event);
                }
                Step::Done(res) => return res,
            }
        }
    }

    /// Scores the stream, in a scope of `len` bytes.
    fn score_within(&mut self, len: usize) -> Result<u8, Error> {
        self.limit = Some(self.pos + len);
        let mut state = score();
        loop {
            let event = self.perform(state.action());
            match state.step(event) {
                Step::Continue(next) => state = next,
                Step::Done(res) => return res,
            }
        }
    }

    /// Scores the stream, in a scope that holds all of it.
    fn score(&mut self) -> Result<u8, Error> {
        self.score_within(self.data.len())
    }
}

#[test]
fn opens_a_stream() {
    let mut mem = Mem::new(frames(50, 371), false);
    let reader = mem.open().unwrap();
    assert_eq!(
        reader,
        AdtsReader {
            track: Track {
                id: 0,
                sample_rate: 44100,
                channels: Some(2),
                num_frames: Some(50 * 1024),
                time_base: Some(TimeBase { numer: 1, denom: 44100 }),
            },
            first_frame_pos: 0,
            next_packet_ts: 0,
        }
    );
    assert_eq!(mem.pos, 0);
}

#[test]
fn opens_a_stream_with_bytes_before_the_first_frame() {
    let mut data = vec![1, 2, 3, 0xff, 4];
    data.extend(frames(50, 100));
    let mut mem = Mem::new(data, true);
    let mut reader = mem.open().unwrap();
    assert_eq!(reader.first_frame_pos, 5);
    assert_eq!(mem.pos, 5);
    let packet = mem.next_packet(&mut reader).unwrap().unwrap();
    assert_eq!(packet.data, vec![0; 93]);
}

#[test]
fn does_not_open_a_stream_without_a_frame() {
    assert_eq!(Mem::new(vec![0; 100], true).open(), Err(EOF));
    let mut data = frames(3, 100);
    data[2] |= 0x3c;
    let forbidden = Err(Error::Decode(DecodeErrorKind::ForbiddenSampleRate));
    assert_eq!(Mem::new(data, true).open(), forbidden);
}

#[test]
fn opens_a_stream_of_unknown_length() {
    let mut mem = Mem::new(frames(5, 100), false);
    mem.sized = false;
    assert_eq!(mem.open().unwrap().track.num_frames, None);
}

#[test]
fn reads_packets_one_after_the_other() {
    let mut data = frames(2, 100);
    data.extend([9, 9, 9]);
    data.extend(frame(&[7, 7]));
    let mut mem = Mem::new(data, false);
    let mut reader = mem.open().unwrap();
    let expected = [(0, vec![0; 93]), (1024, vec![1; 93]), (2048, vec![7, 7])];
    for (ts, data) in expected {
        let packet = mem.next_packet(&mut reader).unwrap().unwrap();
        assert_eq!(packet, Packet { track_id: 0, ts, dur: 1024, data });
        assert_eq!(reader.next_packet_ts, ts + 1024);
    }
    assert_eq!(mem.next_packet(&mut reader), Ok(None));
    assert_eq!(mem.next_packet(&mut reader), Ok(None));
    assert_eq!(reader.next_packet_ts, 3072);
}

#[test]
fn counts_a_packet_whose_payload_is_cut_off() {
    let mut data = frames(2, 100);
    data.truncate(150);
    let mut mem = Mem::new(data, false);
    let mut reader = mem.open().unwrap();
    assert!(mem.next_packet(&mut reader).unwrap().is_some());
    assert_eq!(mem.next_packet(&mut reader), Err(EOF));
    assert_eq!(reader.next_packet_ts, 2048);
}

#[test]
fn fails_on_a_malformed_header() {
    let mut data = frames(2, 100);
    data[102] |= 0x3c;
    let mut mem = Mem::new(data, false);
    let mut reader = mem.open().unwrap();
    assert!(mem.next_packet(&mut reader).unwrap().is_some());
    let forbidden = Err(Error::Decode(DecodeErrorKind::ForbiddenSampleRate));
    assert_eq!(mem.next_packet(&mut reader), forbidden);
    assert_eq!(reader.next_packet_ts, 1024);
    assert_eq!(mem.pos, 107);
}

#[test]
fn resynchronises_behind_a_malformed_header() {
    let mut data = frames(3, 100);
    data[102] |= 0x3c;
    let mut mem = Mem::new(data, false);
    let mut reader = mem.open().unwrap();
    assert!(mem.next_packet(&mut reader).unwrap().is_some());
    assert!(mem.next_packet(&mut reader).is_err());
    let packet = mem.next_packet(&mut reader).unwrap().unwrap();
    assert_eq!((packet.ts, packet.data), (1024, vec![2; 93]));
    assert_eq!(mem.next_packet(&mut reader), Ok(None));
}

#[test]
fn reads_every_packet_once_and_in_order() {
    for seekable in [true, false] {
        let mut data = Vec::new();
        for i in 0..200 {
            data.extend(frame(&vec![i as u8 % 100; i]));
        }
        let mut mem = Mem::new(data, seekable);
        let mut reader = mem.open().unwrap();
        for i in 0..200 {
            let packet = mem.next_packet(&mut reader).unwrap().unwrap();
            let data = vec![i as u8 % 100; i];
            assert_eq!(packet, Packet { track_id: 0, ts: 1024 * i as u64, dur: 1024, data });
        }
        assert_eq!(mem.next_packet(&mut reader), Ok(None));
    }
}

#[test]
fn keeps_timestamps_multiples_of_the_packet_duration() {
    let mut data = frames(20, 100);
    data[702] |= 0x3c;
    data.truncate(1950);
    let mut mem = Mem::new(data, true);
    let opened = mem.open().unwrap();
    let mut reader = opened;
    for ts in [5000, 100, 8000, 30_000, 0, 6 * 1024 + 1, 2000] {
        let _ = mem.seek(&mut reader, SeekTo::TimeStamp(ts));
        assert_eq!(reader.next_packet_ts % 1024, 0);
        let before = reader.next_packet_ts;
        let _ = mem.next_packet(&mut reader);
        assert!(reader.next_packet_ts == before || reader.next_packet_ts == before + 1024);
        assert_eq!(reader.track, opened.track);
        assert_eq!(reader.first_frame_pos, opened.first_frame_pos);
    }
}

#[test]
fn seeks_to_the_frame_that_contains_the_timestamp() {
    let mut mem = Mem::new(frames(20, 100), true);
    let mut reader = mem.open().unwrap();
    // Forward and back, to the first and the last tick of frames.
    for required_ts in [0, 1023, 1024, 10 * 1024 + 5, 3 * 1024, 2, 19 * 1024 + 1023, 19 * 1024] {
        let n = required_ts / 1024;
        let seeked = mem.seek(&mut reader, SeekTo::TimeStamp(required_ts)).unwrap();
        assert_eq!(seeked, SeekedTo { track_id: 0, required_ts, actual_ts: n * 1024 });
        assert_eq!(mem.pos as u64, n * 100);
        assert_eq!(reader.next_packet_ts, n * 1024);
        let packet = mem.next_packet(&mut reader).unwrap().unwrap();
        assert_eq!(packet.ts, n * 1024);
        assert_eq!(packet.data, vec![n as u8; 93]);
    }
}

#[test]
fn does_not_seek_past_the_last_frame() {
    let mut mem = Mem::new(frames(20, 100), true);
    let mut reader = mem.open().unwrap();
    let out_of_range = Err(Error::Seek(SeekErrorKind::OutOfRange));
    assert_eq!(mem.seek(&mut reader, SeekTo::TimeStamp(20 * 1024)), out_of_range);
    // The demuxer is at the end of the stream, and knows it.
    assert_eq!(reader.next_packet_ts, 20 * 1024);
    assert_eq!(mem.next_packet(&mut reader), Ok(None));
    assert_eq!(mem.seek(&mut reader, SeekTo::TimeStamp(u64::MAX)), out_of_range);
    assert_eq!(mem.seek(&mut reader, SeekTo::TimeStamp(5000)).unwrap().actual_ts, 4096);
}

#[test]
fn does_not_seek_over_a_frame_that_is_cut_off() {
    let mut data = frames(3, 100);
    data.truncate(250);
    let mut mem = Mem::new(data, true);
    let mut reader = mem.open().unwrap();
    assert_eq!(mem.seek(&mut reader, SeekTo::TimeStamp(2048)).unwrap().actual_ts, 2048);
    assert_eq!(mem.seek(&mut reader, SeekTo::TimeStamp(3072)), Err(EOF));
    // Two frames were passed over, and the third could not be.
    assert_eq!((reader.next_packet_ts, mem.pos), (2048, 250));
}

#[test]
fn fails_to_seek_over_a_malformed_header() {
    let mut data = frames(3, 100);
    data[102] |= 0x3c;
    let mut mem = Mem::new(data, false);
    let mut reader = mem.open().unwrap();
    let forbidden = Err(Error::Decode(DecodeErrorKind::ForbiddenSampleRate));
    assert_eq!(mem.seek(&mut reader, SeekTo::TimeStamp(2048)), forbidden);
    // One frame was passed over, and the stream is behind the header of the second.
    assert_eq!((reader.next_packet_ts, mem.pos), (1024, 107));
}

#[test]
fn seeks_back_only_where_the_stream_can() {
    let mut mem = Mem::new(frames(20, 100), false);
    let mut reader = mem.open().unwrap();
    assert_eq!(mem.seek(&mut reader, SeekTo::TimeStamp(5000)).unwrap().actual_ts, 4096);
    let before = (mem.pos, reader);
    let forward_only = Err(Error::Seek(SeekErrorKind::ForwardOnly));
    assert_eq!(mem.seek(&mut reader, SeekTo::TimeStamp(4095)), forward_only);
    assert_eq!((mem.pos, reader), before);
    assert_eq!(mem.seek(&mut reader, SeekTo::TimeStamp(4096)).unwrap().actual_ts, 4096);
}

#[test]
fn fails_to_seek_if_the_stream_goes_elsewhere() {
    let mut mem = Mem::new(frames(20, 100), true);
    let mut reader = mem.open().unwrap();
    mem.seek(&mut reader, SeekTo::TimeStamp(5000)).unwrap();
    let state = match reader.seek(SeekTo::TimeStamp(0), true) {
        Step::Continue(state) => state,
        Step::Done(_) => panic!("the seek is over"),
    };
    assert_eq!(state, SeekState::Rewinding { required_ts: 0, pos: 0 });
    let step = reader.seek_step(state, Event::Seeked(Ok(1)));
    assert!(matches!(step, Step::Done(Err(Error::Seek(SeekErrorKind::Unseekable)))));
    assert_eq!(reader.next_packet_ts, 4096);
    let step = reader.seek_step(state, Event::Seeked(Err(Error::Io(IoErrorKind::Other))));
    assert!(matches!(step, Step::Done(Err(Error::Io(IoErrorKind::Other)))));
    assert_eq!(reader.next_packet_ts, 4096);
}

#[test]
fn seeks_to_a_time() {
    let mut mem = Mem::new(frames(60, 100), true);
    let mut reader = mem.open().unwrap();
    let time = Time { seconds: 1, nanos: 100_000_000 };
    let seeked = mem.seek(&mut reader, SeekTo::Time(time)).unwrap();
    assert_eq!(seeked, SeekedTo { track_id: 0, required_ts: 48510, actual_ts: 47 * 1024 });
    assert_eq!(mem.pos, 4700);

    let before = (mem.pos, reader);
    let negative = Time { seconds: -1, nanos: 0 };
    let out_of_range = Err(Error::Seek(SeekErrorKind::OutOfRange));
    assert_eq!(mem.seek(&mut reader, SeekTo::Time(negative)), out_of_range);
    assert_eq!((mem.pos, reader), before);

    reader.track.time_base = None;
    let unseekable = Err(Error::Seek(SeekErrorKind::Unseekable));
    assert_eq!(mem.seek(&mut reader, SeekTo::Time(time)), unseekable);
}

#[test]
fn estimates_the_length_of_a_stream_that_cannot_seek() {
    let mut mem = Mem::new(frames(50, 371), false);
    assert_eq!(mem.estimate(), Ok(Some(50 * 1024)));
    assert_eq!((mem.pos, mem.limit), (0, None));

    // Only whole frames within the limit count: 163 of 100 bytes, and none after them.
    let mut data = frames(164, 100);
    data.extend(frames(100, 1000));
    let mut mem = Mem::new(data, false);
    assert_eq!(mem.estimate(), Ok(Some(1164 * 1024)));

    // The average length is rounded down.
    let mut data = frames(1, 10);
    data.extend(frames(1, 11));
    assert_eq!(Mem::new(data, false).estimate(), Ok(Some(2 * 1024)));
}

#[test]
fn estimates_the_length_of_a_stream_that_can_seek() {
    let mut mem = Mem::new(frames(1000, 371), true);
    assert_eq!(mem.estimate(), Ok(Some(1000 * 1024)));
    assert_eq!(mem.seeks, vec![92750, 185500, 0]);
    assert_eq!(mem.pos, 0);

    // A length that is no multiple of four has one more sample point.
    let mut data = frames(1000, 371);
    data.push(0);
    let mut mem = Mem::new(data, true);
    assert_eq!(mem.estimate(), Ok(Some(1000 * 1024)));
    assert_eq!(mem.seeks, vec![92750, 185500, 278250, 0]);
}

#[test]
fn estimates_exactly_where_all_frames_have_the_same_length() {
    for (k, len) in [(2, 7), (2, 8), (3, 7), (5, 371), (40, 4000), (1000, 100)] {
        for seekable in [true, false] {
            let mut mem = Mem::new(frames(k, len), seekable);
            assert_eq!(mem.estimate(), Ok(Some(k as u64 * 1024)));
            assert_eq!(mem.pos, 0);
        }
    }
    assert_eq!(Mem::new(frames(1, 100), false).estimate(), Ok(Some(1024)));
    // The one frame stands at the start, which is not sampled.
    assert_eq!(Mem::new(frames(1, 100), true).estimate(), Ok(None));
}

#[test]
fn samples_a_limited_number_of_headers() {
    // From the first sample point on, 101 headers are read; the second one is past the frames.
    let mut data = vec![0; 100_000];
    data.extend(frames(60, 100));
    data.extend(frames(90, 1000));
    data.resize(400_000, 0);
    let mut mem = Mem::new(data, true);
    // (60 * 100 + 41 * 1000) / 101 is 465.
    assert_eq!(mem.estimate(), Ok(Some(400_000 / 465 * 1024)));
    assert_eq!(mem.seeks, vec![100_000, 200_000, 0]);
}

#[test]
fn has_no_estimate_without_a_frame() {
    assert_eq!(Mem::new(vec![0; 1000], true).estimate(), Ok(None));
    assert_eq!(Mem::new(vec![0; 1000], false).estimate(), Ok(None));
    let mut mem = Mem::new(frames(50, 371), true);
    mem.sized = false;
    assert_eq!(mem.estimate(), Ok(None));
}

#[test]
fn fails_to_estimate_if_the_stream_cannot_go_back() {
    let estimate = Estimate {
        original_pos: 0,
        total_len: 1000,
        parsed_n_frames: 2,
        n_bytes: 200,
        phase: Phase::Restoring,
    };
    let failed = Event::Seeked(Err(Error::Io(IoErrorKind::Other)));
    assert!(matches!(estimate.step(failed), Step::Done(Err(Error::Io(IoErrorKind::Other)))));
    let done = estimate.step(Event::Seeked(Ok(0)));
    assert!(matches!(done, Step::Done(Ok(Some(10240)))));

    // A sample point that cannot be reached ends the sampling.
    let seeking = Estimate { phase: Phase::Seeking { point: 250 }, ..estimate };
    let failed = Event::Seeked(Err(Error::Io(IoErrorKind::Other)));
    match seeking.step(failed) {
        Step::Continue(next) => assert_eq!(next, estimate),
        Step::Done(_) => panic!("the estimate is over"),
    }
}

#[test]
fn knows_which_streams_it_cannot_estimate() {
    let info = |pos, len, seekable| StreamInfo { pos, byte_len: Some(len), seekable };
    assert!(estimable(&info(0, 4, true)));
    // The sample points coincide.
    assert!(!estimable(&info(0, 3, true)));
    assert!(estimable(&info(0, 3, false)));
    // The first frame stands in the second half of the stream.
    assert!(!estimable(&info(10, 15, true)));
    assert!(estimable(&info(10, 15, false)));
    // The stream ends before its position.
    assert!(!estimable(&info(10, 9, false)));
    assert!(estimable(&StreamInfo { pos: 10, byte_len: None, seekable: true }));
}

#[test]
fn does_not_accept_sums_that_do_not_fit() {
    let estimate = Estimate {
        original_pos: 0,
        total_len: u64::MAX,
        parsed_n_frames: 1,
        n_bytes: 1000,
        phase: Phase::ClosingScope,
    };
    assert!(!estimate.accepts(&Event::Moved));
    assert!(Estimate { total_len: u64::MAX / 2, n_bytes: 8191, ..estimate }.accepts(&Event::Moved));
    assert!(!estimate.accepts(&Event::Seeked(Ok(0))));
    let state = OpenState::Header;
    assert!(!state.accepts(&Event::Moved));
    assert!(state.accepts(&Event::Header(Err(EOF))));
}

#[test]
fn scores_a_stream_by_its_first_two_headers() {
    assert_eq!(Mem::new(frames(2, 100), false).score(), Ok(255));
    // Nine bytes must follow the first frame.
    let mut data = frames(2, 100);
    data.truncate(109);
    assert_eq!(Mem::new(data.clone(), false).score(), Ok(255));
    data.truncate(108);
    assert_eq!(Mem::new(data, false).score(), Ok(127));
    assert_eq!(Mem::new(frames(1, 100), false).score(), Ok(127));
}

#[test]
fn scores_what_the_scope_admits() {
    // The scope ends before the second header.
    assert_eq!(Mem::new(frames(2, 100), false).score_within(108), Ok(127));
    assert_eq!(Mem::new(frames(2, 100), false).score_within(109), Ok(255));
    // The scope admits more than there is.
    assert_eq!(Mem::new(frames(1, 100), false).score_within(8192), Err(EOF));
    let mut data = frames(1, 100);
    data.truncate(50);
    assert_eq!(Mem::new(data, false).score_within(8192), Err(EOF));
    assert_eq!(Mem::new(frames(2, 100), false).score_within(8192), Ok(255));
}

#[test]
fn leaves_a_scope_where_a_read_fails() {
    let mut mem = Mem::new(frames(2, 100), false);
    mem.pos = 100;
    assert_eq!(mem.perform(Action::OpenScope(5)), Event::Moved);
    assert_eq!(mem.perform(Action::ReadHeader), Event::Header(Err(EOF)));
    assert_eq!(mem.pos, 102);
    assert_eq!(mem.perform(Action::IgnoreBytes(4)), Event::Ignored(Err(EOF)));
    assert_eq!(mem.pos, 102);
    assert_eq!(mem.perform(Action::CloseScope(100)), Event::Moved);
    assert!(matches!(mem.perform(Action::ReadHeader), Event::Header(Ok(_))));
}

#[test]
fn knows_what_a_stream_can_answer() {
    let seek = || Error::Seek(SeekErrorKind::ForwardOnly);
    let decode = || Error::Decode(DecodeErrorKind::InvalidSyncWord);
    for action in [Action::ReadHeader, Action::ReadHeaderNoResync] {
        assert!(Event::Header(Err(EOF)).answers(&action));
        assert!(Event::Header(Err(decode())).answers(&action));
        assert!(!Event::Header(Err(seek())).answers(&action));
        assert!(!Event::Moved.answers(&action));
    }
    assert!(Event::Ignored(Ok(())).answers(&Action::IgnoreBytes(1)));
    assert!(Event::Ignored(Err(EOF)).answers(&Action::IgnoreBytes(1)));
    assert!(!Event::Ignored(Err(decode())).answers(&Action::IgnoreBytes(1)));
    assert!(Event::Bytes(Ok(vec![1, 2])).answers(&Action::ReadBytes(2)));
    assert!(!Event::Bytes(Ok(vec![1])).answers(&Action::ReadBytes(2)));
    assert!(Event::Bytes(Err(EOF)).answers(&Action::ReadBytes(2)));
    assert!(!Event::Bytes(Err(seek())).answers(&Action::ReadBytes(2)));
    assert!(Event::Seeked(Ok(3)).answers(&Action::Seek(2)));
    assert!(Event::Seeked(Err(EOF)).answers(&Action::Seek(2)));
    assert!(!Event::Seeked(Err(seek())).answers(&Action::Seek(2)));
}

#[test]
fn does_not_score_anything_else() {
    let invalid = Err(Error::Decode(DecodeErrorKind::InvalidSyncWord));
    assert_eq!(Mem::new(vec![0; 100], false).score(), invalid);
    assert_eq!(Mem::new(vec![], false).score(), Err(EOF));
    let mut data = frames(1, 100);
    data.extend([0; 9]);
    assert_eq!(Mem::new(data, false).score(), invalid);
}

#[test]
fn asks_for_the_payload_after_the_header() {
    let mut reader = Mem::new(frames(3, 100), false).open().unwrap();
    let header = AdtsHeader::read_body(&[0x50, 0x80, 0x2e, 0x7f, 0xfc], false);
    match reader.next_packet_step(PacketState::Header, Event::Header(header)) {
        Step::Continue(state) => {
            assert_eq!(state, PacketState::Payload { ts: 0, len: 364 });
            assert_eq!(state.action(), Action::ReadBytes(364));
        }
        Step::Done(_) => panic!("the packet is over"),
    }
}

#[test]
fn describes_the_format() {
    assert_eq!((SHORT_NAME, LONG_NAME), ("aac", "Audio Data Transport Stream (native AAC)"));
    assert_eq!((EXTENSIONS, MIME_TYPES), (["aac"], ["audio/aac"]));
    assert_eq!(MARKERS, [[0xff, 0xf1], [0xff, 0xf0], [0xff, 0xf9], [0xff, 0xf8]]);
}
