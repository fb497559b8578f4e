use adts::error::{DecodeErrorKind, Error, IoErrorKind, UnsupportedKind};
use adts::header::AdtsHeader;
use adts::probe::MARKERS;
use adts::scan::{HeaderProgress, HeaderReader};
use adts::tables::{M4AType, AAC_CHANNELS, AAC_SAMPLE_RATES};

/// The bytes after the sync word, without a CRC.
fn body(profile: u8, rate: u8, channels: u8, len: u16, blocks: u8) -> Vec<u8> {
    vec![
        profile << 6 | rate << 2 | channels >> 2,
        (channels & 3) << 6 | (len >> 11) as u8,
        (len >> 3) as u8,
        ((len & 7) << 5) as u8 | 0x1f,
        0xfc | blocks,
    ]
}

/// Reads a header from `bytes`: the result, and how many bytes were read.
fn read(mut reader: HeaderReader, bytes: &[u8]) -> (Result<AdtsHeader, Error>, usize) {
    let mut pos = 0;
    loop {
        let end = pos + reader.wanted();
        let read = if end <= bytes.len() {
            Ok(&bytes[pos..end])
        } else {
            Err(IoErrorKind::UnexpectedEof)
        };
        match reader.supply(read) {
            HeaderProgress::More(next) => {
                reader = next;
                pos = end;
            }
            HeaderProgress::Done(res) => return (res, if read.is_ok() { end } else { pos }),
        }
    }
}

#[test]
fn parses_a_header_without_crc() {
    let header = AdtsHeader::read_body(&[0x50, 0x80, 0x2e, 0x7f, 0xfc], false).unwrap();
    assert_eq!(
        header,
        AdtsHeader {
            profile: M4AType::Lc,
            channels: Some(2),
            sample_rate: 44100,
            frame_len: 371,
            crc: None,
        }
    );
    assert_eq!(header.header_len(), 7);
    assert_eq!(header.payload_len(), 364);
    assert!(header.is_wf());
}

#[test]
fn parses_a_header_with_crc() {
    let header =
        AdtsHeader::read_body(&[0x50, 0x80, 0x2e, 0x7f, 0xfc, 0xbe, 0xef], true).unwrap();
    assert_eq!(header.crc, Some(0xbeef));
    assert_eq!(header.frame_len, 371);
    assert_eq!(header.header_len(), 9);
    assert_eq!(header.payload_len(), 362);
}

#[test]
fn parses_all_profiles_rates_and_channel_configurations() {
    let profiles = [M4AType::Main, M4AType::Lc, M4AType::Ssr, M4AType::Ltp];
    for profile in 0..4u8 {
        for rate in 0..13u8 {
            for channels in 0..8u8 {
                let bytes = body(profile, rate, channels, 8191, 0);
                let header = AdtsHeader::read_body(&bytes, false).unwrap();
                assert_eq!(header.profile, profiles[profile as usize]);
                assert_eq!(header.sample_rate, AAC_SAMPLE_RATES[rate as usize]);
                assert_eq!(header.frame_len, 8191);
                if channels == 0 {
                    assert_eq!(header.channels, None);
                } else {
                    assert_eq!(header.channels, Some(AAC_CHANNELS[channels as usize]));
                }
            }
        }
    }
    assert_eq!(AAC_SAMPLE_RATES[0], 96000);
    assert_eq!(AAC_SAMPLE_RATES[12], 7350);
    assert_eq!(AAC_CHANNELS[7], 8);
}

#[test]
fn ignores_the_bits_that_it_does_not_use() {
    let plain = AdtsHeader::read_body(&body(1, 4, 2, 371, 0), false).unwrap();
    let mut bytes = body(1, 4, 2, 371, 0);
    bytes[0] |= 0x02; // Private bit.
    bytes[1] |= 0x3c; // Originality, home, copyright bits.
    bytes[3] &= 0xe0; // Buffer fullness.
    bytes[4] &= 0x03;
    assert_eq!(AdtsHeader::read_body(&bytes, false), Ok(plain));
}

#[test]
fn rejects_a_forbidden_sample_rate() {
    let res = AdtsHeader::read_body(&body(1, 15, 2, 371, 0), false);
    assert_eq!(res, Err(Error::Decode(DecodeErrorKind::ForbiddenSampleRate)));
    assert_eq!(DecodeErrorKind::ForbiddenSampleRate.message(), "adts: forbidden sample rate");
}

#[test]
fn rejects_the_reserved_sample_rates() {
    for rate in 13..15u8 {
        let res = AdtsHeader::read_body(&body(1, rate, 2, 371, 0), false);
        assert_eq!(res, Err(Error::Decode(DecodeErrorKind::ReservedSampleRate)));
    }
    assert_eq!(DecodeErrorKind::ReservedSampleRate.message(), "adts: reserved sample rate");
}

#[test]
fn rejects_a_frame_shorter_than_its_header() {
    let short = Err(Error::Decode(DecodeErrorKind::InvalidFrameLength));
    assert_eq!(AdtsHeader::read_body(&body(1, 4, 2, 6, 0), false), short);
    assert_eq!(AdtsHeader::read_body(&body(1, 4, 2, 7, 0), false).unwrap().payload_len(), 0);
    let mut bytes = body(1, 4, 2, 8, 0);
    bytes.extend([0, 0]);
    assert_eq!(AdtsHeader::read_body(&bytes, true), short);
    let mut bytes = body(1, 4, 2, 9, 0);
    bytes.extend([0, 0]);
    assert_eq!(AdtsHeader::read_body(&bytes, true).unwrap().payload_len(), 0);
    assert_eq!(DecodeErrorKind::InvalidFrameLength.message(), "adts: invalid adts frame length");
}

#[test]
fn rejects_more_than_one_packet_in_a_frame() {
    for blocks in 1..4u8 {
        let res = AdtsHeader::read_body(&body(1, 4, 2, 371, blocks), false);
        assert_eq!(res, Err(Error::Unsupported(UnsupportedKind::MultiplePackets)));
    }
    assert_eq!(
        UnsupportedKind::MultiplePackets.message(),
        "adts: only 1 aac frame per adts packet is supported"
    );
}

#[test]
fn reports_the_first_thing_that_is_wrong() {
    // The sample rate comes before the frame length, which comes before the number of packets.
    let res = AdtsHeader::read_body(&body(1, 15, 2, 0, 3), false);
    assert_eq!(res, Err(Error::Decode(DecodeErrorKind::ForbiddenSampleRate)));
    let res = AdtsHeader::read_body(&body(1, 4, 2, 0, 3), false);
    assert_eq!(res, Err(Error::Decode(DecodeErrorKind::InvalidFrameLength)));
}

#[test]
fn knows_exactly_the_four_sync_words() {
    for word in 0..=u16::MAX {
        let expected = word == 0xfff0 || word == 0xfff1 || word == 0xfff8 || word == 0xfff9;
        assert_eq!(AdtsHeader::is_sync_word(word), expected);
        assert_eq!(MARKERS.contains(&word.to_be_bytes()), expected);
    }
}

#[test]
fn shifts_bytes_into_the_sync_word() {
    assert_eq!(AdtsHeader::sync(0, 0xff), 0x00ff);
    assert_eq!(AdtsHeader::sync(0x00ff, 0xf1), 0xfff1);
    assert_eq!(AdtsHeader::sync(0xabcd, 0xef), 0xcdef);
}

#[test]
fn resynchronises_to_the_first_sync_word() {
    // 0xff 0xff is no sync word, but its second byte may start one.
    let mut bytes = vec![0x00, 0xff, 0xe0, 0xff, 0xff, 0xf1];
    bytes.extend(body(1, 4, 2, 371, 0));
    bytes.extend([1, 2, 3]);
    let (res, read_len) = read(AdtsHeader::read(), &bytes);
    assert_eq!(res.unwrap().frame_len, 371);
    assert_eq!(read_len, 11);
    // The start of the frame is a header length back, and the same header is read there.
    let start = read_len - 7;
    assert_eq!(read(AdtsHeader::read(), &bytes[start..]).0, res);
    assert_eq!(read(AdtsHeader::read_no_resync(), &bytes[start..]).0, res);
}

#[test]
fn reads_a_crc_if_protection_is_not_absent() {
    for sync in [0xf0, 0xf8] {
        let mut bytes = vec![0xff, sync];
        bytes.extend(body(1, 4, 2, 371, 0));
        bytes.extend([0x12, 0x34]);
        let (res, read_len) = read(AdtsHeader::read(), &bytes);
        assert_eq!(res.unwrap().crc, Some(0x1234));
        assert_eq!(read_len, 9);
    }
    for sync in [0xf1, 0xf9] {
        let mut bytes = vec![0xff, sync];
        bytes.extend(body(1, 4, 2, 371, 0));
        let (res, read_len) = read(AdtsHeader::read(), &bytes);
        assert_eq!(res.unwrap().crc, None);
        assert_eq!(read_len, 7);
    }
}

#[test]
fn does_not_resynchronise_unless_asked_to() {
    let mut bytes = vec![0x00, 0xff, 0xf1];
    bytes.extend(body(1, 4, 2, 371, 0));
    let invalid = Err(Error::Decode(DecodeErrorKind::InvalidSyncWord));
    assert_eq!(read(AdtsHeader::read_no_resync(), &bytes).0, invalid);
    assert!(read(AdtsHeader::read_no_resync(), &bytes[1..]).0.is_ok());
    assert!(read(AdtsHeader::read(), &bytes).0.is_ok());
    assert_eq!(DecodeErrorKind::InvalidSyncWord.message(), "adts: invalid frame sync word");
}

#[test]
fn fails_at_the_end_of_the_stream() {
    let eof = Err(Error::Io(IoErrorKind::UnexpectedEof));
    assert_eq!(read(AdtsHeader::read(), &[]).0, eof);
    assert_eq!(read(AdtsHeader::read(), &[0xff, 0xf1, 0x50]).0, eof);
    assert_eq!(read(AdtsHeader::read(), &[1, 2, 3, 4, 5, 6, 7, 8, 9]).0, eof);
    assert_eq!(read(AdtsHeader::read_no_resync(), &[0xff]).0, eof);
    let other = AdtsHeader::read().supply(Err(IoErrorKind::Other));
    assert_eq!(other, HeaderProgress::Done(Err(Error::Io(IoErrorKind::Other))));
}
