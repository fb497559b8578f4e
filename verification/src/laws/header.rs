//! What a header says, bit by bit.
use crate::bits::{bits_of, bits_value};
use crate::error::{DecodeErrorKind, Error, UnsupportedKind};
use crate::header::{header_size, is_sync, lemma_fields, parse_body, AdtsHeader};
use crate::scan::{next_window, HeaderProgress, HeaderReader};
use crate::tables::M4AType;
use vstd::prelude::*;

verus! {

/// The number that the bits `from` up to `to` after the sync word spell, most significant first.
pub open spec fn field(body: Seq<u8>, from: int, to: int) -> int {
    bits_value(bits_of(body).subrange(from, to)) as int
}

/// The sample rates in Hertz that the standard numbers from 0 on.
pub open spec fn standard_rates() -> Seq<u32> {
    seq![
        96000u32,
        88200u32,
        64000u32,
        48000u32,
        44100u32,
        32000u32,
        24000u32,
        22050u32,
        16000u32,
        12000u32,
        11025u32,
        8000u32,
        7350u32,
    ]
}

/// The audio object type that the standard numbers one higher than the profile.
pub open spec fn standard_profile(index: int) -> M4AType {
    if index == 0 {
        M4AType::Main
    } else if index == 1 {
        M4AType::Lc
    } else if index == 2 {
        M4AType::Ssr
    } else {
        M4AType::Ltp
    }
}

/// The number of channels of a channel configuration: none is told by 0, and 7 means 8 of them.
pub open spec fn standard_channels(configuration: int) -> Option<u8> {
    if configuration == 0 {
        None
    } else if configuration == 7 {
        Some(8u8)
    } else {
        Some(configuration as u8)
    }
}

/// Every field of a header that is read without error is what its own bits spell, whatever the
/// other fields are: the profile bits 0 and 1 after the sync word, the sample rate bits 2 to 5, the
/// channels bits 7 to 9, the frame length bits 14 to 26, and the CRC the last 16 bits.
pub proof fn law_header_fields(body: Seq<u8>, has_crc: bool)
    requires
        body.len() == if has_crc {
            7int
        } else {
            5int
        },
    ensures
        parse_body(body, has_crc) matches Ok(header) ==> {
            &&& header.profile == standard_profile(field(body, 0, 2))
            &&& header.sample_rate == standard_rates()[field(body, 2, 6)]
            &&& header.channels == standard_channels(field(body, 7, 10))
            &&& header.frame_len == field(body, 14, 27)
            &&& has_crc ==> header.crc == Some(field(body, 40, 56) as u16)
            &&& has_crc ==> field(body, 40, 56) <= u16::MAX
            &&& !has_crc ==> header.crc is None
            &&& field(body, 2, 6) <= 12
        },
{
    lemma_fields(body);
}

/// A header is read without error if and only if its sample rate is one of the thirteen, its frame
/// is as long as itself at least, and one packet is in it. The first of these that fails, in this
/// order, is the error.
pub proof fn law_header_errors(body: Seq<u8>, has_crc: bool)
    requires
        body.len() == if has_crc {
            7int
        } else {
            5int
        },
    ensures
        ({
            let res = parse_body(body, has_crc);
            let rate_known = field(body, 2, 6) <= 12;
            let long_enough = field(body, 14, 27) >= if has_crc {
                9int
            } else {
                7int
            };
            let one_packet = field(body, 38, 40) == 0;
            &&& res is Ok <==> rate_known && long_enough && one_packet
            &&& field(body, 2, 6) <= 15
            &&& res == Err::<AdtsHeader, Error>(Error::Decode(DecodeErrorKind::ForbiddenSampleRate))
                <==> field(body, 2, 6) == 15
            &&& res == Err::<AdtsHeader, Error>(Error::Decode(DecodeErrorKind::ReservedSampleRate))
                <==> (field(body, 2, 6) == 13 || field(body, 2, 6) == 14)
            &&& res == Err::<AdtsHeader, Error>(Error::Decode(DecodeErrorKind::InvalidFrameLength))
                <==> rate_known && !long_enough
            &&& res == Err::<AdtsHeader, Error>(Error::Unsupported(UnsupportedKind::MultiplePackets))
                <==> rate_known && long_enough && !one_packet
        }),
{
    lemma_fields(body);
}

/// Two headers that agree in the bits of their fields are read alike: no other bit counts.
pub proof fn law_other_bits(a: Seq<u8>, b: Seq<u8>, has_crc: bool)
    requires
        a.len() == b.len(),
        a.len() == if has_crc {
            7int
        } else {
            5int
        },
        field(a, 0, 2) == field(b, 0, 2),
        field(a, 2, 6) == field(b, 2, 6),
        field(a, 7, 10) == field(b, 7, 10),
        field(a, 14, 27) == field(b, 14, 27),
        field(a, 38, 40) == field(b, 38, 40),
        has_crc ==> field(a, 40, 56) == field(b, 40, 56),
    ensures
        parse_body(a, has_crc) == parse_body(b, has_crc),
{
    law_header_fields(a, has_crc);
    law_header_fields(b, has_crc);
    law_header_errors(a, has_crc);
    law_header_errors(b, has_crc);
}

/// A frame is its header, of 9 bytes with a CRC and of 7 without, and its payload. A header is
/// well-formed if the frame is no shorter than that, and no longer than 13 bits can say.
pub proof fn law_lengths(header: AdtsHeader)
    ensures
        header_size(true) == 9,
        header_size(false) == 7,
        header.crc is Some ==> header.spec_header_len() == 9,
        header.crc is None ==> header.spec_header_len() == 7,
        header.spec_header_len() + header.spec_payload_len() == header.frame_len,
        header.wf() <==> 0 <= header.spec_payload_len() && header.frame_len <= 8191,
{
}

/// There are four sync words.
pub proof fn law_sync_words(word: int)
    requires
        0 <= word <= u16::MAX,
    ensures
        is_sync(word) <==> word == 0xfff0 || word == 0xfff1 || word == 0xfff8 || word == 0xfff9,
{
}

/// While a sync word is looked for, bytes are read one by one. The search is over at 0xff and then
/// one of 0xf0, 0xf1, 0xf8 and 0xf9, of which the even ones say that there is a CRC; until then, the
/// last two bytes are kept.
pub proof fn law_resync(window: u16, byte: u8)
    ensures
        next_window(window as int, byte as int) % 256 == byte,
        next_window(window as int, byte as int) / 256 == window % 256,
        (HeaderReader::Sync { window }).spec_wanted() == 1,
        ({
            let progress = (HeaderReader::Sync { window }).after_bytes(seq![byte]);
            if window % 256 == 0xff && (byte == 0xf0 || byte == 0xf8) {
                progress == HeaderProgress::More(HeaderReader::Body { has_crc: true })
            } else if window % 256 == 0xff && (byte == 0xf1 || byte == 0xf9) {
                progress == HeaderProgress::More(HeaderReader::Body { has_crc: false })
            } else {
                &&& progress matches HeaderProgress::More(HeaderReader::Sync { window: kept })
                &&& kept % 256 == byte
                &&& kept / 256 == window % 256
            }
        }),
{
    let word = next_window(window as int, byte as int);
    assert(word == (window % 256) * 256 + byte);
}

/// Where a sync word has to stand, its two bytes are read at once, and anything else is an error.
pub proof fn law_sync_expected(first: u8, second: u8)
    ensures
        HeaderReader::Word.spec_wanted() == 2,
        ({
            let progress = HeaderReader::Word.after_bytes(seq![first, second]);
            if first == 0xff && (second == 0xf0 || second == 0xf8) {
                progress == HeaderProgress::More(HeaderReader::Body { has_crc: true })
            } else if first == 0xff && (second == 0xf1 || second == 0xf9) {
                progress == HeaderProgress::More(HeaderReader::Body { has_crc: false })
            } else {
                progress == HeaderProgress::Done(
                    Err(Error::Decode(DecodeErrorKind::InvalidSyncWord)),
                )
            }
        }),
{
}

/// After the sync word come 7 bytes with a CRC and 5 without, and they decide the result.
pub proof fn law_header_body(body: Seq<u8>, has_crc: bool)
    ensures
        (HeaderReader::Body { has_crc: true }).spec_wanted() == 7,
        (HeaderReader::Body { has_crc: false }).spec_wanted() == 5,
        (HeaderReader::Body { has_crc }).after_bytes(body) == HeaderProgress::Done(
            parse_body(body, has_crc),
        ),
{
}

} // verus!
