//! The ADTS frame header.
use crate::bits::{
    bit_reader, bits_of, bits_value, ignore_bits, lemma_bits_value_concat,
    lemma_bits_value_in_byte, read_bits, unread_bits,
};
use crate::error::{DecodeErrorKind, Error, UnsupportedKind};
use crate::tables::{M4AType, AAC_CHANNELS, AAC_SAMPLE_RATES, M4A_TYPES};
use vstd::arithmetic::power2::{lemma2_to64, pow2};
use vstd::prelude::*;

verus! {

/// The header that starts an ADTS frame.
#[derive(Clone, Copy, Debug, PartialEq, Eq)]
pub struct AdtsHeader {
    /// Audio profile.
    pub profile: M4AType,
    /// The number of channels, unless the payload describes them.
    pub channels: Option<u8>,
    /// The sample rate in Hertz.
    pub sample_rate: u32,
    /// The length of the ADTS frame in bytes: sync word, header and payload.
    pub frame_len: u16,
    /// The CRC, if the frame has one.
    pub crc: Option<u16>,
}

/// The profile index in the bytes that follow the sync word.
pub open spec fn profile_index(body: Seq<u8>) -> int {
    body[0] as int / 64
}

/// The sample rate index.
pub open spec fn sample_rate_index(body: Seq<u8>) -> int {
    (body[0] as int / 4) % 16
}

/// The channel configuration.
pub open spec fn channel_configuration(body: Seq<u8>) -> int {
    (body[0] as int % 2) * 4 + body[1] as int / 64
}

/// The declared length of the frame.
pub open spec fn declared_frame_len(body: Seq<u8>) -> int {
    (body[1] as int % 4) * 2048 + body[2] as int * 8 + body[3] as int / 32
}

/// The number of raw data blocks (AAC packets) that follow the first.
pub open spec fn extra_data_blocks(body: Seq<u8>) -> int {
    body[4] as int % 4
}

/// The CRC of a header that has one.
pub open spec fn declared_crc(body: Seq<u8>) -> int {
    body[5] as int * 256 + body[6] as int
}

/// The size of a header, sync word included.
pub open spec fn header_size(has_crc: bool) -> int {
    if has_crc {
        9
    } else {
        7
    }
}

/// What the bytes after a sync word say: a header, or the first thing that is wrong with it.
pub open spec fn parse_body(body: Seq<u8>, has_crc: bool) -> Result<AdtsHeader, Error> {
    if sample_rate_index(body) == 15 {
        Err(Error::Decode(DecodeErrorKind::ForbiddenSampleRate))
    } else if sample_rate_index(body) > 12 {
        Err(Error::Decode(DecodeErrorKind::ReservedSampleRate))
    } else if declared_frame_len(body) < header_size(has_crc) {
        Err(Error::Decode(DecodeErrorKind::InvalidFrameLength))
    } else if extra_data_blocks(body) > 0 {
        Err(Error::Unsupported(UnsupportedKind::MultiplePackets))
    } else {
        Ok(
            AdtsHeader {
                profile: M4A_TYPES@[profile_index(body)],
                channels: if channel_configuration(body) == 0 {
                    None
                } else {
                    Some(AAC_CHANNELS@[channel_configuration(body)])
                },
                sample_rate: AAC_SAMPLE_RATES@[sample_rate_index(body)],
                frame_len: declared_frame_len(body) as u16,
                crc: if has_crc {
                    Some(declared_crc(body) as u16)
                } else {
                    None
                },
            },
        )
    }
}

/// Whether `word` starts a frame: its upper 12 bits are set, and its two layer bits are clear.
pub open spec fn is_sync(word: int) -> bool {
    word / 16 == 0xfff && (word / 2) % 4 == 0
}

impl AdtsHeader {
    /// The size of an ADTS header CRC.
    pub const CRC_SIZE: u16 = 2;

    /// The size of an ADTS header including the sync word, without a CRC.
    pub const SIZE_NO_CRC: u16 = 7;

    /// The size of an ADTS header including the sync word and CRC.
    pub const SIZE_WITH_CRC: u16 = 9;

    /// A header declares at least its own size, and no more than 13 bits can hold.
    pub open spec fn wf(self) -> bool {
        self.spec_header_len() <= self.frame_len < 8192
    }

    pub open spec fn spec_header_len(self) -> int {
        header_size(self.crc is Some)
    }

    pub open spec fn spec_payload_len(self) -> int {
        self.frame_len - self.spec_header_len()
    }

    /// Returns true if the provided word is a valid sync word.
    pub fn is_sync_word(sync: u16) -> (b: bool)
        ensures
            b == is_sync(sync as int),
    {
        assert(((sync & 0xfff6) == 0xfff0) == (sync / 16 == 0xfff && (sync / 2) % 4 == 0))
            by (bit_vector);
        (sync & 0xfff6) == 0xfff0
    }

    /// Get the length of the header including the sync word.
    pub fn header_len(&self) -> (len: u16)
        ensures
            len == self.spec_header_len(),
    {
        if self.crc.is_some() {
            Self::SIZE_NO_CRC + Self::CRC_SIZE
        } else {
            Self::SIZE_NO_CRC
        }
    }

    /// Get the length of the payload.
    pub fn payload_len(&self) -> (len: u16)
        requires
            self.spec_header_len() <= self.frame_len,
        ensures
            len == self.spec_payload_len(),
    {
        self.frame_len - self.header_len()
    }

    /// Whether the header declares at least its own size, and no more than 13 bits can hold.
    pub fn is_wf(&self) -> (b: bool)
        ensures
            b == self.wf(),
    {
        self.header_len() <= self.frame_len && self.frame_len < 8192
    }

    /// Parse the body of a header: the bytes that follow the sync word.
    pub fn read_body(body: &[u8], has_crc: bool) -> (res: Result<Self, Error>)
        requires
            body@.len() == header_size(has_crc) - 2,
        ensures
            res == parse_body(body@, has_crc),
            res is Ok ==> res->Ok_0.wf(),
    {
        // The length of the header.
        let len: u16 = if has_crc { Self::SIZE_WITH_CRC } else { Self::SIZE_NO_CRC };

        let mut bs = bit_reader(body);
        let ghost bits = bits_of(body@);
        proof {
            lemma_fields(body@);
        }

        // Profile.
        let profile_idx = read_bits(&mut bs, 2) as usize;
        assert(unread_bits(bs) =~= bits.skip(2));
        let profile = M4A_TYPES[profile_idx];

        // Sample rate index.
        let rate_idx = read_bits(&mut bs, 4) as usize;
        assert(bits.skip(2).take(4) =~= bits.subrange(2, 6));
        assert(unread_bits(bs) =~= bits.skip(6));
        let sample_rate = match rate_idx {
            15 => return Err(Error::Decode(DecodeErrorKind::ForbiddenSampleRate)),
            13 | 14 => return Err(Error::Decode(DecodeErrorKind::ReservedSampleRate)),
            idx => AAC_SAMPLE_RATES[idx],
        };

        // Private bit.
        ignore_bits(&mut bs, 1);
        assert(unread_bits(bs) =~= bits.skip(7));

        // Channel configuration.
        let channel_idx = read_bits(&mut bs, 3) as usize;
        assert(bits.skip(7).take(3) =~= bits.subrange(7, 10));
        assert(unread_bits(bs) =~= bits.skip(10));
        let channels = match channel_idx {
            0 => None,
            idx => Some(AAC_CHANNELS[idx]),
        };

        // Originality, Home, Copyrighted ID bit, Copyright ID start bits. Only used for encoding.
        ignore_bits(&mut bs, 4);
        assert(unread_bits(bs) =~= bits.skip(14));

        // The frame length = sync word + header + payload.
        assert(bits.skip(14).take(13) =~= bits.subrange(14, 27));
        let frame_len = read_bits(&mut bs, 13) as u16;
        assert(unread_bits(bs) =~= bits.skip(27));

        // The frame length must be large enough for the header.
        if frame_len < len {
            return Err(Error::Decode(DecodeErrorKind::InvalidFrameLength));
        }

        // Buffer fullness.
        ignore_bits(&mut bs, 11);
        assert(unread_bits(bs) =~= bits.skip(38));

        // Number of raw data blocks (AAC packets).
        assert(bits.skip(38).take(2) =~= bits.subrange(38, 40));
        let raw_data_blocks: u32 = read_bits(&mut bs, 2) + 1;
        assert(unread_bits(bs) =~= bits.skip(40));

        if raw_data_blocks > 1 {
            return Err(Error::Unsupported(UnsupportedKind::MultiplePackets));
        }

        // The CRC, if the CRC is provided.
        let crc = if has_crc {
            assert(bits.skip(40).take(16) =~= bits.subrange(40, 56));
            let crc = read_bits(&mut bs, 16) as u16;
            Some(crc)
        } else {
            None
        };

        Ok(AdtsHeader { profile, channels, sample_rate, frame_len, crc })
    }
}

/// The bit fields of a header body, as the bytes give them.
pub(crate) proof fn lemma_fields(body: Seq<u8>)
    requires
        body.len() >= 5,
    ensures
        bits_value(bits_of(body).subrange(0, 2)) == profile_index(body),
        bits_value(bits_of(body).subrange(2, 6)) == sample_rate_index(body),
        bits_value(bits_of(body).subrange(7, 10)) == channel_configuration(body),
        bits_value(bits_of(body).subrange(14, 27)) == declared_frame_len(body),
        bits_value(bits_of(body).subrange(38, 40)) == extra_data_blocks(body),
        body.len() >= 7 ==> bits_value(bits_of(body).subrange(40, 56)) == declared_crc(body),
{
    let bits = bits_of(body);
    lemma2_to64();
    assert(pow2(0) == 1 && pow2(1) == 2 && pow2(2) == 4 && pow2(3) == 8 && pow2(4) == 16);
    assert(pow2(5) == 32 && pow2(6) == 64 && pow2(8) == 256);

    lemma_bits_value_in_byte(body, 0, 0, 2);
    assert(bits_value(bits.subrange(0, 2)) == (body[0] as nat / 64) % 4);

    lemma_bits_value_in_byte(body, 0, 2, 6);
    assert(bits_value(bits.subrange(2, 6)) == (body[0] as nat / 4) % 16);

    lemma_bits_value_in_byte(body, 0, 7, 8);
    lemma_bits_value_in_byte(body, 1, 0, 2);
    lemma_bits_value_concat(bits, 7, 8, 10);
    assert(bits_value(bits.subrange(7, 8)) == (body[0] as nat / 1) % 2);
    assert(bits_value(bits.subrange(8, 10)) == (body[1] as nat / 64) % 4);

    lemma_bits_value_in_byte(body, 1, 6, 8);
    lemma_bits_value_in_byte(body, 2, 0, 8);
    lemma_bits_value_in_byte(body, 3, 0, 3);
    lemma_bits_value_concat(bits, 14, 16, 24);
    lemma_bits_value_concat(bits, 14, 24, 27);
    assert(bits_value(bits.subrange(14, 16)) == (body[1] as nat / 1) % 4);
    assert(bits_value(bits.subrange(16, 24)) == (body[2] as nat / 1) % 256);
    assert(bits_value(bits.subrange(24, 27)) == (body[3] as nat / 32) % 8);
    assert(bits_value(bits.subrange(14, 24)) == bits_value(bits.subrange(14, 16)) * 256
        + bits_value(bits.subrange(16, 24)));
    assert(bits_value(bits.subrange(14, 27)) == bits_value(bits.subrange(14, 24)) * 8
        + bits_value(bits.subrange(24, 27)));
    assert(bits_value(bits.subrange(14, 16)) == body[1] as int % 4);
    assert(bits_value(bits.subrange(16, 24)) == body[2]);
    assert(bits_value(bits.subrange(24, 27)) == body[3] as int / 32);

    lemma_bits_value_in_byte(body, 4, 6, 8);
    assert(bits_value(bits.subrange(38, 40)) == body[4] as nat % 4);

    if body.len() >= 7 {
        lemma_bits_value_in_byte(body, 5, 0, 8);
        lemma_bits_value_in_byte(body, 6, 0, 8);
        lemma_bits_value_concat(bits, 40, 48, 56);
        assert(bits_value(bits.subrange(40, 48)) == body[5] as nat % 256);
        assert(bits_value(bits.subrange(48, 56)) == body[6] as nat % 256);
    }
}

} // verus!
