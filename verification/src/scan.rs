//! Reading a header from a stream of bytes, with or without looking for its sync word first.
use crate::error::{DecodeErrorKind, Error, IoErrorKind};
use crate::header::{header_size, is_sync, parse_body, AdtsHeader};
use vstd::prelude::*;

verus! {

/// The last two bytes read, as a big-endian word, after one more byte.
pub open spec fn next_window(window: int, byte: int) -> int {
    (window % 256) * 256 + byte
}

/// How far the reading of one header has come.
#[derive(Clone, Copy, Debug, PartialEq, Eq)]
pub enum HeaderReader {
    /// Looking for a sync word; `window` holds the last two bytes read.
    Sync { window: u16 },
    /// The next two bytes must be a sync word.
    Word,
    /// A sync word was read; the body of the header follows.
    Body { has_crc: bool },
}

/// What comes after some bytes were read.
#[derive(Clone, Copy, Debug, PartialEq, Eq)]
pub enum HeaderProgress {
    /// More bytes are needed.
    More(HeaderReader),
    Done(Result<AdtsHeader, Error>),
}

impl HeaderReader {
    /// The number of bytes to read next.
    pub open spec fn spec_wanted(self) -> int {
        match self {
            HeaderReader::Sync { .. } => 1,
            HeaderReader::Word => 2,
            HeaderReader::Body { has_crc } => header_size(has_crc) - 2,
        }
    }

    /// What the bytes that were read lead to.
    pub open spec fn after_bytes(self, bytes: Seq<u8>) -> HeaderProgress {
        match self {
            HeaderReader::Sync { window } => {
                let word = next_window(window as int, bytes[0] as int);
                if is_sync(word) {
                    HeaderProgress::More(HeaderReader::Body { has_crc: word % 2 == 0 })
                } else {
                    HeaderProgress::More(HeaderReader::Sync { window: word as u16 })
                }
            },
            HeaderReader::Word => {
                let word = bytes[0] as int * 256 + bytes[1] as int;
                if is_sync(word) {
                    HeaderProgress::More(HeaderReader::Body { has_crc: word % 2 == 0 })
                } else {
                    HeaderProgress::Done(Err(Error::Decode(DecodeErrorKind::InvalidSyncWord)))
                }
            },
            HeaderReader::Body { has_crc } => HeaderProgress::Done(parse_body(bytes, has_crc)),
        }
    }

    /// The number of bytes to read next.
    pub fn wanted(&self) -> (n: usize)
        ensures
            n == self.spec_wanted(),
    {
        match *self {
            HeaderReader::Sync { .. } => 1,
            HeaderReader::Word => 2,
            HeaderReader::Body { has_crc } => {
                if has_crc {
                    7
                } else {
                    5
                }
            },
        }
    }

    /// Goes on with the bytes that were read, or with the failure to read them.
    pub fn supply(self, read: Result<&[u8], IoErrorKind>) -> (progress: HeaderProgress)
        requires
            read matches Ok(bytes) ==> bytes@.len() == self.spec_wanted(),
        ensures
            read matches Ok(bytes) ==> progress == self.after_bytes(bytes@),
            read matches Err(kind) ==> progress == HeaderProgress::Done(Err(Error::Io(kind))),
            progress matches HeaderProgress::Done(Ok(header)) ==> header.wf(),
    {
        let bytes = match read {
            Ok(bytes) => bytes,
            Err(kind) => return HeaderProgress::Done(Err(Error::Io(kind))),
        };
        match self {
            HeaderReader::Sync { window } => {
                let sync = AdtsHeader::sync(window, bytes[0]);
                if AdtsHeader::is_sync_word(sync) {
                    HeaderProgress::More(HeaderReader::Body { has_crc: has_crc(sync) })
                } else {
                    HeaderProgress::More(HeaderReader::Sync { window: sync })
                }
            },
            HeaderReader::Word => {
                let sync = AdtsHeader::sync(bytes[0] as u16, bytes[1]);
                if !AdtsHeader::is_sync_word(sync) {
                    return HeaderProgress::Done(
                        Err(Error::Decode(DecodeErrorKind::InvalidSyncWord)),
                    );
                }
                HeaderProgress::More(HeaderReader::Body { has_crc: has_crc(sync) })
            },
            HeaderReader::Body { has_crc } => HeaderProgress::Done(
                AdtsHeader::read_body(bytes, has_crc),
            ),
        }
    }
}

/// "Protection absent" is set to 0 if a CRC is present.
fn has_crc(sync: u16) -> (b: bool)
    ensures
        b == (sync % 2 == 0),
{
    assert((sync & 1 == 0) == (sync % 2 == 0)) by (bit_vector);
    sync & 1 == 0
}

impl AdtsHeader {
    /// One step of resynchronising: shifts `byte` into the word of the last two bytes.
    pub fn sync(window: u16, byte: u8) -> (word: u16)
        ensures
            word == next_window(window as int, byte as int),
    {
        assert(((window << 8) | (byte as u16)) == (window % 256) * 256 + byte) by (bit_vector);
        (window << 8) | (byte as u16)
    }

    /// Starts reading a header at the current position of the stream.
    pub fn read_no_resync() -> (reader: HeaderReader)
        ensures
            reader == HeaderReader::Word,
    {
        HeaderReader::Word
    }

    /// Starts reading a header, after resynchronising the stream if required.
    pub fn read() -> (reader: HeaderReader)
        ensures
            reader == (HeaderReader::Sync { window: 0 }),
    {
        HeaderReader::Sync { window: 0 }
    }
}

} // verus!
