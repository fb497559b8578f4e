//! Why reading a stream can fail.
use vstd::prelude::*;

verus! {

/// What went wrong with the byte stream itself.
#[derive(Clone, Copy, Debug, PartialEq, Eq, Structural)]
pub enum IoErrorKind {
    /// The stream ended before all requested bytes were read.
    UnexpectedEof,
    /// Anything else.
    Other,
}

/// What is wrong with a header.
#[derive(Clone, Copy, Debug, PartialEq, Eq, Structural)]
pub enum DecodeErrorKind {
    ForbiddenSampleRate,
    ReservedSampleRate,
    InvalidFrameLength,
    InvalidSyncWord,
}

/// What a well-formed header may ask for and this demuxer does not do.
#[derive(Clone, Copy, Debug, PartialEq, Eq, Structural)]
pub enum UnsupportedKind {
    /// More than one AAC packet in one ADTS frame.
    MultiplePackets,
}

/// Why a seek cannot be carried out.
#[derive(Clone, Copy, Debug, PartialEq, Eq, Structural)]
pub enum SeekErrorKind {
    /// The stream cannot be positioned as needed.
    Unseekable,
    /// The target lies behind, and the stream can only move forward.
    ForwardOnly,
    /// The stream has no such timestamp.
    OutOfRange,
}

#[derive(Clone, Copy, Debug, PartialEq, Eq, Structural)]
pub enum Error {
    Io(IoErrorKind),
    Decode(DecodeErrorKind),
    Unsupported(UnsupportedKind),
    Seek(SeekErrorKind),
}

impl DecodeErrorKind {
    /// The message that goes with the error.
    pub fn message(&self) -> (text: &'static str)
        ensures
            text@ == match *self {
                DecodeErrorKind::ForbiddenSampleRate => "adts: forbidden sample rate"@,
                DecodeErrorKind::ReservedSampleRate => "adts: reserved sample rate"@,
                DecodeErrorKind::InvalidFrameLength => "adts: invalid adts frame length"@,
                DecodeErrorKind::InvalidSyncWord => "adts: invalid frame sync word"@,
            },
    {
        match *self {
            DecodeErrorKind::ForbiddenSampleRate => "adts: forbidden sample rate",
            DecodeErrorKind::ReservedSampleRate => "adts: reserved sample rate",
            DecodeErrorKind::InvalidFrameLength => "adts: invalid adts frame length",
            DecodeErrorKind::InvalidSyncWord => "adts: invalid frame sync word",
        }
    }
}

impl UnsupportedKind {
    /// The message that goes with the error.
    pub fn message(&self) -> (text: &'static str)
        ensures
            text@ == match *self {
                UnsupportedKind::MultiplePackets =>
                    "adts: only 1 aac frame per adts packet is supported"@,
            },
    {
        match *self {
            UnsupportedKind::MultiplePackets =>
                "adts: only 1 aac frame per adts packet is supported",
        }
    }
}

} // verus!
