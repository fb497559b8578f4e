//! What the demuxer asks of the byte stream, and what the stream answers.
use crate::error::Error;
use crate::header::AdtsHeader;
use vstd::prelude::*;

verus! {

/// An operation on the byte stream.
#[derive(Clone, Copy, Debug, PartialEq, Eq)]
pub enum Action {
    /// Look for the next sync word, and read the header that it starts.
    ReadHeader,
    /// Read a header at the current position.
    ReadHeaderNoResync,
    /// Skip this many bytes.
    IgnoreBytes(u64),
    /// Read exactly this many bytes.
    ReadBytes(u16),
    /// Move this many bytes back, within what the stream has buffered.
    SeekBufferedRev(u16),
    /// Make sure that this many bytes can be gone back over later, and let the stream end after
    /// them.
    OpenScope(u64),
    /// Let the stream have its own end again, and move back to this position, within what the
    /// stream has buffered.
    CloseScope(u64),
    /// Move to this position, and tell the position reached.
    Seek(u64),
    /// Tell the position, the length, and whether the stream can seek.
    Inspect,
    /// Tell how many bytes are left before the end.
    Measure,
}

/// What a stream tells of itself.
#[derive(Clone, Copy, Debug, PartialEq, Eq)]
pub struct StreamInfo {
    pub pos: u64,
    /// The length of the whole stream in bytes, if it is known.
    pub byte_len: Option<u64>,
    pub seekable: bool,
}

/// The outcome of an operation on the byte stream.
#[derive(Debug, PartialEq, Eq)]
pub enum Event {
    /// A header was read, or not.
    Header(Result<AdtsHeader, Error>),
    /// Bytes were skipped, or not.
    Ignored(Result<(), Error>),
    /// Bytes were read, or not.
    Bytes(Result<Vec<u8>, Error>),
    /// The stream was moved within its buffer, or its scope was opened or closed.
    Moved,
    /// The stream reached this position, or failed to.
    Seeked(Result<u64, Error>),
    Info(StreamInfo),
    Available(u64),
}

/// What comes after an operation on the byte stream: another one, which `S` asks for, or the end.
#[derive(Debug)]
pub enum Step<S, T> {
    Continue(S),
    Done(Result<T, Error>),
}

impl Event {
    /// Whether the event can be the outcome of the action. The stream itself fails with an I/O error
    /// only; a header can be malformed or unsupported too.
    pub open spec fn spec_answers(self, action: Action) -> bool {
        match action {
            Action::ReadHeader | Action::ReadHeaderNoResync => {
                &&& self is Header
                &&& match self->Header_0 {
                    Ok(header) => header.wf(),
                    Err(error) => error !is Seek,
                }
            },
            Action::IgnoreBytes(_) => {
                &&& self is Ignored
                &&& self->Ignored_0 matches Err(error) ==> error is Io
            },
            Action::ReadBytes(len) => {
                &&& self is Bytes
                &&& match self->Bytes_0 {
                    Ok(bytes) => bytes@.len() == len,
                    Err(error) => error is Io,
                }
            },
            Action::SeekBufferedRev(_) | Action::OpenScope(_) | Action::CloseScope(_) =>
                self is Moved,
            Action::Seek(_) => {
                &&& self is Seeked
                &&& self->Seeked_0 matches Err(error) ==> error is Io
            },
            Action::Inspect => self is Info,
            Action::Measure => self is Available,
        }
    }

    /// Whether the event can be the outcome of the action. The stream itself fails with an I/O error
    /// only; a header can be malformed or unsupported too.
    pub fn answers(&self, action: &Action) -> (b: bool)
        ensures
            b == self.spec_answers(*action),
    {
        match (action, self) {
            (Action::ReadHeader, Event::Header(Ok(header))) => header.is_wf(),
            (Action::ReadHeaderNoResync, Event::Header(Ok(header))) => header.is_wf(),
            (Action::ReadHeader, Event::Header(Err(error))) => !matches!(error, Error::Seek(_)),
            (Action::ReadHeaderNoResync, Event::Header(Err(error))) => {
                !matches!(error, Error::Seek(_))
            },
            (Action::IgnoreBytes(_), Event::Ignored(Ok(_))) => true,
            (Action::IgnoreBytes(_), Event::Ignored(Err(error))) => matches!(error, Error::Io(_)),
            (Action::ReadBytes(len), Event::Bytes(Ok(bytes))) => bytes.len() == *len as usize,
            (Action::ReadBytes(_), Event::Bytes(Err(error))) => matches!(error, Error::Io(_)),
            (Action::SeekBufferedRev(_), Event::Moved) => true,
            (Action::OpenScope(_), Event::Moved) => true,
            (Action::CloseScope(_), Event::Moved) => true,
            (Action::Seek(_), Event::Seeked(Ok(_))) => true,
            (Action::Seek(_), Event::Seeked(Err(error))) => matches!(error, Error::Io(_)),
            (Action::Inspect, Event::Info(_)) => true,
            (Action::Measure, Event::Available(_)) => true,
            _ => false,
        }
    }
}

} // verus!
