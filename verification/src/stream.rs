//! What the demuxer makes of a stream whose bytes are all known.
use crate::error::{DecodeErrorKind, Error, IoErrorKind};
use crate::header::{header_size, is_sync, parse_body, AdtsHeader};
use crate::protocol::{Action, Event, StreamInfo};
use crate::scan::{HeaderProgress, HeaderReader};
use vstd::prelude::*;

verus! {

/// The error of reading past the end.
pub open spec fn end_of_stream() -> Error {
    Error::Io(IoErrorKind::UnexpectedEof)
}

/// The two bytes at `p` as a big-endian word.
pub open spec fn word_at(s: Seq<u8>, p: int) -> int {
    s[p] as int * 256 + s[p + 1] as int
}

/// Whether a sync word stands at `p`.
pub open spec fn sync_at(s: Seq<u8>, p: int) -> bool {
    0 <= p && p + 1 < s.len() && is_sync(word_at(s, p))
}

/// The first place at or after `pos` where a sync word stands.
pub open spec fn next_sync(s: Seq<u8>, pos: int) -> Option<int>
    decreases s.len() - pos,
{
    if pos < 0 || pos + 1 >= s.len() {
        None
    } else if sync_at(s, pos) {
        Some(pos)
    } else {
        next_sync(s, pos + 1)
    }
}

/// The header whose sync word stands at `p`.
pub open spec fn header_at(s: Seq<u8>, p: int) -> Result<AdtsHeader, Error> {
    let has_crc = word_at(s, p) % 2 == 0;
    let end = p + header_size(has_crc);
    if end > s.len() {
        Err(end_of_stream())
    } else {
        parse_body(s.subrange(p + 2, end), has_crc)
    }
}

/// The header that is found from `pos` on.
pub open spec fn header_from(s: Seq<u8>, pos: int) -> Result<AdtsHeader, Error> {
    match next_sync(s, pos) {
        Some(p) => header_at(s, p),
        None => Err(end_of_stream()),
    }
}

/// The header that stands at `pos`, where there must be one.
pub open spec fn header_here(s: Seq<u8>, pos: int) -> Result<AdtsHeader, Error> {
    if pos + 2 > s.len() {
        Err(end_of_stream())
    } else if !sync_at(s, pos) {
        Err(Error::Decode(DecodeErrorKind::InvalidSyncWord))
    } else {
        header_at(s, pos)
    }
}

/// Where the stream stands after the bytes `from` up to `to` could not all be read. A read that goes
/// past the limit of a scope fails before it takes anything; any other goes to the end.
pub open spec fn cut_off(s: Seq<u8>, limit: Option<int>, from: int, to: int) -> int {
    if limit matches Some(l) && to > l {
        from
    } else {
        s.len() as int
    }
}

/// Where the stream stands after the header at `p` was read, well-formed or not.
pub open spec fn behind_header_at(s: Seq<u8>, limit: Option<int>, p: int) -> int {
    let end = p + header_size(word_at(s, p) % 2 == 0);
    if end > s.len() {
        cut_off(s, limit, p + 2, end)
    } else {
        end
    }
}

/// Where the stream stands after a header was looked for from `pos` on: behind the header at the
/// first sync word, well-formed or not, or where the bytes ran out.
pub open spec fn behind_header_from(s: Seq<u8>, limit: Option<int>, pos: int) -> int {
    match next_sync(s, pos) {
        Some(p) => behind_header_at(s, limit, p),
        None => s.len() as int,
    }
}

/// Where the stream stands after a header was read at `pos`: behind the two bytes that are no sync
/// word, or behind the header, or where the bytes ran out.
pub open spec fn behind_header_here(s: Seq<u8>, limit: Option<int>, pos: int) -> int {
    if pos + 2 > s.len() {
        cut_off(s, limit, pos, pos + 2)
    } else if !sync_at(s, pos) {
        pos + 2
    } else {
        behind_header_at(s, limit, pos)
    }
}

/// Reads a header from `s`, from `pos` on: the result, and the position after it. `limit` is that of
/// a scope, if there is one.
#[verifier::opaque]
pub open spec fn run_header(reader: HeaderReader, s: Seq<u8>, limit: Option<int>, pos: int) -> (
    Result<AdtsHeader, Error>,
    int,
)
    decreases s.len() - pos,
{
    let end = pos + reader.spec_wanted();
    if pos < 0 || end > s.len() {
        (Err(end_of_stream()), cut_off(s, limit, pos, end))
    } else {
        match reader.after_bytes(s.subrange(pos, end)) {
            HeaderProgress::More(next) => run_header(next, s, limit, end),
            HeaderProgress::Done(res) => (res, end),
        }
    }
}

/// Resynchronising finds the first sync word, and misses none: if one is found, there is none
/// before it; if none is found, there is none.
pub proof fn law_next_sync(s: Seq<u8>, pos: int)
    requires
        0 <= pos,
    ensures
        match next_sync(s, pos) {
            Some(p) => pos <= p && sync_at(s, p) && forall|q: int| pos <= q < p ==> !sync_at(s, q),
            None => forall|q: int| pos <= q ==> !sync_at(s, q),
        },
    decreases s.len() - pos,
{
    if pos + 1 < s.len() && !sync_at(s, pos) {
        law_next_sync(s, pos + 1);
    }
}

proof fn lemma_run_body(s: Seq<u8>, limit: Option<int>, p: int)
    requires
        sync_at(s, p),
    ensures
        run_header(HeaderReader::Body { has_crc: word_at(s, p) % 2 == 0 }, s, limit, p + 2) == (
            header_at(s, p),
            behind_header_at(s, limit, p),
        ),
        header_at(s, p) matches Ok(header) ==> {
            &&& header.wf()
            &&& behind_header_at(s, limit, p) == p + header.spec_header_len()
            &&& p + header.spec_header_len() <= s.len()
        },
        header_at(s, p) == Err::<AdtsHeader, Error>(end_of_stream()) ==> p + header_size(
            word_at(s, p) % 2 == 0,
        ) > s.len(),
{
    reveal_with_fuel(run_header, 1);
    let has_crc = word_at(s, p) % 2 == 0;
    if p + header_size(has_crc) <= s.len() {
        lemma_parse_body_wf(s.subrange(p + 2, p + header_size(has_crc)), has_crc);
    }
}

proof fn lemma_parse_body_wf(body: Seq<u8>, has_crc: bool)
    requires
        body.len() == header_size(has_crc) - 2,
    ensures
        parse_body(body, has_crc) matches Ok(header) ==> {
            &&& header.wf()
            &&& header.spec_header_len() == header_size(has_crc)
        },
{
}

proof fn lemma_run_sync(window: u16, s: Seq<u8>, limit: Option<int>, pos: int)
    requires
        0 < pos <= s.len(),
        window % 256 == s[pos - 1],
    ensures
        match next_sync(s, pos - 1) {
            Some(p) => run_header(HeaderReader::Sync { window }, s, limit, pos) == run_header(
                HeaderReader::Body { has_crc: word_at(s, p) % 2 == 0 },
                s,
                limit,
                p + 2,
            ),
            None => run_header(HeaderReader::Sync { window }, s, limit, pos) == (
                Err::<AdtsHeader, Error>(end_of_stream()),
                s.len() as int,
            ),
        },
    decreases s.len() - pos,
{
    reveal_with_fuel(run_header, 1);
    if pos < s.len() {
        let word = word_at(s, pos - 1);
        assert(s.subrange(pos, pos + 1)[0] == s[pos]);
        if !is_sync(word) {
            lemma_run_sync(word as u16, s, limit, pos + 1);
        }
    }
}

/// Reading a header with resynchronising gives the header at the first sync word, and leaves the
/// stream behind that header, also where something is wrong with it: the next header is looked for
/// from there. Where there is none, or it is cut off, the stream is left at its end; but where the
/// limit of a scope cuts it off, behind its sync word.
pub proof fn law_read(s: Seq<u8>, limit: Option<int>, pos: int)
    requires
        0 <= pos <= s.len(),
    ensures
        run_header(HeaderReader::Sync { window: 0 }, s, limit, pos) == (
            header_from(s, pos),
            behind_header_from(s, limit, pos),
        ),
        pos <= behind_header_from(s, limit, pos) <= s.len(),
        header_from(s, pos) matches Ok(header) ==> {
            &&& header.wf()
            &&& behind_header_from(s, limit, pos) == next_sync(s, pos)->0 + header.spec_header_len()
            &&& next_sync(s, pos)->0 + header.spec_header_len() <= s.len()
        },
        header_from(s, pos) matches Err(error) ==> if error == end_of_stream() {
            limit is None ==> behind_header_from(s, limit, pos) == s.len()
        } else {
            behind_header_from(s, limit, pos) == next_sync(s, pos)->0 + header_size(
                word_at(s, next_sync(s, pos)->0) % 2 == 0,
            )
        },
{
    reveal_with_fuel(run_header, 1);
    law_next_sync(s, pos);
    if pos < s.len() {
        assert(s.subrange(pos, pos + 1)[0] == s[pos]);
        lemma_run_sync(s[pos] as u16, s, limit, pos + 1);
        if next_sync(s, pos) is Some {
            lemma_run_body(s, limit, next_sync(s, pos)->0);
        }
    }
}

/// Reading a header without resynchronising gives the header at the position of the stream, and
/// leaves the stream behind that header, also where something is wrong with it. Where there is no
/// sync word, two bytes are read. Where the header is cut off, the stream is left at its end; but
/// where the limit of a scope cuts it off, before the bytes that could not be read.
pub proof fn law_read_no_resync(s: Seq<u8>, limit: Option<int>, pos: int)
    requires
        0 <= pos <= s.len(),
    ensures
        run_header(HeaderReader::Word, s, limit, pos) == (
            header_here(s, pos),
            behind_header_here(s, limit, pos),
        ),
        pos <= behind_header_here(s, limit, pos) <= s.len(),
        header_here(s, pos) matches Ok(header) ==> {
            &&& header.wf()
            &&& behind_header_here(s, limit, pos) == pos + header.spec_header_len()
            &&& pos + header.spec_header_len() <= s.len()
        },
        header_here(s, pos) matches Err(error) ==> if error == end_of_stream() {
            limit is None ==> behind_header_here(s, limit, pos) == s.len()
        } else if error == Error::Decode(DecodeErrorKind::InvalidSyncWord) {
            behind_header_here(s, limit, pos) == pos + 2
        } else {
            behind_header_here(s, limit, pos) == pos + header_size(word_at(s, pos) % 2 == 0)
        },
{
    reveal_with_fuel(run_header, 1);
    if pos + 2 <= s.len() {
        assert(s.subrange(pos, pos + 2)[0] == s[pos]);
        assert(s.subrange(pos, pos + 2)[1] == s[pos + 1]);
        if sync_at(s, pos) {
            lemma_run_body(s, limit, pos);
        }
    }
}

/// After a header was read, going back by its length leads to the start of its frame: the same
/// header is read there again, with and without resynchronising. Passing over its payload leads to
/// the end of its frame.
pub proof fn law_rewind(s: Seq<u8>, limit: Option<int>, pos: int)
    requires
        0 <= pos <= s.len(),
        header_from(s, pos) is Ok,
    ensures
        ({
            let header = header_from(s, pos)->Ok_0;
            let after = run_header(HeaderReader::Sync { window: 0 }, s, limit, pos).1;
            let start = after - header.spec_header_len();
            &&& next_sync(s, pos) == Some(start)
            &&& header_from(s, start) == Ok::<AdtsHeader, Error>(header)
            &&& header_here(s, start) == Ok::<AdtsHeader, Error>(header)
            &&& after + header.spec_payload_len() == start + header.frame_len
        }),
{
    law_read(s, limit, pos);
    law_next_sync(s, pos);
}

/// A stream whose bytes are all known.
pub struct ByteStream {
    pub data: Seq<u8>,
    pub pos: int,
    /// Where the scope ends that the stream is limited to at the moment, if there is one. That may be
    /// behind the end of the data.
    pub limit: Option<int>,
    pub seekable: bool,
    /// Whether the stream tells how long it is.
    pub sized: bool,
}

impl ByteStream {
    pub open spec fn wf(self) -> bool {
        0 <= self.pos <= self.end() && self.data.len() <= u64::MAX
    }

    /// Where the stream ends at the moment: the end of its data, or of a scope.
    pub open spec fn end(self) -> int {
        if self.limit matches Some(l) && l < self.data.len() {
            self.limit->0
        } else {
            self.data.len() as int
        }
    }

    pub open spec fn at(self, pos: int) -> Self {
        ByteStream { pos, ..self }
    }

    pub open spec fn within(self, limit: Option<int>) -> Self {
        ByteStream { limit, ..self }
    }

    /// The bytes up to where the stream ends at the moment.
    pub open spec fn visible(self) -> Seq<u8> {
        self.data.take(self.end())
    }

    /// Where the stream stands after the next `n` bytes could not all be read.
    pub open spec fn stop(self, n: int) -> int {
        cut_off(self.visible(), self.limit, self.pos, self.pos + n)
    }

    pub open spec fn info(self) -> StreamInfo {
        StreamInfo {
            pos: self.pos as u64,
            byte_len: if self.sized {
                Some(self.data.len() as u64)
            } else {
                None
            },
            seekable: self.seekable,
        }
    }

    /// What the stream does when it is asked for `action`, and its answer. Reading bytes as such is
    /// left to `reads`.
    pub open spec fn serve(self, action: Action) -> (Self, Event) {
        match action {
            Action::ReadHeader => {
                let (res, pos) = run_header(
                    HeaderReader::Sync { window: 0 },
                    self.visible(),
                    self.limit,
                    self.pos,
                );
                (self.at(pos), Event::Header(res))
            },
            Action::ReadHeaderNoResync => {
                let (res, pos) = run_header(
                    HeaderReader::Word,
                    self.visible(),
                    self.limit,
                    self.pos,
                );
                (self.at(pos), Event::Header(res))
            },
            Action::IgnoreBytes(n) => if self.pos + n <= self.end() {
                (self.at(self.pos + n), Event::Ignored(Ok(())))
            } else {
                (self.at(self.stop(n as int)), Event::Ignored(Err(end_of_stream())))
            },
            Action::ReadBytes(_) => arbitrary(),
            Action::SeekBufferedRev(n) => (self.at(self.pos - n), Event::Moved),
            Action::OpenScope(n) => (self.within(Some(self.pos + n)), Event::Moved),
            Action::CloseScope(pos) => (self.within(None).at(pos as int), Event::Moved),
            Action::Seek(pos) => if self.seekable && pos <= self.end() {
                (self.at(pos as int), Event::Seeked(Ok(pos)))
            } else {
                (self, Event::Seeked(Err(Error::Io(IoErrorKind::Other))))
            },
            Action::Inspect => (self, Event::Info(self.info())),
            // A scope counts what it admits, whether or not the data go as far.
            Action::Measure => (
                self,
                Event::Available(
                    match self.limit {
                        Some(l) => (l - self.pos) as u64,
                        None => (self.end() - self.pos) as u64,
                    },
                ),
            ),
        }
    }

    /// Whether `event` is what the stream answers when it is asked for the next `n` bytes, and
    /// `next` the stream afterwards.
    pub open spec fn reads(self, n: u16, next: Self, event: Event) -> bool {
        if self.pos + n <= self.end() {
            &&& next == self.at(self.pos + n)
            &&& event matches Event::Bytes(Ok(bytes))
            &&& bytes@ == self.data.subrange(self.pos, self.pos + n)
        } else {
            &&& next == self.at(self.stop(n as int))
            &&& event == Event::Bytes(Err::<Vec<u8>, Error>(end_of_stream()))
        }
    }
}

/// What the stream answers is an answer to what it was asked for.
pub proof fn law_serve(st: ByteStream, action: Action)
    requires
        st.wf(),
        action !is ReadBytes,
    ensures
        st.serve(action).1.spec_answers(action),
{
    law_read(st.visible(), st.limit, st.pos);
    law_read_no_resync(st.visible(), st.limit, st.pos);
}

/// What the stream answers when it is asked for bytes is an answer to that.
pub proof fn law_reads(st: ByteStream, n: u16, next: ByteStream, event: Event)
    requires
        st.wf(),
        st.reads(n, next, event),
    ensures
        event.spec_answers(Action::ReadBytes(n)),
        next.wf(),
{
}

} // verus!
