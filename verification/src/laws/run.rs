//! All packets of a stream, from its opening to its end.
use crate::error::Error;
use crate::estimate::can_estimate;
use crate::laws::estimate::estimate_fits;
use crate::laws::open::{law_open, run_open};
use crate::open::OpenState;
use crate::protocol::{Event, Step};
use crate::reader::{
    packet_transition, AdtsReader, Packet, PacketState, SAMPLES_PER_AAC_PACKET,
};
use crate::stream::{header_at, law_read, next_sync, sync_at, ByteStream};
use vstd::prelude::*;

verus! {

/// Whether frame `i` stands at `starts[i]`, and the next thing at `starts[i + 1]`.
pub open spec fn frame_stands(s: Seq<u8>, starts: Seq<int>, i: int) -> bool {
    &&& sync_at(s, starts[i])
    &&& header_at(s, starts[i]) matches Ok(header)
    &&& starts[i + 1] == starts[i] + header.frame_len
}

/// Whether frames stand back to back at `starts`, without the last, which is the end of `s`.
pub open spec fn back_to_back(s: Seq<u8>, starts: Seq<int>) -> bool {
    &&& starts.len() >= 2
    &&& starts.last() == s.len()
    &&& forall|i: int| 0 <= i < starts.len() - 1 ==> #[trigger] frame_stands(s, starts, i)
}

/// The payload of frame `i`.
pub open spec fn payload(s: Seq<u8>, starts: Seq<int>, i: int) -> Seq<u8> {
    s.subrange(starts[i] + header_at(s, starts[i])->Ok_0.spec_header_len(), starts[i + 1])
}

/// Whether reading a packet takes the demuxer and the stream from `reader` and `st` to
/// `next_reader` and `next_st`, and gives `res`.
pub open spec fn packet_call(
    reader: AdtsReader,
    st: ByteStream,
    next_reader: AdtsReader,
    next_st: ByteStream,
    res: Result<Option<Packet>, Error>,
) -> bool {
    let (after_header, event) = st.serve(PacketState::Header.spec_action());
    let (ts, step) = packet_transition(reader.next_packet_ts as int, PacketState::Header, event);
    match step {
        Step::Done(done) => next_reader == reader.at(ts) && next_st == after_header && res == done,
        Step::Continue(state) => exists|bytes: Event|
            {
                let (end_ts, end_step) = packet_transition(ts, state, bytes);
                &&& #[trigger] after_header.reads(state->len, next_st, bytes)
                &&& next_reader == reader.at(end_ts)
                &&& end_step == Step::<PacketState, Option<Packet>>::Done(res)
            },
    }
}

/// Whether call `i` leads from the demuxer and the stream before it to those after it.
pub open spec fn is_call(
    readers: Seq<AdtsReader>,
    streams: Seq<ByteStream>,
    results: Seq<Result<Option<Packet>, Error>>,
    i: int,
) -> bool {
    packet_call(readers[i], streams[i], readers[i + 1], streams[i + 1], results[i])
}

/// Whether `res` is the packet of frame `i`.
pub open spec fn is_packet(
    s: Seq<u8>,
    starts: Seq<int>,
    i: int,
    res: Result<Option<Packet>, Error>,
) -> bool {
    &&& res matches Ok(Some(packet))
    &&& packet.track_id == 0
    &&& packet.ts == SAMPLES_PER_AAC_PACKET * i
    &&& packet.dur == SAMPLES_PER_AAC_PACKET
    &&& packet.data@ == payload(s, starts, i)
}

/// A call at the start of frame `i` gives the packet of that frame, and leads to the next.
proof fn lemma_call(
    reader: AdtsReader,
    st: ByteStream,
    starts: Seq<int>,
    i: int,
    next_reader: AdtsReader,
    next_st: ByteStream,
    res: Result<Option<Packet>, Error>,
)
    requires
        st.wf(),
        st.limit is None,
        0 <= i < starts.len() - 1,
        frame_stands(st.data, starts, i),
        starts[i + 1] <= st.data.len(),
        st.pos == starts[i],
        reader.next_packet_ts == SAMPLES_PER_AAC_PACKET * i,
        SAMPLES_PER_AAC_PACKET * (i + 1) <= u64::MAX,
        packet_call(reader, st, next_reader, next_st, res),
    ensures
        is_packet(st.data, starts, i, res),
        next_reader == reader.at(SAMPLES_PER_AAC_PACKET * (i + 1)),
        next_st == st.at(starts[i + 1]),
{
    let s = st.data;
    assert(st.visible() =~= s);
    law_read(s, st.limit, st.pos);
    assert(next_sync(s, st.pos) == Some(st.pos));
}

/// Frames that stand back to back start within the stream.
proof fn lemma_starts(s: Seq<u8>, starts: Seq<int>, i: int)
    requires
        back_to_back(s, starts),
        0 <= i < starts.len(),
    ensures
        starts[i] <= s.len(),
{
    if i < starts.len() - 1 {
        assert(frame_stands(s, starts, i));
    }
}

/// Before call `i`, the stream stands at frame `i`, and the demuxer expects its timestamp.
proof fn lemma_run(
    first: AdtsReader,
    st: ByteStream,
    starts: Seq<int>,
    readers: Seq<AdtsReader>,
    streams: Seq<ByteStream>,
    results: Seq<Result<Option<Packet>, Error>>,
    i: int,
)
    requires
        st.wf(),
        st.limit is None,
        back_to_back(st.data, starts),
        st.pos == starts[0],
        first.next_packet_ts == 0,
        SAMPLES_PER_AAC_PACKET * (starts.len() - 1) <= u64::MAX,
        readers[0] == first,
        streams[0] == st,
        forall|j: int| 0 <= j < starts.len() ==> #[trigger] is_call(readers, streams, results, j),
        0 <= i < starts.len(),
    ensures
        readers[i] == first.at(SAMPLES_PER_AAC_PACKET * i),
        streams[i] == st.at(starts[i]),
        i > 0 ==> is_packet(st.data, starts, i - 1, results[i - 1]),
    decreases i,
{
    if i > 0 {
        lemma_run(first, st, starts, readers, streams, results, i - 1);
        lemma_starts(st.data, starts, i);
        assert(frame_stands(st.data, starts, i - 1));
        assert(is_call(readers, streams, results, i - 1));
        lemma_call(
            readers[i - 1],
            streams[i - 1],
            starts,
            i - 1,
            readers[i],
            streams[i],
            results[i - 1],
        );
    }
}

/// A stream of frames that stand back to back gives, once it is opened, the packets of all of them,
/// in order: none is lost to the opening, none is repeated, and each has the timestamp of its place.
/// After the last of them the stream has ended.
pub proof fn law_all_packets(
    st: ByteStream,
    starts: Seq<int>,
    readers: Seq<AdtsReader>,
    streams: Seq<ByteStream>,
    results: Seq<Result<Option<Packet>, Error>>,
)
    requires
        st.wf(),
        st.limit is None,
        back_to_back(st.data, starts),
        st.pos == starts[0],
        can_estimate(st.info()),
        estimate_fits(st),
        SAMPLES_PER_AAC_PACKET * (starts.len() - 1) <= u64::MAX,
        readers.len() == starts.len() + 1,
        streams.len() == starts.len() + 1,
        results.len() == starts.len(),
        run_open(OpenState::Header, st) == (streams[0], Ok::<AdtsReader, Error>(readers[0])),
        forall|i: int| 0 <= i < starts.len() ==> #[trigger] is_call(readers, streams, results, i),
    ensures
        forall|i: int|
            0 <= i < starts.len() - 1 ==> is_packet(st.data, starts, i, #[trigger] results[i]),
        results.last() == Ok::<Option<Packet>, Error>(None),
{
    let s = st.data;
    let k = starts.len() - 1;
    assert(frame_stands(s, starts, 0));
    assert(next_sync(s, st.pos) == Some(st.pos));
    assert(st.at(st.pos) == st);
    law_open(st);
    law_read(s, st.limit, st.pos);
    assert forall|i: int| 0 <= i < k implies is_packet(s, starts, i, #[trigger] results[i]) by {
        lemma_run(readers[0], st, starts, readers, streams, results, i + 1);
    }
    lemma_run(readers[0], st, starts, readers, streams, results, k);
    assert(is_call(readers, streams, results, k));
    assert(streams[k].visible() =~= s);
    law_read(s, None, s.len() as int);
}

} // verus!
