# adts

A demuxer for ADTS, the framing of native AAC streams, verified with Verus.

`src/` is the library. It does no I/O: opening a stream, reading a packet, seeking, scoring and
estimating the length are state machines. Each state says what it asks of the byte stream (an
`Action`), and goes on with what came of it (an `Event`). A header is read the same way, from the
bytes that its `HeaderReader` asks for.

- `bits`, `header`, `tables`: the header and its bit fields
- `scan`: reading a header, with or without looking for its sync word
- `protocol`: actions, events and steps
- `reader`, `time`: packets and seeking
- `estimate`: the approximate length of a stream
- `open`, `probe`: opening a stream, and telling whether it is one
- `stream`, `laws`: what all of these do to a stream whose bytes are known

`app/` makes the library a format reader of symphonia: it carries out the actions on a
`MediaSourceStream`. `tests/` run the state machines on streams in memory.
