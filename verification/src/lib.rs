//! A verified demuxer for ADTS, the framing of native AAC streams.
pub mod bits;
pub mod error;
pub mod estimate;
pub mod header;
pub mod laws;
pub mod open;
pub mod probe;
pub mod protocol;
pub mod reader;
pub mod scan;
pub mod stream;
pub mod tables;
pub mod time;
