//! What holds of whole operations, run against a stream whose bytes are all known.
pub mod calls;
pub mod estimate;
pub mod frames;
pub mod header;
pub mod open;
pub mod packets;
pub mod probe;
pub mod run;
pub mod samples;
pub mod steps;
pub mod time;
pub mod uniform;
