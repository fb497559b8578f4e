//! The code tables that ADTS shares with the rest of MPEG-4 audio.
use vstd::prelude::*;

verus! {

/// The MPEG-4 audio object types that the two profile bits of an ADTS header can name.
#[derive(Clone, Copy, Debug, PartialEq, Eq, Structural)]
pub enum M4AType {
    Main,
    Lc,
    Ssr,
    Ltp,
}

/// The object types by profile index: the audio object type is the profile index plus one.
pub const M4A_TYPES: [M4AType; 4] = [M4AType::Main, M4AType::Lc, M4AType::Ssr, M4AType::Ltp];

/// Sample rates in Hertz by sample rate index. The indices 13, 14 and 15 name none.
pub const AAC_SAMPLE_RATES: [u32; 13] = [
    96000, 88200, 64000, 48000, 44100, 32000, 24000, 22050, 16000, 12000, 11025, 8000, 7350,
];

/// Numbers of channels by channel configuration. Configuration 0 says that the layout is
/// described in the payload.
pub const AAC_CHANNELS: [u8; 8] = [0, 1, 2, 3, 4, 5, 6, 8];

} // verus!
