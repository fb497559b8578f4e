use adts::time::{Time, TimeBase};

fn ts(numer: u32, denom: u32, seconds: i64, nanos: u32) -> Option<u64> {
    TimeBase { numer, denom }.calc_timestamp(Time { seconds, nanos })
}

#[test]
fn counts_ticks() {
    assert_eq!(ts(1, 44100, 0, 0), Some(0));
    assert_eq!(ts(1, 44100, 1, 0), Some(44100));
    assert_eq!(ts(1, 44100, 2, 500_000_000), Some(110_250));
    assert_eq!(ts(1, 48000, 0, 999_999_999), Some(47999));
    assert_eq!(ts(3, 1000, 1, 0), Some(333));
    assert_eq!(ts(2, 3, 0, 500_000_000), Some(0));
    assert_eq!(ts(1, 3, 0, 500_000_000), Some(1));
}

#[test]
fn has_no_timestamp_for_negative_times() {
    assert_eq!(ts(1, 44100, -1, 0), None);
    // Less than a tick before zero is zero.
    assert_eq!(ts(10, 1, -1, 0), Some(0));
}

#[test]
fn has_no_timestamp_that_does_not_fit() {
    assert_eq!(ts(1, u32::MAX, i64::MAX, 0), None);
    assert_eq!(ts(1, 2, i64::MAX, 0), None);
    assert_eq!(ts(1, 1, i64::MAX, 999_999_999), Some(i64::MAX as u64));
    assert_eq!(ts(2, 2, i64::MAX, 0), Some(i64::MAX as u64));
}

#[test]
fn derives_a_time_base_from_a_rate() {
    assert_eq!(TimeBase::try_from_recip(48000), Some(TimeBase { numer: 1, denom: 48000 }));
    assert_eq!(TimeBase::try_from_recip(0), None);
}
