use lmv_core::audio::{AudioFormat, FormatError, MAX_CHANNELS, MAX_SAMPLE_RATE, MIN_SAMPLE_RATE};
use lmv_core::ring::{intake, SampleRing};

fn fmt(sample_rate: u32, channels: u16) -> AudioFormat {
    AudioFormat {
        sample_rate,
        channels,
    }
}

#[test]
fn format_validation_rejects_out_of_range() {
    assert!(fmt(48_000, 2).validate().is_ok());
    assert!(matches!(
        fmt(4_000, 2).validate(),
        Err(FormatError::SampleRateOutOfRange(4_000))
    ));
    assert!(matches!(
        fmt(48_000, 0).validate(),
        Err(FormatError::ChannelsOutOfRange(0))
    ));
    assert!(matches!(
        fmt(48_000, 9).validate(),
        Err(FormatError::ChannelsOutOfRange(9))
    ));
}

#[test]
fn format_bounds_are_inclusive() {
    assert_eq!(fmt(MIN_SAMPLE_RATE, 1).validate(), Ok(fmt(8_000, 1)));
    assert_eq!(fmt(MAX_SAMPLE_RATE, MAX_CHANNELS).validate(), Ok(fmt(384_000, 8)));
    assert_eq!(
        fmt(7_999, 1).validate(),
        Err(FormatError::SampleRateOutOfRange(7_999))
    );
    assert_eq!(
        fmt(384_001, 1).validate(),
        Err(FormatError::SampleRateOutOfRange(384_001))
    );
}

#[test]
fn the_rate_is_checked_before_the_channels() {
    assert_eq!(
        fmt(1, 0).validate(),
        Err(FormatError::SampleRateOutOfRange(1))
    );
}

#[test]
fn format_error_messages() {
    assert_eq!(
        FormatError::SampleRateOutOfRange(4_000).message(),
        "sample rate 4000 outside 8000..=384000"
    );
    assert_eq!(
        FormatError::ChannelsOutOfRange(9).message(),
        "channel count 9 outside 1..=8"
    );
    assert_eq!(
        FormatError::ChannelsOutOfRange(0).message(),
        "channel count 0 outside 1..=8"
    );
}

#[test]
fn intake_validates_then_sizes_the_ring() {
    let ring: SampleRing<f32> = intake(fmt(48_000, 2), 1_000).expect("valid format");
    assert_eq!(ring.capacity(), 2048);
    assert_eq!(ring.available(), 0);

    let zero: SampleRing<f32> = intake(fmt(48_000, 3), 0).expect("valid format");
    assert_eq!(zero.capacity(), 4);

    assert!(matches!(
        intake::<f32>(fmt(1_000, 2), 16),
        Err(FormatError::SampleRateOutOfRange(1_000))
    ));
    assert!(matches!(
        intake::<f32>(fmt(48_000, 12), 16),
        Err(FormatError::ChannelsOutOfRange(12))
    ));
}
