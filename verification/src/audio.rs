use vstd::prelude::*;

use crate::text::{decimal, decimal_string};

verus! {

/// Lowest sample rate the intake accepts (Hz).
pub const MIN_SAMPLE_RATE: u32 = 8_000;
/// Highest sample rate the intake accepts (Hz).
pub const MAX_SAMPLE_RATE: u32 = 384_000;
/// Most interleaved channels the intake accepts.
pub const MAX_CHANNELS: u16 = 8;

/// PCM stream format, checked once at the intake boundary.
#[derive(Debug, Clone, Copy, PartialEq, Eq, Structural)]
pub struct AudioFormat {
    /// Frames per second, in `MIN_SAMPLE_RATE..=MAX_SAMPLE_RATE`.
    pub sample_rate: u32,
    /// Interleaved channel count, in `1..=MAX_CHANNELS`.
    pub channels: u16,
}

/// Why an [`AudioFormat`] was rejected at the boundary.
#[derive(Debug, Clone, Copy, PartialEq, Eq, Structural)]
pub enum FormatError {
    /// Sample rate fell outside `MIN_SAMPLE_RATE..=MAX_SAMPLE_RATE`.
    SampleRateOutOfRange(u32),
    /// Channel count fell outside `1..=MAX_CHANNELS`.
    ChannelsOutOfRange(u16),
}

/// The sample rate is one the intake accepts.
pub open spec fn rate_in_range(rate: u32) -> bool {
    MIN_SAMPLE_RATE <= rate <= MAX_SAMPLE_RATE
}

/// The channel count is one the intake accepts.
pub open spec fn channels_in_range(channels: u16) -> bool {
    1 <= channels <= MAX_CHANNELS
}

impl FormatError {
    /// The human-readable description of the rejection.
    pub fn message(&self) -> (s: String)
        ensures
            s@ == match self {
                FormatError::SampleRateOutOfRange(sr) => "sample rate "@ + decimal(*sr as nat)
                    + " outside 8000..=384000"@,
                FormatError::ChannelsOutOfRange(ch) => "channel count "@ + decimal(*ch as nat)
                    + " outside 1..=8"@,
            },
    {
        let mut s = String::new();
        match self {
            FormatError::SampleRateOutOfRange(sr) => {
                s.append("sample rate ");
                s.append(decimal_string(*sr as u64).as_str());
                s.append(" outside 8000..=384000");
            },
            FormatError::ChannelsOutOfRange(ch) => {
                s.append("channel count ");
                s.append(decimal_string(*ch as u64).as_str());
                s.append(" outside 1..=8");
            },
        }
        s
    }
}

impl AudioFormat {
    /// A format both of whose fields are in range.
    pub open spec fn is_valid(self) -> bool {
        rate_in_range(self.sample_rate) && channels_in_range(self.channels)
    }

    /// Check the rate and channel bounds; the rate is checked first.
    pub fn validate(self) -> (res: Result<Self, FormatError>)
        ensures
            !rate_in_range(self.sample_rate) ==> res == Err::<Self, FormatError>(
                FormatError::SampleRateOutOfRange(self.sample_rate),
            ),
            rate_in_range(self.sample_rate) && !channels_in_range(self.channels) ==> res
                == Err::<Self, FormatError>(FormatError::ChannelsOutOfRange(self.channels)),
            self.is_valid() ==> res == Ok::<Self, FormatError>(self),
    {
        if !(MIN_SAMPLE_RATE <= self.sample_rate && self.sample_rate <= MAX_SAMPLE_RATE) {
            return Err(FormatError::SampleRateOutOfRange(self.sample_rate));
        }
        if self.channels == 0 || self.channels > MAX_CHANNELS {
            return Err(FormatError::ChannelsOutOfRange(self.channels));
        }
        Ok(self)
    }
}

} // verus!
