use vstd::prelude::*;
use crate::error::{ErrorKind, ImageSimilarityError, Parameter};
use crate::fingerprint::{is_block_of, Fingerprint};

verus! {

/// How a decoded image is brought to a single grayscale channel.
#[derive(Clone, Copy, Debug, PartialEq, Eq, Structural)]
pub enum GrayConversion {
    /// One channel: already grayscale, taken as it is.
    Keep,
    /// Three channels: luma of red, green and blue.
    FromRgb,
    /// Four channels: luma of the first three, the fourth ignored.
    FromRgba,
}

/// The validated parameters of one fingerprinting call.
#[derive(Clone, Copy, Debug, PartialEq, Eq, Structural)]
pub struct FingerprintPlan {
    /// The side `N` of the square buffer the image is resized to.
    pub length: usize,
    /// The side `K` of the coefficient block the fingerprint is read from.
    pub dct_length: usize,
    pub conversion: GrayConversion,
}

impl FingerprintPlan {
    pub open spec fn wf(self) -> bool {
        0 < self.dct_length <= self.length <= i32::MAX
    }
}

/// The grayscale conversion for a channel count, where there is one.
pub open spec fn conversion_for(channels: i32) -> Option<GrayConversion> {
    if channels == 1 {
        Some(GrayConversion::Keep)
    } else if channels == 3 {
        Some(GrayConversion::FromRgb)
    } else if channels == 4 {
        Some(GrayConversion::FromRgba)
    } else {
        None
    }
}

/// The error that fingerprinting with these parameters meets first, if any.
pub open spec fn plan_error(length: i32, dct_length: i32, channels: i32) -> Option<ErrorKind> {
    if length <= 0 {
        Some(ErrorKind::InvalidParameter { parameter: Parameter::Length, value: length })
    } else if dct_length <= 0 || dct_length > length {
        Some(ErrorKind::InvalidParameter { parameter: Parameter::DctLength, value: dct_length })
    } else if conversion_for(channels).is_none() {
        Some(ErrorKind::UnsupportedChannelCount { channels })
    } else {
        None
    }
}

/// Checks the sizes of a fingerprint and the channel count of the image it is
/// taken from, in that order, and settles the grayscale conversion.
///
/// The block side must be positive and no larger than the buffer side, for
/// the block is read out of the buffer.
pub fn plan_fingerprint(length: i32, dct_length: i32, channels: i32) -> (r: Result<
    FingerprintPlan,
    ImageSimilarityError,
>)
    ensures
        match r {
            Ok(plan) => plan_error(length, dct_length, channels).is_none() && plan.wf()
                && plan.length == length && plan.dct_length == dct_length && Some(plan.conversion)
                == conversion_for(channels),
            Err(e) => plan_error(length, dct_length, channels) == Some(e.kind),
        },
{
    if length <= 0 {
        return Err(ImageSimilarityError::invalid_parameter(Parameter::Length, length));
    }
    if dct_length <= 0 || dct_length > length {
        return Err(ImageSimilarityError::invalid_parameter(Parameter::DctLength, dct_length));
    }
    let conversion = if channels == 1 {
        GrayConversion::Keep
    } else if channels == 3 {
        GrayConversion::FromRgb
    } else if channels == 4 {
        GrayConversion::FromRgba
    } else {
        return Err(ImageSimilarityError::unsupported_channel_count(channels));
    };
    Ok(FingerprintPlan { length: length as usize, dct_length: dct_length as usize, conversion })
}

impl FingerprintPlan {
    /// The fingerprint of an image whose transform, compared against the mean
    /// of its block, gave the row-major map `above_mean`.
    pub fn fingerprint(&self, above_mean: &Vec<bool>) -> (r: Fingerprint)
        requires
            self.wf(),
            above_mean@.len() == self.length * self.length,
        ensures
            is_block_of(r@, above_mean@, self.length as int, self.dct_length as int),
    {
        Fingerprint::from_thresholds(above_mean, self.length, self.dct_length)
    }
}

} // verus!
