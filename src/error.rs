use vstd::prelude::*;

verus! {

/// Which fingerprinting parameter was out of range.
#[derive(Clone, Copy, Debug, PartialEq, Eq, Structural)]
pub enum Parameter {
    /// The side `N` of the square buffer an image is resized to.
    Length,
    /// The side `K` of the coefficient block a fingerprint is read from.
    DctLength,
}

/// The ways in which fingerprinting one image can fail.
#[derive(Clone, Debug, PartialEq, Eq)]
pub enum ErrorKind {
    /// `N` or `K` is not positive, or `K` exceeds `N`.
    InvalidParameter { parameter: Parameter, value: i32 },
    /// The decoded image has a channel count other than 1, 3 or 4.
    UnsupportedChannelCount { channels: i32 },
    /// The image decoder gave up, for the reason it states.
    DecodeFailure { reason: String },
}

/// The error of a fingerprinting call.
#[derive(Clone, Debug)]
pub struct ImageSimilarityError {
    pub kind: ErrorKind,
}

impl ImageSimilarityError {
    pub fn invalid_parameter(parameter: Parameter, value: i32) -> (r: ImageSimilarityError)
        ensures
            r.kind == (ErrorKind::InvalidParameter { parameter, value }),
    {
        ImageSimilarityError { kind: ErrorKind::InvalidParameter { parameter, value } }
    }

    pub fn unsupported_channel_count(channels: i32) -> (r: ImageSimilarityError)
        ensures
            r.kind == (ErrorKind::UnsupportedChannelCount { channels }),
    {
        ImageSimilarityError { kind: ErrorKind::UnsupportedChannelCount { channels } }
    }

    pub fn decode_failure(reason: String) -> (r: ImageSimilarityError)
        ensures
            r.kind == (ErrorKind::DecodeFailure { reason }),
    {
        ImageSimilarityError { kind: ErrorKind::DecodeFailure { reason } }
    }
}

} // verus!
