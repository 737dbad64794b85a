//! Perceptual image fingerprints and their similarity rankings.
//!
//! An image is reduced to a bit string taken from the low-frequency block of
//! its discrete cosine transform; two fingerprints are compared by the share
//! of positions on which their bits agree.
pub mod error;
pub mod files;
pub mod fingerprint;
pub mod preprocess;
pub mod ranking;
pub mod score;
