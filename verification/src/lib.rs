//! Drives a remote waveform generator and data logger through a pull-based
//! command relay, and stitches bounded-duration instrument exports into one
//! continuous multi-channel record.
//!
//! Quantities are carried as integers: amplitudes and offsets in millivolts,
//! durations in milliseconds, sample periods in microseconds, symmetry in
//! hundredths of a percent. Sample values are opaque 64-bit words (callers
//! typically store the bit pattern of the measured value); the stitcher only
//! ever compares them for exact equality.

pub mod command;
pub mod driver;
pub mod export;
pub mod relay;
pub mod response;
pub mod series;
pub mod settings;
