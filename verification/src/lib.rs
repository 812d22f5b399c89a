//! Verified core of a small sampling synthesizer.
//!
//! Given one recorded waveform cycle, the library analyzes it into a
//! seamlessly loopable [`sampler::Loop`], derives pitch-shifted voices from
//! that loop, and mixes any number of concurrently sounding voices into a
//! single sample stream with automatic gain control.
//!
//! All audio data in the verified core is integer fixed point: a sample is a
//! signed 16-bit amplitude, and fractional read positions are carried in
//! 32.32 fixed point.  Floating-point signal reconstruction, device I/O and
//! MIDI port handling cannot be verified and live with the embedding
//! application; the application hands plain values in and takes plain values
//! back out.

use vstd::prelude::*;

pub mod error;
pub mod midi;
pub mod mixer;
pub mod play;
pub mod retain_mut;
pub mod sample;
pub mod sampler;

verus! {

/// The audio sample rate is fixed at 48000 samples per second.
pub const SAMPLE_RATE: u32 = 48_000;

} // verus!
