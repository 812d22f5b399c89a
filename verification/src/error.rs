//! Error reporting for the synthesizer core.

use vstd::prelude::*;

verus! {

/// Everything that the core and its collaborators report instead of
/// panicking.
#[derive(Clone, Copy, Debug, PartialEq, Eq, Structural)]
pub enum Error {
    /// A sample file does not match the required mono/16-bit/48 kHz format.
    InvalidInputFormat,
    /// A sample buffer is too short to analyze for a loop.
    AnalysisFailure,
    /// A voice was added under a key that is already held.
    DuplicateVoiceKey,
    /// No audio output device is available.
    DeviceUnavailable,
    /// No output configuration matches the required stream format.
    DeviceFormatUnsupported,
    /// The named MIDI input port does not exist.
    PortNotFound,
}

impl Error {
    /// A short human-readable description of the error.
    pub fn describe(&self) -> &'static str {
        match self {
            Error::InvalidInputFormat => "sample file has the wrong format",
            Error::AnalysisFailure => "sample buffer is too short to analyze",
            Error::DuplicateVoiceKey => "voice key is already held",
            Error::DeviceUnavailable => "no audio output device is available",
            Error::DeviceFormatUnsupported => "no matching output configuration",
            Error::PortNotFound => "MIDI input port not found",
        }
    }
}

} // verus!
