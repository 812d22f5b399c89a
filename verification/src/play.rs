//! Choice of an audio output configuration.
//!
//! The embedding application enumerates what the output device supports
//! and hands the plain values here; the core decides which configuration
//! to open and which buffer size to ask for.  Opening the device and
//! running its callback stay with the application.

use crate::error::Error;
use vstd::prelude::*;

verus! {

/// Preferred hardware block size, in frames, where the device lets us
/// choose one.
pub const WANT_BUFSIZE: u32 = 1024;

/// One supported output configuration, as a device reports it: a channel
/// count, whether the sample format is signed 16-bit, the supported sample
/// rate range, and the supported buffer size range when known.
#[derive(Clone, Copy, Debug)]
pub struct ConfigRange {
    pub channels: u16,
    pub signed16: bool,
    pub min_rate: u32,
    pub max_rate: u32,
    pub buffer: Option<(u32, u32)>,
}

/// The buffer size to open the stream with.
#[derive(Clone, Copy, Debug, PartialEq, Eq, Structural)]
pub enum BufferChoice {
    /// Ask for exactly this many frames.
    Fixed(u32),
    /// Let the device pick: it did not report a size range.
    DeviceDefault,
}

/// Whether a reported configuration can carry the synthesizer's output:
/// mono, signed 16-bit, with the fixed sample rate inside its range.
pub open spec fn spec_config_matches(c: ConfigRange) -> bool {
    c.channels == 1 && c.signed16 && c.min_rate <= crate::SAMPLE_RATE <= c.max_rate
}

/// The buffer size chosen from a matching configuration: the preferred
/// size clamped into the reported range, or the device default when no
/// range is known.
pub open spec fn spec_buffer_choice(c: ConfigRange) -> BufferChoice {
    match c.buffer {
        Some((lo, hi)) => {
            let want = if WANT_BUFSIZE <= hi {
                WANT_BUFSIZE
            } else {
                hi
            };
            BufferChoice::Fixed(
                if lo >= want {
                    lo
                } else {
                    want
                },
            )
        },
        None => BufferChoice::DeviceDefault,
    }
}

/// Picks the first reported configuration that can carry the output and
/// the buffer size to open it with; with no match the device cannot play
/// the stream.
pub fn pick_config(configs: &Vec<ConfigRange>) -> (r: Result<BufferChoice, Error>)
    ensures
        match r {
            Ok(ch) => exists|i: int|
                {
                    &&& 0 <= i < configs@.len()
                    &&& #[trigger] spec_config_matches(configs@[i])
                    &&& ch == spec_buffer_choice(configs@[i])
                    &&& forall|j: int| 0 <= j < i ==> !#[trigger] spec_config_matches(configs@[j])
                },
            Err(e) => {
                &&& e == Error::DeviceFormatUnsupported
                &&& forall|i: int|
                    0 <= i < configs@.len() ==> !#[trigger] spec_config_matches(configs@[i])
            },
        },
{
    let n = configs.len();
    let mut i: usize = 0;
    while i < n
        invariant
            i <= n,
            n == configs@.len(),
            forall|j: int| 0 <= j < i ==> !#[trigger] spec_config_matches(configs@[j]),
        decreases n - i,
    {
        let c = configs[i];
        if c.channels == 1 && c.signed16 && c.min_rate <= crate::SAMPLE_RATE
            && crate::SAMPLE_RATE <= c.max_rate {
            let choice = match c.buffer {
                Some((lo, hi)) => {
                    let want = if WANT_BUFSIZE <= hi {
                        WANT_BUFSIZE
                    } else {
                        hi
                    };
                    BufferChoice::Fixed(
                        if lo >= want {
                            lo
                        } else {
                            want
                        },
                    )
                },
                None => BufferChoice::DeviceDefault,
            };
            proof {
                assert(spec_config_matches(configs@[i as int]));
                assert(choice == spec_buffer_choice(configs@[i as int]));
            }
            return Ok(choice);
        }
        i += 1;
    }
    Err(Error::DeviceFormatUnsupported)
}

} // verus!
