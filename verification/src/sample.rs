//! Validation of incoming sample data.
//!
//! Sample files are read from disk by the embedding application; the core
//! fixes the format they must arrive in and decides, from the file's
//! header values, whether a file is acceptable.

use crate::error::Error;
use vstd::prelude::*;

verus! {

/// Whether a sample file's header matches the fixed capture format: mono,
/// 16 bits per sample, at the fixed sample rate.
pub open spec fn spec_format_ok(channels: u16, bits: u16, rate: u32) -> bool {
    channels == 1 && bits == 16 && rate == crate::SAMPLE_RATE
}

/// Accepts a sample file's header values exactly when they match the
/// required mono/16-bit/48 kHz format, and reports a format error
/// otherwise.
pub fn check_sample_format(channels: u16, bits: u16, rate: u32) -> (r: Result<(), Error>)
    ensures
        r is Ok <==> spec_format_ok(channels, bits, rate),
        r is Err ==> r->Err_0 == Error::InvalidInputFormat,
{
    if channels == 1 && bits == 16 && rate == crate::SAMPLE_RATE {
        Ok(())
    } else {
        Err(Error::InvalidInputFormat)
    }
}

} // verus!
