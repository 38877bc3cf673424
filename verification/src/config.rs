//! Validation of renderer configuration: sample rate and buffer size.
//!
//! The sample rate must lie between 8000 and 192000 Hz and is fatal when it
//! does not; the buffer size is clamped into 32..=8192 and rounded up to a
//! power of two, with a warning for every adjustment.

use vstd::prelude::*;

verus! {

/// The default sample rate, in hertz.
pub const DEFAULT_SAMPLE_RATE: u32 = 48000;

/// The lowest accepted sample rate, in hertz.
pub const MIN_SAMPLE_RATE: u32 = 8000;

/// The highest accepted sample rate, in hertz.
pub const MAX_SAMPLE_RATE: u32 = 192000;

/// The default buffer size, in samples.
pub const DEFAULT_BUFFER_SIZE: usize = 1024;

/// The smallest buffer size, in samples.
pub const MIN_BUFFER_SIZE: usize = 32;

/// The largest buffer size, in samples.
pub const MAX_BUFFER_SIZE: usize = 8192;

/// Why a requested sample rate was refused.
#[derive(Debug, Clone, Copy, PartialEq, Eq, Structural)]
pub enum SampleRateError {
    TooLow,
    TooHigh,
}

/// How a requested buffer size was adjusted.
#[derive(Debug, Clone, Copy, PartialEq, Eq, Structural)]
pub enum BufferSizeAdjustment {
    Unchanged,
    RaisedToMinimum,
    LoweredToMaximum,
    RoundedUpToPowerOfTwo,
}

/// Check a requested sample rate: accepted exactly within 8000..=192000,
/// too low or too high otherwise. A missing request gives the default.
pub fn check_sample_rate(requested: Option<u32>) -> (r: Result<u32, SampleRateError>)
    ensures
        requested is None ==> r == Ok::<u32, SampleRateError>(DEFAULT_SAMPLE_RATE),
        requested matches Some(v) ==> {
            &&& (r is Ok <==> MIN_SAMPLE_RATE <= v <= MAX_SAMPLE_RATE)
            &&& (r matches Ok(a) ==> a == v)
            &&& (v < MIN_SAMPLE_RATE ==> r == Err::<u32, SampleRateError>(SampleRateError::TooLow))
            &&& (v > MAX_SAMPLE_RATE ==> r == Err::<u32, SampleRateError>(
                SampleRateError::TooHigh,
            ))
        },
{
    match requested {
        None => Ok(DEFAULT_SAMPLE_RATE),
        Some(v) => {
            if v < MIN_SAMPLE_RATE {
                Err(SampleRateError::TooLow)
            } else if v > MAX_SAMPLE_RATE {
                Err(SampleRateError::TooHigh)
            } else {
                Ok(v)
            }
        },
    }
}

/// True when the value is a power of two.
pub open spec fn is_power_of_two(v: int) -> bool
    decreases v,
{
    if v <= 0 {
        false
    } else if v == 1 {
        true
    } else {
        v % 2 == 0 && is_power_of_two(v / 2)
    }
}

/// Check a requested buffer size: clamped into 32..=8192 and rounded up to
/// the next power of two, reporting which adjustment took place. A missing
/// request gives the default.
pub fn check_buffer_size(requested: Option<usize>) -> (r: (usize, BufferSizeAdjustment))
    ensures
        requested is None ==> r == (DEFAULT_BUFFER_SIZE, BufferSizeAdjustment::Unchanged),
        MIN_BUFFER_SIZE <= r.0 <= MAX_BUFFER_SIZE,
        is_power_of_two(r.0 as int),
        requested matches Some(v) ==> {
            &&& (v < MIN_BUFFER_SIZE ==> r == (
                MIN_BUFFER_SIZE,
                BufferSizeAdjustment::RaisedToMinimum,
            ))
            &&& (v > MAX_BUFFER_SIZE ==> r == (
                MAX_BUFFER_SIZE,
                BufferSizeAdjustment::LoweredToMaximum,
            ))
            &&& (MIN_BUFFER_SIZE <= v <= MAX_BUFFER_SIZE ==> v <= r.0 < 2 * v && r.1 == (if r.0
                == v {
                BufferSizeAdjustment::Unchanged
            } else {
                BufferSizeAdjustment::RoundedUpToPowerOfTwo
            }))
        },
{
    proof {
        reveal_with_fuel(is_power_of_two, 15);
        assert(is_power_of_two(32));
        assert(is_power_of_two(64));
        assert(is_power_of_two(128));
        assert(is_power_of_two(256));
        assert(is_power_of_two(512));
        assert(is_power_of_two(1024));
        assert(is_power_of_two(2048));
        assert(is_power_of_two(4096));
        assert(is_power_of_two(8192));
    }
    let v = match requested {
        None => {
            return (DEFAULT_BUFFER_SIZE, BufferSizeAdjustment::Unchanged);
        },
        Some(v) => v,
    };
    if v < MIN_BUFFER_SIZE {
        return (MIN_BUFFER_SIZE, BufferSizeAdjustment::RaisedToMinimum);
    }
    if v > MAX_BUFFER_SIZE {
        return (MAX_BUFFER_SIZE, BufferSizeAdjustment::LoweredToMaximum);
    }
    // Round up to the next accepted power of two.
    let p: usize = if v <= 32 {
        32
    } else if v <= 64 {
        64
    } else if v <= 128 {
        128
    } else if v <= 256 {
        256
    } else if v <= 512 {
        512
    } else if v <= 1024 {
        1024
    } else if v <= 2048 {
        2048
    } else if v <= 4096 {
        4096
    } else {
        8192
    };
    if p == v {
        (p, BufferSizeAdjustment::Unchanged)
    } else {
        (p, BufferSizeAdjustment::RoundedUpToPowerOfTwo)
    }
}

} // verus!
