//! Pause live TV: the *budget* — how much history is kept.
//!
//! Both caps are real and the tighter one wins. Bytes are what the disk actually
//! spends; minutes are what a person means.

use vstd::prelude::*;

verus! {

/// Default buffer: 1 GB.
pub const DEFAULT_BYTES: u64 = 1073741824;
/// Ceiling: 10 GB.
pub const MAX_BYTES: u64 = 10737418240;
/// Below this there is nothing to pause into, so a smaller number is taken as a
/// mistake rather than honoured.
pub const MIN_BYTES: u64 = 67108864;

/// Default: thirty minutes.
pub const DEFAULT_SECS: u32 = 1800;
pub const MIN_SECS: u32 = 60;
/// Six hours: past this a "pause live TV" buffer is really a recording.
pub const MAX_SECS: u32 = 21600;

/// How much of a live stream to keep for rewinding.
#[derive(Debug, Clone, Copy, PartialEq, Eq)]
pub struct Budget {
    pub bytes: u64,
    pub secs: u32,
}

pub open spec fn clamp_int(x: int, lo: int, hi: int) -> int {
    if x < lo {
        lo
    } else if x > hi {
        hi
    } else {
        x
    }
}

impl Budget {
    /// 1 GB and thirty minutes.
    pub fn default() -> (r: Self)
        ensures
            r.bytes == DEFAULT_BYTES,
            r.secs == DEFAULT_SECS,
    {
        Self { bytes: DEFAULT_BYTES, secs: DEFAULT_SECS }
    }

    /// Build a budget from numbers that came from outside, held to the documented range.
    ///
    /// Clamped rather than rejected: these arrive from a settings screen and from a
    /// database that an older build may have written.
    pub fn clamped(bytes: u64, secs: u32) -> (r: Self)
        ensures
            r.bytes == clamp_int(bytes as int, MIN_BYTES as int, MAX_BYTES as int),
            r.secs == clamp_int(secs as int, MIN_SECS as int, MAX_SECS as int),
    {
        let b = if bytes < MIN_BYTES {
            MIN_BYTES
        } else if bytes > MAX_BYTES {
            MAX_BYTES
        } else {
            bytes
        };
        let s = if secs < MIN_SECS {
            MIN_SECS
        } else if secs > MAX_SECS {
            MAX_SECS
        } else {
            secs
        };
        Self { bytes: b, secs: s }
    }
}

/// Clamping is idempotent, and leaves anything already in range exactly alone.
pub proof fn lemma_clamping_keeps_what_is_in_range(bytes: u64, secs: u32)
    ensures
        MIN_BYTES <= bytes <= MAX_BYTES ==> clamp_int(bytes as int, MIN_BYTES as int, MAX_BYTES as int)
            == bytes,
        MIN_SECS <= secs <= MAX_SECS ==> clamp_int(secs as int, MIN_SECS as int, MAX_SECS as int)
            == secs,
        MIN_BYTES <= clamp_int(bytes as int, MIN_BYTES as int, MAX_BYTES as int) <= MAX_BYTES,
        MIN_SECS <= clamp_int(secs as int, MIN_SECS as int, MAX_SECS as int) <= MAX_SECS,
{
}

} // verus!
