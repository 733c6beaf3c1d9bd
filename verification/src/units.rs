//! Normalized scales shared by every collector.
//!
//! Severity and confidence live on a per-mille scale: the stored integer
//! `s` stands for the fraction `s / 1000`, so the valid range `[0, 1000]`
//! models the normalized interval `[0, 1]`. Coordinates are micro-degrees:
//! the stored integer `c` stands for `c / 1_000_000` degrees.

use vstd::prelude::*;

verus! {

/// Upper end of the per-mille scale; stands for the real value 1.0.
pub const UNIT_MAX: u32 = 1000;

/// A per-mille value is a valid normalized fraction when it is at most 1.0.
pub open spec fn valid_unit(v: u32) -> bool {
    v <= UNIT_MAX
}

/// Clamp of an arbitrary signed value onto the per-mille scale.
pub open spec fn spec_clamp_unit(v: int) -> int {
    if v < 0 {
        0
    } else if v > UNIT_MAX {
        UNIT_MAX as int
    } else {
        v
    }
}

/// Clamps a signed raw signal onto the normalized per-mille scale.
pub fn clamp_unit(v: i64) -> (r: u32)
    ensures
        r == spec_clamp_unit(v as int),
        valid_unit(r),
{
    if v < 0 {
        0
    } else if v > UNIT_MAX as i64 {
        UNIT_MAX
    } else {
        v as u32
    }
}

/// Severity assigned to a seismic record of the given magnitude, stated in
/// milli-magnitude units (a magnitude of 7.2 is 7200): magnitude divided by
/// ten, clamped onto the per-mille scale.
pub open spec fn spec_severity_from_mag(mag_milli: int) -> int {
    spec_clamp_unit(mag_milli / 10)
}

/// Maps a seismic magnitude (milli-units) onto normalized severity.
pub fn severity_from_mag(mag_milli: i64) -> (r: u32)
    ensures
        r == spec_severity_from_mag(mag_milli as int),
        valid_unit(r),
{
    if mag_milli < 0 {
        // Negative magnitudes clamp to zero, and Rust's truncating division
        // agrees with the Euclidean one only on non-negative dividends.
        0
    } else {
        clamp_unit(mag_milli / 10)
    }
}

} // verus!
