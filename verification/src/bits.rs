//! Order predicates on 32-bit IEEE-754 bit patterns.
//!
//! The crate stores every single-precision sample as its bit pattern, so the
//! few comparisons its logic needs — "is the voxel size positive", "is a
//! homogeneous `w` component zero", "which squared distance is smaller" —
//! are stated and decided directly on the bits: a value is NaN when its
//! exponent field is all ones and its significand is not zero, negative when
//! its sign bit is set, and two non-NaN values compare by sign and magnitude,
//! with the two zeroes equal. These definitions restate the single-precision
//! comparison; nothing here calls floating-point hardware.

use vstd::prelude::*;

verus! {

/// The sample is a NaN: exponent all ones, significand not zero.
pub open spec fn spec_is_nan(b: u32) -> bool {
    (b >> 23) & 0xff == 0xff && b & 0x7fffff != 0
}

/// The sample's sign bit is set (negative values, including negative zero).
pub open spec fn spec_sign(b: u32) -> bool {
    b >> 31 == 1
}

/// The sample's magnitude: the bit pattern with the sign bit cleared.
pub open spec fn spec_mag(b: u32) -> u32 {
    b & 0x7fffffff
}

/// The sample is one of the two zeroes.
pub open spec fn spec_is_zero(b: u32) -> bool {
    spec_mag(b) == 0
}

/// Strict "less than" of two samples, as single-precision comparison
/// defines it: false whenever either side is NaN, and the two zeroes are
/// equal. For non-NaN patterns of one sign, magnitudes order the values.
pub open spec fn spec_lt(a: u32, b: u32) -> bool {
    if spec_is_nan(a) || spec_is_nan(b) {
        false
    } else if spec_sign(a) && spec_sign(b) {
        spec_mag(b) < spec_mag(a)
    } else if !spec_sign(a) && !spec_sign(b) {
        spec_mag(a) < spec_mag(b)
    } else if spec_sign(a) {
        !(spec_is_zero(a) && spec_is_zero(b))
    } else {
        false
    }
}

/// The sample compares "less than or equal to zero": not NaN, and negative
/// or zero.
pub open spec fn spec_le_zero(b: u32) -> bool {
    !spec_is_nan(b) && (spec_sign(b) || spec_is_zero(b))
}

/// Decides [`spec_is_nan`].
pub fn is_nan_bits(b: u32) -> (r: bool)
    ensures
        r == spec_is_nan(b),
{
    (b >> 23) & 0xff == 0xff && b & 0x7fffff != 0
}

/// Decides [`spec_is_zero`].
pub fn is_zero_bits(b: u32) -> (r: bool)
    ensures
        r == spec_is_zero(b),
{
    b & 0x7fffffff == 0
}

/// Decides [`spec_le_zero`].
pub fn le_zero_bits(b: u32) -> (r: bool)
    ensures
        r == spec_le_zero(b),
{
    !is_nan_bits(b) && (b >> 31 == 1 || b & 0x7fffffff == 0)
}

/// Decides [`spec_lt`].
pub fn lt_bits(a: u32, b: u32) -> (r: bool)
    ensures
        r == spec_lt(a, b),
{
    if is_nan_bits(a) || is_nan_bits(b) {
        false
    } else {
        let sa = a >> 31 == 1;
        let sb = b >> 31 == 1;
        if sa && sb {
            b & 0x7fffffff < a & 0x7fffffff
        } else if !sa && !sb {
            a & 0x7fffffff < b & 0x7fffffff
        } else if sa {
            !(a & 0x7fffffff == 0 && b & 0x7fffffff == 0)
        } else {
            false
        }
    }
}

} // verus!
