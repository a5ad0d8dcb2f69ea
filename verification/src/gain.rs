//! Gains and meter levels as IEEE-754 single-precision bit patterns.
//!
//! A gain travels through the engine as the 32-bit pattern of a binary32
//! number, so that it can be stored and handed over in one word. For patterns
//! with a clear sign bit that are not NaN, the numeric order of the values is
//! the order of the patterns read as unsigned integers; everything in this
//! module rests on that.

use vstd::prelude::*;

verus! {

/// Pattern of `0.0`.
pub const SILENCE_BITS: u32 = 0;

/// Pattern of `1.0`.
pub const UNITY_BITS: u32 = 0x3F80_0000;

/// Pattern of positive infinity; every larger pattern with a clear sign bit is a NaN.
pub const INFINITY_BITS: u32 = 0x7F80_0000;

/// Largest pattern with a clear sign bit.
pub const MAGNITUDE_MASK: u32 = 0x7FFF_FFFF;

/// The pattern has its sign bit set (negative numbers, `-0.0`, negative NaNs).
pub open spec fn has_sign(bits: u32) -> bool {
    bits > MAGNITUDE_MASK
}

/// The pattern encodes a NaN, of either sign.
pub open spec fn is_nan(bits: u32) -> bool {
    (if has_sign(bits) {
        bits - 0x8000_0000
    } else {
        bits as int
    }) > INFINITY_BITS
}

/// The pattern encodes a number in `[0.0, 1.0]` with a clear sign bit.
pub open spec fn is_unit(bits: u32) -> bool {
    bits <= UNITY_BITS
}

/// A gain limited to `[0.0, 1.0]`: anything negative and any NaN becomes
/// `0.0`, anything above `1.0` (infinity included) becomes `1.0`, and the
/// patterns in between are kept as they are.
pub open spec fn clamp_unit(bits: u32) -> u32 {
    if has_sign(bits) || is_nan(bits) {
        SILENCE_BITS
    } else if bits > UNITY_BITS {
        UNITY_BITS
    } else {
        bits
    }
}

/// Limits a gain to `[0.0, 1.0]`.
pub fn clamp_unit_bits(bits: u32) -> (clamped: u32)
    ensures
        clamped == clamp_unit(bits),
        is_unit(clamped),
        is_unit(bits) ==> clamped == bits,
{
    if bits > INFINITY_BITS {
        SILENCE_BITS
    } else if bits > UNITY_BITS {
        UNITY_BITS
    } else {
        bits
    }
}

/// A meter level: the magnitude of the value, with NaN read as silence.
pub open spec fn level_of(bits: u32) -> u32 {
    if is_nan(bits) {
        SILENCE_BITS
    } else if has_sign(bits) {
        (bits - 0x8000_0000) as u32
    } else {
        bits
    }
}

/// Turns a sample or peak pattern into a meter level, which is never negative.
pub fn level_bits(bits: u32) -> (level: u32)
    ensures
        level == level_of(bits),
        level <= INFINITY_BITS,
{
    let magnitude: u32 = if bits > MAGNITUDE_MASK {
        bits - 0x8000_0000
    } else {
        bits
    };
    if magnitude > INFINITY_BITS {
        SILENCE_BITS
    } else {
        magnitude
    }
}

/// Clamping is idempotent: a clamped gain is left alone by a second clamp.
pub proof fn lemma_clamp_idempotent(bits: u32)
    ensures
        clamp_unit(clamp_unit(bits)) == clamp_unit(bits),
{
}

/// Clamping keeps the order of gains that carry no sign and are no NaN.
pub proof fn lemma_clamp_monotone(a: u32, b: u32)
    requires
        a <= b,
        b <= INFINITY_BITS,
    ensures
        clamp_unit(a) <= clamp_unit(b),
{
}

} // verus!
