//! Single-precision values read off their IEEE-754 bit patterns: sign,
//! magnitude, and the comparisons that the index decides by.

use vstd::prelude::*;

verus! {

/// The bit pattern of `+0.0`.
pub const ZERO_BITS: u32 = 0;

/// The bit pattern of `1.0`.
pub const ONE_BITS: u32 = 0x3f80_0000;

/// The bit pattern of `+infinity`; every larger magnitude is a NaN.
pub const INFINITY_BITS: u32 = 0x7f80_0000;

/// The sign bit.
pub const SIGN_BIT: u32 = 0x8000_0000;

/// The bit pattern of `1e-5`, the tolerance on the norm of a unit vector.
pub const TOLERANCE_BITS: u32 = 0x3727_c5ac;

/// Whether the sign bit is set.
pub open spec fn is_negative_spec(x: u32) -> bool {
    x >= SIGN_BIT
}

/// The pattern with the sign bit cleared: the absolute value.
pub open spec fn magnitude_spec(x: u32) -> u32 {
    if x >= SIGN_BIT {
        (x - SIGN_BIT) as u32
    } else {
        x
    }
}

/// The pattern with the sign bit flipped: the negation.
pub open spec fn negate_spec(x: u32) -> u32 {
    if x >= SIGN_BIT {
        (x - SIGN_BIT) as u32
    } else {
        (x + SIGN_BIT) as u32
    }
}

pub open spec fn is_nan_spec(x: u32) -> bool {
    magnitude_spec(x) > INFINITY_BITS
}

/// An integer that orders the values that are not NaN as the values
/// themselves are ordered; both zeros have the key 0.
pub open spec fn order_key(x: u32) -> int {
    if x >= SIGN_BIT {
        -(magnitude_spec(x) as int)
    } else {
        x as int
    }
}

/// `x < y` as IEEE-754 decides it: false when either is a NaN.
pub open spec fn less_than_spec(x: u32, y: u32) -> bool {
    !is_nan_spec(x) && !is_nan_spec(y) && order_key(x) < order_key(y)
}

/// `x > y` as IEEE-754 decides it: false when either is a NaN.
pub open spec fn greater_than_spec(x: u32, y: u32) -> bool {
    less_than_spec(y, x)
}

pub fn is_nan(x: u32) -> (r: bool)
    ensures
        r == is_nan_spec(x),
{
    abs(x) > INFINITY_BITS
}

/// The absolute value.
pub fn abs(x: u32) -> (r: u32)
    ensures
        r == magnitude_spec(x),
{
    if x >= SIGN_BIT {
        x - SIGN_BIT
    } else {
        x
    }
}

/// The negation.
pub fn negate(x: u32) -> (r: u32)
    ensures
        r == negate_spec(x),
{
    if x >= SIGN_BIT {
        x - SIGN_BIT
    } else {
        x + SIGN_BIT
    }
}

/// The key of a value that is not a NaN.
fn key(x: u32) -> (k: i64)
    ensures
        k == order_key(x),
{
    if x >= SIGN_BIT {
        -((x - SIGN_BIT) as i64)
    } else {
        x as i64
    }
}

pub fn less_than(x: u32, y: u32) -> (r: bool)
    ensures
        r == less_than_spec(x, y),
{
    !is_nan(x) && !is_nan(y) && key(x) < key(y)
}

pub fn greater_than(x: u32, y: u32) -> (r: bool)
    ensures
        r == greater_than_spec(x, y),
{
    less_than(y, x)
}

/// Negation mirrors the order around zero, and `x > 0` is decided by the bit
/// pattern alone.
pub proof fn lemma_sign(x: u32)
    ensures
        greater_than_spec(x, ZERO_BITS) <==> 0 < x <= INFINITY_BITS,
        greater_than_spec(negate_spec(x), ZERO_BITS) <==> less_than_spec(x, ZERO_BITS),
        less_than_spec(negate_spec(x), ZERO_BITS) <==> greater_than_spec(x, ZERO_BITS),
        is_nan_spec(negate_spec(x)) <==> is_nan_spec(x),
        negate_spec(negate_spec(x)) == x,
{
}

} // verus!
