//! The ordering of binary64 values, read from their bit patterns.
//!
//! A bit pattern is a sign bit (bit 63) over a 63-bit magnitude. For every
//! value that is not NaN, the magnitude grows with the absolute value, so
//! the signed magnitude orders values exactly as floating-point comparison
//! does (`-0.0` and `+0.0` get the same key). A magnitude above that of
//! infinity is a NaN, which compares false with everything.
use vstd::prelude::*;

verus! {

/// Bit 63, the sign of a binary64 value.
pub const SIGN_BIT: u64 = 0x8000_0000_0000_0000;

/// The bit pattern of positive infinity.
pub const INFINITY_BITS: u64 = 0x7FF0_0000_0000_0000;

/// The bit pattern of negative infinity.
pub const NEG_INFINITY_BITS: u64 = 0xFFF0_0000_0000_0000;

/// The magnitude bits of a pattern (its absolute value's pattern).
pub open spec fn magnitude(b: u64) -> int {
    (b as int) % (SIGN_BIT as int)
}

/// The pattern encodes a NaN.
pub open spec fn nan(b: u64) -> bool {
    magnitude(b) > INFINITY_BITS as int
}

/// An integer that orders non-NaN values as floating-point comparison does.
pub open spec fn key(b: u64) -> int {
    if b >= SIGN_BIT {
        -magnitude(b)
    } else {
        magnitude(b)
    }
}

/// Floating-point `a <= b`.
pub open spec fn le(a: u64, b: u64) -> bool {
    !nan(a) && !nan(b) && key(a) <= key(b)
}

/// Floating-point `a < b`.
pub open spec fn lt(a: u64, b: u64) -> bool {
    !nan(a) && !nan(b) && key(a) < key(b)
}

/// Floating-point `a == b`.
pub open spec fn same(a: u64, b: u64) -> bool {
    !nan(a) && !nan(b) && key(a) == key(b)
}

/// Whether a pattern encodes a NaN.
pub fn is_nan(b: u64) -> (r: bool)
    ensures
        r == nan(b),
{
    b % SIGN_BIT > INFINITY_BITS
}

/// The ordering key of a pattern.
pub fn order_key(b: u64) -> (k: i64)
    ensures
        k as int == key(b),
{
    let m: u64 = b % SIGN_BIT;
    if b >= SIGN_BIT {
        -(m as i64)
    } else {
        m as i64
    }
}

/// Floating-point `a <= b` on bit patterns.
pub fn value_le(a: u64, b: u64) -> (r: bool)
    ensures
        r == le(a, b),
{
    !is_nan(a) && !is_nan(b) && order_key(a) <= order_key(b)
}

/// Floating-point `a < b` on bit patterns.
pub fn value_lt(a: u64, b: u64) -> (r: bool)
    ensures
        r == lt(a, b),
{
    !is_nan(a) && !is_nan(b) && order_key(a) < order_key(b)
}

/// Floating-point `a == b` on bit patterns.
pub fn value_eq(a: u64, b: u64) -> (r: bool)
    ensures
        r == same(a, b),
{
    !is_nan(a) && !is_nan(b) && order_key(a) == order_key(b)
}

} // verus!
