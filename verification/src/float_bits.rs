//! IEEE-754 predicates evaluated on raw bit patterns.
//!
//! The library stores every binary32/binary64 quantity it inspects as its
//! bit pattern (`f32::to_bits` / `f64::to_bits`).  The spec functions below
//! define the IEEE-754 meaning of the comparisons the solver performs, and
//! the executable functions compute exactly those predicates.
use vstd::prelude::*;

verus! {

/// `2^63`: the binary64 sign bit.
pub open spec fn f64_sign_bit() -> int { 0x8000_0000_0000_0000 }

/// Bit pattern of binary64 positive infinity.
pub open spec fn f64_infinity_bits() -> int { 0x7ff0_0000_0000_0000 }

/// Bit pattern of binary64 `1.0`.
pub open spec fn f64_one_bits() -> int { 0x3ff0_0000_0000_0000 }

/// Magnitude (all bits but the sign) of a binary64 value.
pub open spec fn f64_magnitude(bits: u64) -> int {
    bits as int % f64_sign_bit()
}

/// The binary64 value is NaN.
pub open spec fn f64_is_nan(bits: u64) -> bool {
    f64_magnitude(bits) > f64_infinity_bits()
}

/// The binary64 value is neither infinite nor NaN.
pub open spec fn f64_is_finite(bits: u64) -> bool {
    f64_magnitude(bits) < f64_infinity_bits()
}

/// IEEE-754 equality of two binary64 values (`NaN != NaN`, `-0.0 == 0.0`).
pub open spec fn f64_ieee_eq(a: u64, b: u64) -> bool {
    &&& !f64_is_nan(a)
    &&& !f64_is_nan(b)
    &&& (a == b || (f64_magnitude(a) == 0 && f64_magnitude(b) == 0))
}

/// The binary64 value compares strictly below zero.
pub open spec fn f64_is_negative(bits: u64) -> bool {
    bits as int > f64_sign_bit() && !f64_is_nan(bits)
}

/// The binary64 value lies in the closed interval `[0, 1]`.
pub open spec fn f64_in_unit_interval(bits: u64) -> bool {
    bits as int <= f64_one_bits() || bits as int == f64_sign_bit()
}

/// Bit pattern of binary64 `2.0`.
pub open spec fn f64_two_bits() -> int { 0x4000_0000_0000_0000 }

/// The binary64 value, known finite, compares strictly below `2.0`: every
/// value with the sign bit set (including `-0.0`) does, and non-negative
/// values order like their bit patterns.
pub open spec fn f64_is_below_two(bits: u64) -> bool {
    bits as int >= f64_sign_bit() || (bits as int) < f64_two_bits()
}

/// `2^31`: the binary32 sign bit.
pub open spec fn f32_sign_bit() -> int { 0x8000_0000 }

/// Bit pattern of binary32 positive infinity.
pub open spec fn f32_infinity_bits() -> int { 0x7f80_0000 }

/// Magnitude (all bits but the sign) of a binary32 value.
pub open spec fn f32_magnitude(bits: u32) -> int {
    bits as int % f32_sign_bit()
}

/// The binary32 value is neither infinite nor NaN.
pub open spec fn f32_is_finite(bits: u32) -> bool {
    f32_magnitude(bits) < f32_infinity_bits()
}

/// The binary32 value compares strictly below zero.
pub open spec fn f32_is_negative(bits: u32) -> bool {
    bits as int > f32_sign_bit() && f32_magnitude(bits) <= f32_infinity_bits()
}

/// The binary32 value compares strictly above zero.
pub open spec fn f32_is_positive(bits: u32) -> bool {
    0 < bits && bits as int <= f32_infinity_bits()
}

/// The binary32 value compares unequal to zero (NaN included).
pub open spec fn f32_is_nonzero(bits: u32) -> bool {
    f32_magnitude(bits) != 0
}

/// Executable [`f64_is_finite`].
pub fn f64_finite(bits: u64) -> (r: bool)
    ensures
        r == f64_is_finite(bits),
{
    bits % 0x8000_0000_0000_0000u64 < 0x7ff0_0000_0000_0000u64
}

/// Executable [`f64_ieee_eq`].
pub fn f64_equal(a: u64, b: u64) -> (r: bool)
    ensures
        r == f64_ieee_eq(a, b),
{
    let ma = a % 0x8000_0000_0000_0000u64;
    let mb = b % 0x8000_0000_0000_0000u64;
    ma <= 0x7ff0_0000_0000_0000u64 && mb <= 0x7ff0_0000_0000_0000u64 && (a == b || (ma == 0
        && mb == 0))
}

/// Executable [`f64_is_negative`].
pub fn f64_negative(bits: u64) -> (r: bool)
    ensures
        r == f64_is_negative(bits),
{
    bits > 0x8000_0000_0000_0000u64 && bits % 0x8000_0000_0000_0000u64
        <= 0x7ff0_0000_0000_0000u64
}

/// Executable [`f64_in_unit_interval`].
pub fn f64_unit_interval(bits: u64) -> (r: bool)
    ensures
        r == f64_in_unit_interval(bits),
{
    bits <= 0x3ff0_0000_0000_0000u64 || bits == 0x8000_0000_0000_0000u64
}

/// Executable [`f64_is_below_two`].
pub fn f64_below_two(bits: u64) -> (r: bool)
    ensures
        r == f64_is_below_two(bits),
{
    bits >= 0x8000_0000_0000_0000u64 || bits < 0x4000_0000_0000_0000u64
}

/// Bit pattern of binary32 `1.0`.
pub open spec fn f32_one_bits() -> int { 0x3f80_0000 }

/// The binary32 value lies in the closed interval `[0, 1]` (`-0.0`
/// included; NaN excluded).
pub open spec fn f32_in_unit_interval(bits: u32) -> bool {
    bits as int <= f32_one_bits() || bits as int == f32_sign_bit()
}

/// Executable [`f32_in_unit_interval`].
pub fn f32_unit_interval(bits: u32) -> (r: bool)
    ensures
        r == f32_in_unit_interval(bits),
{
    bits <= 0x3f80_0000u32 || bits == 0x8000_0000u32
}

/// Executable [`f32_is_finite`].
pub fn f32_finite(bits: u32) -> (r: bool)
    ensures
        r == f32_is_finite(bits),
{
    bits % 0x8000_0000u32 < 0x7f80_0000u32
}

/// Executable [`f32_is_negative`].
pub fn f32_negative(bits: u32) -> (r: bool)
    ensures
        r == f32_is_negative(bits),
{
    bits > 0x8000_0000u32 && bits % 0x8000_0000u32 <= 0x7f80_0000u32
}

/// Executable [`f32_is_positive`].
pub fn f32_positive(bits: u32) -> (r: bool)
    ensures
        r == f32_is_positive(bits),
{
    0 < bits && bits <= 0x7f80_0000u32
}

/// Executable [`f32_is_nonzero`].
pub fn f32_nonzero(bits: u32) -> (r: bool)
    ensures
        r == f32_is_nonzero(bits),
{
    bits % 0x8000_0000u32 != 0
}

} // verus!
