//! Bit-level facts about IEEE 754 single-precision values.
//!
//! Node values, prices and volatility parameters are single-precision
//! numbers, and verified code carries each one as its raw bit pattern, a
//! `u32`. All arithmetic on them is supplied by the caller (see the kernel
//! parameters of the evaluation functions), but one question the library
//! answers itself, because IEEE 754 settles it at the bit level: whether
//! a pattern denotes zero, which guards the finite differences against a
//! degenerate denominator. A pattern denotes zero exactly when everything
//! but the sign bit is clear.

use vstd::prelude::*;

verus! {

/// Bit pattern of single-precision `0.0`.
pub const F32_ZERO_BITS: u32 = 0;

/// Bit pattern of single-precision `2.0`.
pub const F32_TWO_BITS: u32 = 0x4000_0000;

/// The bit pattern is one of the two IEEE 754 zeroes.
pub open spec fn is_zero_bits(a: u32) -> bool {
    a & 0x7FFF_FFFF == 0
}

/// Whether the number behind `a` compares equal to zero.
pub fn eq_zero_bits(a: u32) -> (r: bool)
    ensures
        r == is_zero_bits(a),
{
    a & 0x7FFF_FFFF == 0
}

} // verus!
