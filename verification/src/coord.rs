//! Coordinates as ordered integers.
//!
//! A coordinate is an `i32` that stands for an IEEE-754 single-precision
//! number: the magnitude bits of the number, negated when its sign bit is
//! set. Two numbers compare as their coordinates do, `-0.0` and `+0.0` share
//! the coordinate `0`, and the two infinities are the ends of the range. A
//! NaN has no coordinate.

use vstd::arithmetic::power2::{lemma2_to64, lemma2_to64_rest, lemma_pow2_strictly_increases, pow2};
use vstd::bits::{lemma_u64_shl_is_mul, lemma_u64_shr_is_div};
use vstd::prelude::*;

verus! {

/// The coordinate of positive infinity.
pub const INFINITY: i32 = 0x7F80_0000;

/// The coordinate of negative infinity.
pub const NEG_INFINITY: i32 = -0x7F80_0000;

/// Whether `c` stands for a number or an infinity.
pub open spec fn valid(c: i32) -> bool {
    NEG_INFINITY <= c <= INFINITY
}

/// Whether `bits` is the pattern of a NaN: all exponent bits set and a
/// mantissa that is not zero.
pub open spec fn is_nan(bits: u32) -> bool {
    bits & 0x7FFF_FFFF > 0x7F80_0000
}

/// The sign-magnitude reading of a bit pattern.
pub open spec fn spec_from_bits(bits: u32) -> int {
    if bits & 0x8000_0000 == 0 {
        (bits & 0x7FFF_FFFF) as int
    } else {
        -((bits & 0x7FFF_FFFF) as int)
    }
}

/// The bit pattern of a coordinate; zero gets the pattern of `+0.0`.
pub open spec fn spec_to_bits(c: i32) -> u32 {
    if c >= 0 {
        c as u32
    } else {
        ((-c) as u32) | 0x8000_0000
    }
}

/// The coordinate of the number whose bit pattern is `bits`, or `None` for a
/// NaN.
pub fn from_bits(bits: u32) -> (c: Option<i32>)
    ensures
        c == if is_nan(bits) {
            None
        } else {
            Some(spec_from_bits(bits) as i32)
        },
        c matches Some(v) ==> valid(v),
{
    let magnitude: u32 = bits & 0x7FFF_FFFF;
    assert(magnitude <= 0x7FFF_FFFF) by (bit_vector)
        requires
            magnitude == bits & 0x7FFF_FFFF,
    ;
    if magnitude > 0x7F80_0000 {
        None
    } else if bits & 0x8000_0000 == 0 {
        Some(magnitude as i32)
    } else {
        Some(-(magnitude as i32))
    }
}

/// The bit pattern of the number that `c` stands for.
pub fn to_bits(c: i32) -> (bits: u32)
    requires
        valid(c),
    ensures
        bits == spec_to_bits(c),
{
    if c >= 0 {
        c as u32
    } else {
        ((-c) as u32) | 0x8000_0000
    }
}

/// Reading back the pattern written for a coordinate gives the coordinate.
pub proof fn lemma_from_bits_to_bits(c: i32)
    requires
        valid(c),
    ensures
        !is_nan(spec_to_bits(c)),
        spec_from_bits(spec_to_bits(c)) == c,
{
    if c >= 0 {
        let b = c as u32;
        assert(b <= 0x7F80_0000 ==> b & 0x7FFF_FFFF == b && b & 0x8000_0000 == 0) by (bit_vector);
    } else {
        let m = (-c) as u32;
        assert(0 < m <= 0x7F80_0000 ==> (m | 0x8000_0000) & 0x7FFF_FFFF == m && (m | 0x8000_0000)
            & 0x8000_0000 != 0) by (bit_vector);
    }
}

/// Writing the pattern of a coordinate that was read from `bits` gives `bits`
/// back, except that the pattern of `-0.0` comes back as that of `+0.0`.
pub proof fn lemma_to_bits_from_bits(bits: u32)
    requires
        !is_nan(bits),
    ensures
        valid(spec_from_bits(bits) as i32),
        spec_to_bits(spec_from_bits(bits) as i32) == if bits == 0x8000_0000 {
            0u32
        } else {
            bits
        },
{
    let m = bits & 0x7FFF_FFFF;
    assert(m <= 0x7FFF_FFFF) by (bit_vector)
        requires
            m == bits & 0x7FFF_FFFF,
    ;
    assert(bits & 0x8000_0000 == 0 ==> bits & 0x7FFF_FFFF == bits) by (bit_vector);
    assert(bits & 0x8000_0000 != 0 ==> (bits & 0x7FFF_FFFF) | 0x8000_0000 == bits) by (bit_vector);
    assert(bits & 0x8000_0000 != 0 && bits & 0x7FFF_FFFF == 0 ==> bits == 0x8000_0000)
        by (bit_vector);
    assert(0x8000_0000u32 & 0x8000_0000 != 0 && 0x8000_0000u32 & 0x7FFF_FFFF == 0) by (bit_vector);
}

/// Patterns with a clear sign bit are ordered as their coordinates, patterns
/// with a set sign bit in reverse, and the latter never lie above the former.
pub proof fn lemma_from_bits_monotone(a: u32, b: u32)
    requires
        !is_nan(a),
        !is_nan(b),
    ensures
        a & 0x8000_0000 == 0 && b & 0x8000_0000 == 0 ==> (spec_from_bits(a) <= spec_from_bits(b)
            <==> a <= b),
        a & 0x8000_0000 != 0 && b & 0x8000_0000 != 0 ==> (spec_from_bits(a) <= spec_from_bits(b)
            <==> b <= a),
        a & 0x8000_0000 != 0 && b & 0x8000_0000 == 0 ==> spec_from_bits(a) <= spec_from_bits(b),
{
    assert(a & 0x8000_0000 == 0 ==> a & 0x7FFF_FFFF == a) by (bit_vector);
    assert(b & 0x8000_0000 == 0 ==> b & 0x7FFF_FFFF == b) by (bit_vector);
    assert(a & 0x8000_0000 != 0 ==> a & 0x7FFF_FFFF == a - 0x8000_0000) by (bit_vector);
    assert(b & 0x8000_0000 != 0 ==> b & 0x7FFF_FFFF == b - 0x8000_0000) by (bit_vector);
}

/// The whole part of the number that `c` stands for, where `c` stands for a
/// number of at least one, and 0 otherwise. The number is the significand,
/// the 23 mantissa bits under a leading one, times two to the power of the
/// biased exponent less 150.
pub open spec fn spec_floor(c: i32) -> nat {
    if c <= 0 || c > INFINITY {
        0
    } else {
        let exponent = c as nat / 0x80_0000;
        let significand = 0x80_0000 + c as nat % 0x80_0000;
        if exponent < 127 {
            0
        } else if exponent < 150 {
            significand / pow2((150 - exponent) as nat)
        } else {
            significand * pow2((exponent - 150) as nat)
        }
    }
}

/// [`spec_floor`] brought into the range of `usize`.
pub open spec fn spec_floor_index(c: i32) -> usize {
    if spec_floor(c) > usize::MAX {
        usize::MAX
    } else {
        spec_floor(c) as usize
    }
}

/// The number that `c` stands for, rounded down to a whole number and
/// brought into the range of `usize`: 0 for every number below one, and the
/// largest `usize` for every number beyond it and for positive infinity. A
/// value that is not the coordinate of anything gives 0.
pub fn floor_index(c: i32) -> (index: usize)
    ensures
        index == spec_floor_index(c),
{
    if c <= 0 || c > INFINITY {
        return 0;
    }
    let bits: u32 = c as u32;
    let exponent: u32 = bits >> 23;
    let mantissa: u32 = bits & 0x7F_FFFF;
    let significand: u64 = 0x80_0000 + mantissa as u64;
    proof {
        assert(bits >> 23 == bits / 0x80_0000) by (bit_vector);
        assert(bits & 0x7F_FFFF == bits % 0x80_0000) by (bit_vector);
        assert(exponent <= 255) by (bit_vector)
            requires
                exponent == bits >> 23,
                bits <= 0x7F80_0000,
        ;
        lemma2_to64();
        lemma2_to64_rest();
    }
    if exponent < 127 {
        0
    } else if exponent < 150 {
        let shift: u64 = (150 - exponent) as u64;
        proof {
            lemma_u64_shr_is_div(significand, shift);
        }
        (significand >> shift) as usize
    } else {
        let shift: u64 = (exponent - 150) as u64;
        if shift > 40 {
            proof {
                if shift > 41 {
                    lemma_pow2_strictly_increases(41, shift as nat);
                }
                assert(significand * pow2(shift as nat) > u64::MAX) by (nonlinear_arith)
                    requires
                        significand >= 0x80_0000,
                        pow2(shift as nat) >= 0x200_0000_0000,
                ;
            }
            usize::MAX
        } else {
            proof {
                if shift < 40 {
                    lemma_pow2_strictly_increases(shift as nat, 40);
                }
                assert(significand * pow2(shift as nat) <= u64::MAX) by (nonlinear_arith)
                    requires
                        significand < 0x100_0000,
                        pow2(shift as nat) <= 0x100_0000_0000,
                ;
                lemma_u64_shl_is_mul(significand, shift);
            }
            let whole: u64 = significand << shift;
            if whole > usize::MAX as u64 {
                usize::MAX
            } else {
                whole as usize
            }
        }
    }
}

} // verus!
