//! Percentages travel through the library as the bit patterns of IEEE-754
//! doubles; this module holds the few facts about those patterns that the
//! logic needs.

use vstd::prelude::*;
use vstd::arithmetic::power2::{lemma2_to64, lemma_pow2_strictly_increases, pow2};
use vstd::bits::{lemma_u64_shl_is_mul, lemma_u64_shr_is_div};

verus! {

/// Bit pattern of the double `100.0`.
pub const HUNDRED_BITS: u64 = 0x4059_0000_0000_0000u64;

/// Bit pattern of the double `-0.0`.
pub const NEGATIVE_ZERO_BITS: u64 = 0x8000_0000_0000_0000u64;

/// The double with these bits is a finite number in `0.0..=100.0`.
///
/// Non-negative doubles are ordered as their bit patterns are, and every
/// pattern at or below that of `100.0` with a clear sign bit is a finite
/// number in range (NaN and infinity lie above it); of the patterns with the
/// sign bit set only `-0.0` compares `>= 0.0`.
pub open spec fn spec_is_percentage(bits: u64) -> bool {
    bits <= HUNDRED_BITS || bits == NEGATIVE_ZERO_BITS
}

/// Whether the double with these bits is a finite percentage (`0.0..=100.0`).
pub fn is_percentage(bits: u64) -> (res: bool)
    ensures
        res == spec_is_percentage(bits),
{
    bits <= HUNDRED_BITS || bits == NEGATIVE_ZERO_BITS
}

/// The sign bit of a double's bit pattern.
pub open spec fn sign_of(bits: u64) -> int {
    bits as int / 0x8000_0000_0000_0000
}

/// The biased exponent of a double's bit pattern.
pub open spec fn exponent_of(bits: u64) -> int {
    (bits as int / 0x10_0000_0000_0000) % 2048
}

/// The fraction of a double's bit pattern.
pub open spec fn fraction_of(bits: u64) -> int {
    bits as int % 0x10_0000_0000_0000
}

/// The magnitude of a normal double with biased exponent `exp`, rounded toward
/// zero: `(2^52 + fraction) * 2^(exp - 1075)`.
pub open spec fn truncated_magnitude(exp: int, fraction: int) -> int {
    let m = fraction + 0x10_0000_0000_0000;
    if exp >= 1075 {
        m * (pow2((exp - 1075) as nat) as int)
    } else {
        m / (pow2((1075 - exp) as nat) as int)
    }
}

/// The double with these bits converted to `i64` as Rust's `as` does: rounded
/// toward zero, NaN to `0`, out-of-range values to the nearest bound.
pub open spec fn spec_f64_bits_to_i64(bits: u64) -> i64 {
    let negative = sign_of(bits) == 1;
    let exp = exponent_of(bits);
    if exp == 2047 && fraction_of(bits) != 0 {
        0
    } else if exp >= 1086 {
        if negative { i64::MIN } else { i64::MAX }
    } else if exp < 1023 {
        0
    } else {
        let magnitude = truncated_magnitude(exp, fraction_of(bits));
        (if negative { -magnitude } else { magnitude }) as i64
    }
}

/// The double with these bits converted to `i64` as Rust's `as` does (see
/// [`spec_f64_bits_to_i64`]).
pub fn f64_bits_to_i64(bits: u64) -> (res: i64)
    ensures
        res == spec_f64_bits_to_i64(bits),
{
    let negative = bits / 0x8000_0000_0000_0000u64 == 1;
    let exp = (bits / 0x10_0000_0000_0000u64) % 2048;
    let fraction = bits % 0x10_0000_0000_0000u64;
    if exp == 2047 && fraction != 0 {
        return 0;
    }
    if exp >= 1086 {
        return if negative { i64::MIN } else { i64::MAX };
    }
    if exp < 1023 {
        return 0;
    }
    let m: u64 = fraction + 0x10_0000_0000_0000u64;
    let magnitude: u64;
    if exp >= 1075 {
        let shift: u64 = exp - 1075;
        proof {
            lemma2_to64();
            lemma_pow2_strictly_increases(shift as nat, 11);
            assert(pow2(shift as nat) <= 1024);
            assert(m * pow2(shift as nat) < 0x8000_0000_0000_0000) by (nonlinear_arith)
                requires m < 0x20_0000_0000_0000, 0 < pow2(shift as nat) <= 1024;
            lemma_u64_shl_is_mul(m, shift);
        }
        magnitude = m << shift;
    } else {
        let shift: u64 = 1075 - exp;
        proof {
            lemma_u64_shr_is_div(m, shift);
            vstd::arithmetic::power2::lemma_pow2_pos(shift as nat);
            assert(m as nat / pow2(shift as nat) <= m) by (nonlinear_arith)
                requires pow2(shift as nat) > 0;
        }
        magnitude = m >> shift;
    }
    assert(magnitude < 0x8000_0000_0000_0000);
    if negative {
        -(magnitude as i64)
    } else {
        magnitude as i64
    }
}

} // verus!
