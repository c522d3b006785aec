//! IEEE 754 single-precision bit patterns, read as plain integers.
//!
//! A finite pattern encodes the magnitude `sig * 2^scale * 2^-149`, where
//! `sig` is the integer significand (at most 24 bits) and `scale` is derived
//! from the exponent field. Working at the fixed quantum `2^-149` keeps every
//! magnitude an integer, so comparisons of squared magnitudes against the
//! decoder's bounds are exact integer comparisons.

use vstd::prelude::*;
use vstd::arithmetic::power2::{pow2, lemma2_to64, lemma2_to64_rest};

verus! {

/// Exponent field: the eight bits above the 23-bit fraction.
pub open spec fn exp_bits(b: u32) -> u32 {
    (b >> 23) & 0xff
}

/// Fraction field: the low 23 bits.
pub open spec fn frac_bits(b: u32) -> u32 {
    b & 0x7f_ffff
}

/// The pattern encodes a NaN.
pub open spec fn is_nan_bits(b: u32) -> bool {
    exp_bits(b) == 0xff && frac_bits(b) != 0
}

/// The pattern encodes a positive or negative infinity.
pub open spec fn is_inf_bits(b: u32) -> bool {
    exp_bits(b) == 0xff && frac_bits(b) == 0
}

/// The pattern encodes a finite value (normal, subnormal or zero).
pub open spec fn is_finite_bits(b: u32) -> bool {
    exp_bits(b) != 0xff
}

/// Integer significand: the fraction, with the hidden bit for normal numbers.
pub open spec fn sig_of(b: u32) -> int {
    if exp_bits(b) == 0 {
        frac_bits(b) as int
    } else {
        frac_bits(b) + 0x80_0000
    }
}

/// Power of two that scales the significand, counted from the quantum
/// `2^-149`: the magnitude of a finite pattern is `sig_of * 2^scale_of / 2^149`.
pub open spec fn scale_of(b: u32) -> nat {
    if exp_bits(b) == 0 {
        0
    } else {
        (exp_bits(b) - 1) as nat
    }
}

/// Squared magnitude of a finite pattern, in units of `2^-298`: exactly
/// `|value|^2 * 2^298`.
pub open spec fn mag_sq(b: u32) -> int {
    sig_of(b) * sig_of(b) * pow2(2 * scale_of(b))
}

/// Bit pattern of the negated value: the sign bit flipped.
pub open spec fn negated_bits(b: u32) -> u32 {
    b ^ 0x8000_0000
}

/// Runtime test matching `is_nan_bits`.
pub fn is_nan_val(b: u32) -> (r: bool)
    ensures
        r == is_nan_bits(b),
{
    let e: u32 = (b >> 23) & 0xff;
    let f: u32 = b & 0x7f_ffff;
    e == 0xff && f != 0
}

/// Runtime test matching `is_inf_bits`.
pub fn is_inf_val(b: u32) -> (r: bool)
    ensures
        r == is_inf_bits(b),
{
    let e: u32 = (b >> 23) & 0xff;
    let f: u32 = b & 0x7f_ffff;
    e == 0xff && f == 0
}

/// Splits a finite pattern into the coefficient and exponent of its squared
/// magnitude: `mag_sq(b) == r.0 * 2^(r.1)`, with the coefficient below `2^48`.
pub fn square_parts(b: u32) -> (r: (u64, usize))
    requires
        is_finite_bits(b),
    ensures
        r.0 * pow2(r.1 as nat) == mag_sq(b),
        r.0 < pow2(48),
        r.1 <= 506,
        r.1 == 2 * scale_of(b),
{
    let e: u32 = (b >> 23) & 0xff;
    let f: u32 = b & 0x7f_ffff;
    proof {
        assert((b >> 23) & 0xff < 0x100u32) by (bit_vector);
        assert(b & 0x7f_ffff < 0x80_0000u32) by (bit_vector);
    }
    let sig: u64 = if e == 0 {
        f as u64
    } else {
        (f as u64) + 0x80_0000
    };
    let sh: usize = if e == 0 {
        0
    } else {
        ((e - 1) as usize) * 2
    };
    assert(sig * sig < 0x1_0000_0000_0000u64) by (nonlinear_arith)
        requires
            sig < 0x100_0000,
    ;
    let m2: u64 = sig * sig;
    proof {
        lemma2_to64();
        lemma2_to64_rest();
        assert(sig == sig_of(b));
        assert(sh == 2 * scale_of(b));
    }
    (m2, sh)
}

/// Bound on the squared magnitude of any finite pattern: the significand is
/// below `2^24` and the scale at most `253`, so `mag_sq` stays below `2^554`.
pub proof fn lemma_mag_sq_bound(b: u32)
    requires
        is_finite_bits(b),
    ensures
        0 <= mag_sq(b) < pow2(554),
{
    lemma2_to64();
    lemma2_to64_rest();
    assert((b >> 23) & 0xff < 0x100u32) by (bit_vector);
    assert(b & 0x7f_ffff < 0x80_0000u32) by (bit_vector);
    let s = sig_of(b);
    let sc = scale_of(b);
    assert(0 <= s < 0x100_0000);
    assert(sc <= 253);
    assert(s * s < pow2(48)) by (nonlinear_arith)
        requires
            0 <= s < 0x100_0000,
            pow2(48) == 0x1_0000_0000_0000,
    ;
    assert(s * s >= 0) by (nonlinear_arith);
    if 2 * sc < 506 {
        vstd::arithmetic::power2::lemma_pow2_strictly_increases(2 * sc, 506);
    }
    assert(pow2(2 * sc) <= pow2(506));
    vstd::arithmetic::power2::lemma_pow2_pos(2 * sc);
    vstd::arithmetic::mul::lemma_mul_upper_bound(s * s, pow2(48) - 1, pow2(2 * sc) as int, pow2(506) as int);
    vstd::arithmetic::power2::lemma_pow2_adds(48, 506);
    assert(mag_sq(b) <= (pow2(48) - 1) * pow2(506));
    assert((pow2(48) - 1) * pow2(506) < pow2(48) * pow2(506)) by (nonlinear_arith)
        requires
            pow2(506) > 0,
    ;
    vstd::arithmetic::mul::lemma_mul_nonnegative(s * s, pow2(2 * sc) as int);
}

} // verus!
