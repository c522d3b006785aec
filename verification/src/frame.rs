//! Decoding and validation of one fixed-size candidate frame.
//!
//! A frame is an 84-byte window. The fields sit at fixed offsets, all
//! little-endian: an 8-byte timestamp in microseconds at offset 14, three
//! 32-bit gyroscope components at offset 34 and three 32-bit accelerometer
//! components at offset 46, each component an IEEE 754 single-precision bit
//! pattern. The validation cascade rejects, in order: any NaN component, any
//! infinite component, a gyroscope component beyond 1000 in magnitude, an
//! accelerometer component beyond 100, both squared norms below the square of
//! the near-zero bound, and an accelerometer norm outside [5, 15]. All bounds
//! are decided exactly on squared magnitudes at the quantum `2^-298`.

use vstd::prelude::*;
use vstd::arithmetic::power2::{
    pow2, lemma2_to64, lemma2_to64_rest, lemma_pow2_strictly_increases, lemma_pow2_unfold,
};
use crate::bignum::{add_limbs, limbs_from_scaled, limbs_val, lt_limbs, LIMBS};
use crate::fbits::{
    is_finite_bits, is_inf_bits, is_nan_bits, is_nan_val, is_inf_val, lemma_mag_sq_bound, mag_sq,
    negated_bits, square_parts,
};

verus! {

/// Fixed length of a candidate frame, in bytes.
pub const FRAME_LEN: usize = 84;

/// Byte offset of the 8-byte timestamp field.
pub const TS_OFF: usize = 14;

/// Byte offset of the first gyroscope component.
pub const GYRO_OFF: usize = 34;

/// Byte offset of the first accelerometer component.
pub const ACCEL_OFF: usize = 46;

/// Bit pattern of the near-zero norm bound (the single-precision value
/// commonly written 1e-6).
pub const NEAR_ZERO_BITS: u32 = 0x358637BD;

/// Little-endian 32-bit read at a byte offset.
pub open spec fn le32_at(s: Seq<u8>, off: int) -> u32 {
    (s[off] as int + s[off + 1] as int * 0x100 + s[off + 2] as int * 0x1_0000
        + s[off + 3] as int * 0x100_0000) as u32
}

/// Little-endian 64-bit read at a byte offset.
pub open spec fn le64_at(s: Seq<u8>, off: int) -> u64 {
    (s[off] as int + s[off + 1] as int * 0x100 + s[off + 2] as int * 0x1_0000
        + s[off + 3] as int * 0x100_0000 + s[off + 4] as int * 0x1_0000_0000
        + s[off + 5] as int * 0x100_0000_0000 + s[off + 6] as int * 0x1_0000_0000_0000
        + s[off + 7] as int * 0x100_0000_0000_0000) as u64
}

/// Timestamp field of a frame, in microseconds.
pub open spec fn ts_us(w: Seq<u8>) -> u64 {
    le64_at(w, TS_OFF as int)
}

/// Bit pattern of gyroscope component `i` (0, 1 or 2).
pub open spec fn gyro_bits(w: Seq<u8>, i: int) -> u32 {
    le32_at(w, GYRO_OFF + 4 * i)
}

/// Bit pattern of accelerometer component `i` (0, 1 or 2).
pub open spec fn accel_bits(w: Seq<u8>, i: int) -> u32 {
    le32_at(w, ACCEL_OFF + 4 * i)
}

/// Some sensor component is a NaN.
pub open spec fn any_nan(w: Seq<u8>) -> bool {
    is_nan_bits(gyro_bits(w, 0)) || is_nan_bits(gyro_bits(w, 1)) || is_nan_bits(gyro_bits(w, 2))
        || is_nan_bits(accel_bits(w, 0)) || is_nan_bits(accel_bits(w, 1))
        || is_nan_bits(accel_bits(w, 2))
}

/// Some sensor component is infinite.
pub open spec fn any_inf(w: Seq<u8>) -> bool {
    is_inf_bits(gyro_bits(w, 0)) || is_inf_bits(gyro_bits(w, 1)) || is_inf_bits(gyro_bits(w, 2))
        || is_inf_bits(accel_bits(w, 0)) || is_inf_bits(accel_bits(w, 1))
        || is_inf_bits(accel_bits(w, 2))
}

/// Some gyroscope component exceeds 1000 in magnitude: its squared magnitude
/// exceeds `1000^2 * 2^298` at the fixed quantum.
pub open spec fn gyro_extreme(w: Seq<u8>) -> bool {
    mag_sq(gyro_bits(w, 0)) > 1_000_000 * pow2(298)
        || mag_sq(gyro_bits(w, 1)) > 1_000_000 * pow2(298)
        || mag_sq(gyro_bits(w, 2)) > 1_000_000 * pow2(298)
}

/// Some accelerometer component exceeds 100 in magnitude.
pub open spec fn accel_extreme(w: Seq<u8>) -> bool {
    mag_sq(accel_bits(w, 0)) > 10_000 * pow2(298)
        || mag_sq(accel_bits(w, 1)) > 10_000 * pow2(298)
        || mag_sq(accel_bits(w, 2)) > 10_000 * pow2(298)
}

/// Squared Euclidean norm of the gyroscope triple, at the quantum `2^-298`.
pub open spec fn gyro_sq_sum(w: Seq<u8>) -> int {
    mag_sq(gyro_bits(w, 0)) + mag_sq(gyro_bits(w, 1)) + mag_sq(gyro_bits(w, 2))
}

/// Squared Euclidean norm of the accelerometer triple.
pub open spec fn accel_sq_sum(w: Seq<u8>) -> int {
    mag_sq(accel_bits(w, 0)) + mag_sq(accel_bits(w, 1)) + mag_sq(accel_bits(w, 2))
}

/// Squared near-zero bound at the fixed quantum.
pub open spec fn near_zero_sq() -> int {
    mag_sq(NEAR_ZERO_BITS)
}

/// Both sensor norms are below the near-zero bound: suspicious, the device
/// should always at least read gravity.
pub open spec fn all_near_zero(w: Seq<u8>) -> bool {
    gyro_sq_sum(w) < near_zero_sq() && accel_sq_sum(w) < near_zero_sq()
}

/// The accelerometer norm lies outside the inclusive band [5, 15] around
/// gravity.
pub open spec fn gravity_implausible(w: Seq<u8>) -> bool {
    accel_sq_sum(w) < 25 * pow2(298) || accel_sq_sum(w) > 225 * pow2(298)
}

/// The whole validation cascade passes.
pub open spec fn decode_ok(w: Seq<u8>) -> bool {
    !any_nan(w) && !any_inf(w) && !gyro_extreme(w) && !accel_extreme(w) && !all_near_zero(w)
        && !gravity_implausible(w)
}

/// Why a frame was rejected, one variant per step of the cascade.
#[derive(Debug, Clone, Copy, PartialEq, Eq, Structural)]
pub enum DecodeError {
    /// A sensor component is a NaN.
    NanValue,
    /// A sensor component is infinite.
    InfiniteValue,
    /// A gyroscope component exceeds 1000 in magnitude.
    ExtremeGyro,
    /// An accelerometer component exceeds 100 in magnitude.
    ExtremeAccel,
    /// Both sensor norms are below the near-zero bound.
    NearZeroMotion,
    /// The accelerometer norm lies outside [5, 15].
    ImplausibleGravity,
}

/// First failing step of the cascade (meaningful when `!decode_ok`).
pub open spec fn reject_reason(w: Seq<u8>) -> DecodeError {
    if any_nan(w) {
        DecodeError::NanValue
    } else if any_inf(w) {
        DecodeError::InfiniteValue
    } else if gyro_extreme(w) {
        DecodeError::ExtremeGyro
    } else if accel_extreme(w) {
        DecodeError::ExtremeAccel
    } else if all_near_zero(w) {
        DecodeError::NearZeroMotion
    } else {
        DecodeError::ImplausibleGravity
    }
}

/// One three-component sensor reading, each component an IEEE 754
/// single-precision bit pattern.
#[derive(Debug, Clone, Copy, PartialEq, Eq, Structural)]
pub struct Vec3Bits {
    pub x: u32,
    pub y: u32,
    pub z: u32,
}

/// One decoded record: angular velocity, linear acceleration and a timestamp
/// in milliseconds. The components carry the axis remap of the decoder.
#[derive(Debug, Clone, Copy, PartialEq, Eq, Structural)]
pub struct IMUData {
    pub gyro: Vec3Bits,
    pub accel: Vec3Bits,
    pub timestamp: u64,
}

/// The record is exactly what decoding the window yields: each output
/// component is the negated bit pattern of an input component, with the
/// second and third axes swapped, and the timestamp is the microsecond field
/// divided by 1000, truncating.
pub open spec fn record_matches(d: IMUData, w: Seq<u8>) -> bool {
    &&& d.timestamp == ts_us(w) / 1000
    &&& d.gyro.x == negated_bits(gyro_bits(w, 0))
    &&& d.gyro.y == negated_bits(gyro_bits(w, 2))
    &&& d.gyro.z == negated_bits(gyro_bits(w, 1))
    &&& d.accel.x == negated_bits(accel_bits(w, 0))
    &&& d.accel.y == negated_bits(accel_bits(w, 2))
    &&& d.accel.z == negated_bits(accel_bits(w, 1))
}

/// Little-endian 32-bit read from a byte vector.
pub fn read_u32_le(v: &Vec<u8>, off: usize) -> (r: u32)
    requires
        off + 4 <= v@.len(),
    ensures
        r == le32_at(v@, off as int),
{
    let l: usize = v.len();
    let b0 = v[off] as u32;
    let b1 = v[off + 1] as u32;
    let b2 = v[off + 2] as u32;
    let b3 = v[off + 3] as u32;
    b0 + b1 * 0x100 + b2 * 0x1_0000 + b3 * 0x100_0000
}

/// Little-endian 64-bit read from a byte vector.
pub fn read_u64_le(v: &Vec<u8>, off: usize) -> (r: u64)
    requires
        off + 8 <= v@.len(),
    ensures
        r == le64_at(v@, off as int),
{
    let l: usize = v.len();
    let b0 = v[off] as u64;
    let b1 = v[off + 1] as u64;
    let b2 = v[off + 2] as u64;
    let b3 = v[off + 3] as u64;
    let b4 = v[off + 4] as u64;
    let b5 = v[off + 5] as u64;
    let b6 = v[off + 6] as u64;
    let b7 = v[off + 7] as u64;
    b0 + b1 * 0x100 + b2 * 0x1_0000 + b3 * 0x100_0000 + b4 * 0x1_0000_0000 + b5 * 0x100_0000_0000
        + b6 * 0x1_0000_0000_0000 + b7 * 0x100_0000_0000_0000
}

/// Builds the limb vector of the squared magnitude of a finite component.
fn mag_sq_limbs(b: u32) -> (v: Vec<u64>)
    requires
        is_finite_bits(b),
    ensures
        v@.len() == LIMBS,
        limbs_val(v@) == mag_sq(b),
{
    let (m2, sh) = square_parts(b);
    limbs_from_scaled(m2, sh)
}

/// Sum of three squared-magnitude limb vectors.
fn sum3_limbs(t0: &Vec<u64>, t1: &Vec<u64>, t2: &Vec<u64>) -> (v: Vec<u64>)
    requires
        t0@.len() == LIMBS,
        t1@.len() == LIMBS,
        t2@.len() == LIMBS,
        0 <= limbs_val(t0@) < pow2(554),
        0 <= limbs_val(t1@) < pow2(554),
        0 <= limbs_val(t2@) < pow2(554),
    ensures
        v@.len() == LIMBS,
        limbs_val(v@) == limbs_val(t0@) + limbs_val(t1@) + limbs_val(t2@),
{
    proof {
        lemma_pow2_unfold(555);
        lemma_pow2_unfold(556);
        lemma_pow2_strictly_increases(556, 576);
    }
    let s01 = add_limbs(t0, t1);
    add_limbs(&s01, t2)
}

/// Decodes one 84-byte window: reads the fixed-offset fields, applies the
/// validation cascade, and on success builds the remapped record. A pure
/// function of the window.
pub fn decode(frame: &Vec<u8>) -> (r: Result<IMUData, DecodeError>)
    requires
        frame@.len() == FRAME_LEN,
    ensures
        match r {
            Ok(d) => decode_ok(frame@) && record_matches(d, frame@),
            Err(e) => !decode_ok(frame@) && e == reject_reason(frame@),
        },
{
    let w = frame;
    let ts = read_u64_le(w, TS_OFF);
    let g0 = read_u32_le(w, GYRO_OFF);
    let g1 = read_u32_le(w, GYRO_OFF + 4);
    let g2 = read_u32_le(w, GYRO_OFF + 8);
    let a0 = read_u32_le(w, ACCEL_OFF);
    let a1 = read_u32_le(w, ACCEL_OFF + 4);
    let a2 = read_u32_le(w, ACCEL_OFF + 8);

    if is_nan_val(g0) || is_nan_val(g1) || is_nan_val(g2) || is_nan_val(a0) || is_nan_val(a1)
        || is_nan_val(a2) {
        return Err(DecodeError::NanValue);
    }
    if is_inf_val(g0) || is_inf_val(g1) || is_inf_val(g2) || is_inf_val(a0) || is_inf_val(a1)
        || is_inf_val(a2) {
        return Err(DecodeError::InfiniteValue);
    }

    proof {
        lemma2_to64();
        lemma2_to64_rest();
    }
    let tg0 = mag_sq_limbs(g0);
    let tg1 = mag_sq_limbs(g1);
    let tg2 = mag_sq_limbs(g2);
    let ta0 = mag_sq_limbs(a0);
    let ta1 = mag_sq_limbs(a1);
    let ta2 = mag_sq_limbs(a2);

    let th_gyro = limbs_from_scaled(1_000_000, 298);
    if lt_limbs(&th_gyro, &tg0) || lt_limbs(&th_gyro, &tg1) || lt_limbs(&th_gyro, &tg2) {
        return Err(DecodeError::ExtremeGyro);
    }
    let th_accel = limbs_from_scaled(10_000, 298);
    if lt_limbs(&th_accel, &ta0) || lt_limbs(&th_accel, &ta1) || lt_limbs(&th_accel, &ta2) {
        return Err(DecodeError::ExtremeAccel);
    }

    proof {
        lemma_mag_sq_bound(g0);
        lemma_mag_sq_bound(g1);
        lemma_mag_sq_bound(g2);
        lemma_mag_sq_bound(a0);
        lemma_mag_sq_bound(a1);
        lemma_mag_sq_bound(a2);
    }
    let sum_g = sum3_limbs(&tg0, &tg1, &tg2);
    let sum_a = sum3_limbs(&ta0, &ta1, &ta2);

    proof {
        assert(((NEAR_ZERO_BITS >> 23) & 0xff) != 0xffu32) by (bit_vector);
    }
    let th_zero = mag_sq_limbs(NEAR_ZERO_BITS);
    if lt_limbs(&sum_g, &th_zero) && lt_limbs(&sum_a, &th_zero) {
        return Err(DecodeError::NearZeroMotion);
    }

    let th_low = limbs_from_scaled(25, 298);
    let th_high = limbs_from_scaled(225, 298);
    if lt_limbs(&sum_a, &th_low) || lt_limbs(&th_high, &sum_a) {
        return Err(DecodeError::ImplausibleGravity);
    }

    Ok(IMUData {
        gyro: Vec3Bits { x: g0 ^ 0x8000_0000, y: g2 ^ 0x8000_0000, z: g1 ^ 0x8000_0000 },
        accel: Vec3Bits { x: a0 ^ 0x8000_0000, y: a2 ^ 0x8000_0000, z: a1 ^ 0x8000_0000 },
        timestamp: ts / 1000,
    })
}

/// A NaN or infinite component always rejects the frame, whatever the other
/// fields hold.
pub proof fn lemma_nonfinite_rejected(w: Seq<u8>)
    requires
        any_nan(w) || any_inf(w),
    ensures
        !decode_ok(w),
        reject_reason(w) == DecodeError::NanValue || reject_reason(w) == DecodeError::InfiniteValue,
{
}

} // verus!
