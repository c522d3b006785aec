//! Stream framing and decoding for fixed-layout inertial-measurement (IMU)
//! records carried on an unframed byte stream.
//!
//! The library locates 84-byte frames inside an accumulation buffer by their
//! 6-byte header signature, confirms a 6-byte sensor marker inside the
//! candidate window, decodes the little-endian fields at fixed offsets, and
//! rejects physically implausible readings. Sensor components arrive as IEEE
//! 754 single-precision bit patterns; every plausibility bound is decided
//! exactly, over the integer significand and scale the pattern encodes, so the
//! whole decoder is ordinary verified integer arithmetic.

pub mod bignum;
pub mod fbits;
pub mod frame;
pub mod parser;
