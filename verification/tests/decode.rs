use imu_frames::frame::{decode, DecodeError, IMUData};

const HEADER: [u8; 6] = [0x28, 0x36, 0x00, 0x00, 0x00, 0x80];
const SENSOR: [u8; 6] = [0x00, 0x40, 0x1f, 0x00, 0x00, 0x40];

fn build_frame(ts_us: u64, gyro: [f32; 3], accel: [f32; 3]) -> Vec<u8> {
    let mut v = vec![0u8; 84];
    v[0..6].copy_from_slice(&HEADER);
    v[6..12].copy_from_slice(&SENSOR);
    v[14..22].copy_from_slice(&ts_us.to_le_bytes());
    for i in 0..3 {
        v[34 + 4 * i..38 + 4 * i].copy_from_slice(&gyro[i].to_le_bytes());
        v[46 + 4 * i..50 + 4 * i].copy_from_slice(&accel[i].to_le_bytes());
    }
    v
}

fn expect_record(d: &IMUData, gyro: [f32; 3], accel: [f32; 3]) {
    assert_eq!(d.gyro.x, (-gyro[0]).to_bits());
    assert_eq!(d.gyro.y, (-gyro[2]).to_bits());
    assert_eq!(d.gyro.z, (-gyro[1]).to_bits());
    assert_eq!(d.accel.x, (-accel[0]).to_bits());
    assert_eq!(d.accel.y, (-accel[2]).to_bits());
    assert_eq!(d.accel.z, (-accel[1]).to_bits());
}

#[test]
fn round_trip_valid_frame() {
    let gyro = [1.5f32, -2.25, 3.0];
    let accel = [0.25f32, 9.8, -1.0];
    let frame = build_frame(123_456_789, gyro, accel);
    let d = decode(&frame).expect("valid frame must decode");
    expect_record(&d, gyro, accel);
    assert_eq!(d.timestamp, 123_456); // floor(123456789 / 1000)
}

#[test]
fn timestamp_truncates() {
    let d = decode(&build_frame(1999, [0.1, 0.0, 0.0], [9.8, 0.0, 0.0])).unwrap();
    assert_eq!(d.timestamp, 1);
    let d = decode(&build_frame(1_000_000, [0.1, 0.0, 0.0], [9.8, 0.0, 0.0])).unwrap();
    assert_eq!(d.timestamp, 1000);
}

#[test]
fn accel_norm_bounds_inclusive() {
    // Exactly 5.0 and exactly 15.0 are accepted.
    assert!(decode(&build_frame(1, [0.1, 0.0, 0.0], [5.0, 0.0, 0.0])).is_ok());
    assert!(decode(&build_frame(1, [0.1, 0.0, 0.0], [0.0, 15.0, 0.0])).is_ok());
    // A three-component norm on the bound: (3, 4, 0) has norm 5.
    assert!(decode(&build_frame(1, [0.1, 0.0, 0.0], [3.0, 4.0, 0.0])).is_ok());
    // Just outside the band is rejected.
    assert_eq!(
        decode(&build_frame(1, [0.1, 0.0, 0.0], [4.999, 0.0, 0.0])),
        Err(DecodeError::ImplausibleGravity)
    );
    assert_eq!(
        decode(&build_frame(1, [0.1, 0.0, 0.0], [15.001, 0.0, 0.0])),
        Err(DecodeError::ImplausibleGravity)
    );
}

#[test]
fn nan_always_rejected() {
    for i in 0..3 {
        let mut gyro = [0.1f32, 0.0, 0.0];
        gyro[i] = f32::NAN;
        assert_eq!(
            decode(&build_frame(1, gyro, [9.8, 0.0, 0.0])),
            Err(DecodeError::NanValue)
        );
        let mut accel = [9.8f32, 0.0, 0.0];
        accel[i] = f32::NAN;
        assert_eq!(
            decode(&build_frame(1, [0.1, 0.0, 0.0], accel)),
            Err(DecodeError::NanValue)
        );
    }
}

#[test]
fn infinity_always_rejected() {
    for i in 0..3 {
        let mut gyro = [0.1f32, 0.0, 0.0];
        gyro[i] = f32::INFINITY;
        assert_eq!(
            decode(&build_frame(1, gyro, [9.8, 0.0, 0.0])),
            Err(DecodeError::InfiniteValue)
        );
        let mut accel = [9.8f32, 0.0, 0.0];
        accel[i] = f32::NEG_INFINITY;
        assert_eq!(
            decode(&build_frame(1, [0.1, 0.0, 0.0], accel)),
            Err(DecodeError::InfiniteValue)
        );
    }
}

#[test]
fn extreme_gyro_rejected() {
    assert_eq!(
        decode(&build_frame(1, [1000.5, 0.0, 0.0], [9.8, 0.0, 0.0])),
        Err(DecodeError::ExtremeGyro)
    );
    assert_eq!(
        decode(&build_frame(1, [0.0, -2000.0, 0.0], [9.8, 0.0, 0.0])),
        Err(DecodeError::ExtremeGyro)
    );
    // Exactly 1000 is still within bounds: the test is strict.
    assert!(decode(&build_frame(1, [1000.0, 0.0, 0.0], [9.8, 0.0, 0.0])).is_ok());
}

#[test]
fn extreme_accel_rejected() {
    assert_eq!(
        decode(&build_frame(1, [0.1, 0.0, 0.0], [100.5, 0.0, 0.0])),
        Err(DecodeError::ExtremeAccel)
    );
    assert_eq!(
        decode(&build_frame(1, [0.1, 0.0, 0.0], [0.0, 0.0, -101.0])),
        Err(DecodeError::ExtremeAccel)
    );
}

#[test]
fn all_near_zero_rejected() {
    assert_eq!(
        decode(&build_frame(1, [0.0, 0.0, 0.0], [0.0, 0.0, 0.0])),
        Err(DecodeError::NearZeroMotion)
    );
    assert_eq!(
        decode(&build_frame(1, [1e-9, 0.0, 0.0], [0.0, 1e-9, 0.0])),
        Err(DecodeError::NearZeroMotion)
    );
    // One norm above the near-zero bound falls through to the gravity check.
    assert_eq!(
        decode(&build_frame(1, [0.1, 0.0, 0.0], [0.0, 0.0, 0.0])),
        Err(DecodeError::ImplausibleGravity)
    );
}

#[test]
fn near_zero_bound_bits() {
    // The decoder's near-zero bound is the single-precision value 1e-6.
    assert_eq!(1e-6f32.to_bits(), imu_frames::frame::NEAR_ZERO_BITS);
}

#[test]
fn negative_components_decode() {
    let gyro = [-999.0f32, 500.25, -0.0078125];
    let accel = [-3.0f32, -4.0, 12.0]; // norm 13, inside the band
    let d = decode(&build_frame(42_000, gyro, accel)).unwrap();
    expect_record(&d, gyro, accel);
    assert_eq!(d.timestamp, 42);
}
