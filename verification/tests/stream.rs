use imu_frames::frame::decode;
use imu_frames::parser::{find_subsequence, FrameParser};

const HEADER: [u8; 6] = [0x28, 0x36, 0x00, 0x00, 0x00, 0x80];
const SENSOR: [u8; 6] = [0x00, 0x40, 0x1f, 0x00, 0x00, 0x40];

fn build_frame(ts_us: u64, gyro: [f32; 3], accel: [f32; 3]) -> Vec<u8> {
    let mut v = vec![0u8; 84];
    v[0..6].copy_from_slice(&HEADER);
    v[6..12].copy_from_slice(&SENSOR);
    v[14..22].copy_from_slice(&ts_us.to_le_bytes());
    for i in 0..3 {
        v[34 + 4 * i..38 + 4 * i].copy_from_slice(&gyro[i].to_le_bytes());
        v[46 + 4 * i..50 + 4 * i].copy_from_slice(&accel[i].to_le_bytes());
    }
    v
}

#[test]
fn no_header_leaves_buffer_untouched() {
    let mut p = FrameParser::new();
    let junk: Vec<u8> = vec![0xAA, 0xBB, 0x28, 0x37, 0x00, 0x00, 0x00, 0x81, 0xCC];
    p.push_bytes(&junk);
    assert!(p.try_parse_message().is_none());
    assert_eq!(p.buffered(), &junk);
}

#[test]
fn garbage_before_header_is_discarded() {
    let mut p = FrameParser::new();
    let mut bytes: Vec<u8> = vec![0x11; 20];
    bytes.extend_from_slice(&HEADER);
    bytes.extend_from_slice(&[0x55; 10]); // far fewer than a full frame
    p.push_bytes(&bytes);
    assert!(p.try_parse_message().is_none());
    // The 20 garbage bytes are gone; the buffer now starts with the header.
    assert_eq!(p.buffered().len(), 16);
    assert_eq!(&p.buffered()[0..6], &HEADER);
}

#[test]
fn reject_then_resync_discards_six_bytes() {
    // A window with header and sensor marker but accelerometer norm 20:
    // rejected, and the valid frame right after it is still found.
    let bad = build_frame(7, [0.1, 0.0, 0.0], [20.0, 0.0, 0.0]);
    assert!(decode(&bad).is_err());
    let good_gyro = [2.0f32, 3.0, -4.0];
    let good_accel = [0.0f32, -9.8, 0.5];
    let good = build_frame(5_500, good_gyro, good_accel);

    let mut p = FrameParser::new();
    let mut bytes = bad.clone();
    bytes.extend_from_slice(&good);
    p.push_bytes(&bytes);

    let d = p.try_parse_message().expect("the good frame must be found");
    assert_eq!(d.timestamp, 5);
    assert_eq!(d.gyro.x, (-2.0f32).to_bits());
    assert_eq!(d.gyro.y, (4.0f32).to_bits());
    assert_eq!(d.gyro.z, (-3.0f32).to_bits());
    assert_eq!(d.accel.x, (-0.0f32).to_bits());
    assert_eq!(d.accel.y, (-0.5f32).to_bits());
    assert_eq!(d.accel.z, (9.8f32).to_bits());
    assert!(p.buffered().is_empty());
    assert!(p.try_parse_message().is_none());
}

#[test]
fn missing_sensor_marker_discards_six_bytes() {
    // A header with no sensor marker in its window is a false positive; only
    // the 6 header bytes are discarded and the real frame that follows wins.
    let mut decoy = vec![0u8; 84];
    decoy[0..6].copy_from_slice(&HEADER);
    let good = build_frame(1_000, [1.0, 0.0, 0.0], [9.8, 0.0, 0.0]);

    let mut p = FrameParser::new();
    let mut bytes = decoy.clone();
    bytes.extend_from_slice(&good);
    p.push_bytes(&bytes);

    let d = p.try_parse_message().expect("the real frame must be found");
    assert_eq!(d.timestamp, 1);
    assert!(p.buffered().is_empty());
}

#[test]
fn end_to_end_two_frames_chunked() {
    // [20 junk bytes][valid frame][valid frame], fed in two arbitrary chunks
    // split at byte 50: two records come out, wherever the boundary fell.
    let gyro_a = [10.0f32, -20.0, 30.0];
    let accel_a = [6.0f32, 0.0, 0.0];
    let gyro_b = [-0.5f32, 0.25, 0.125];
    let accel_b = [0.0f32, 0.0, 14.5];
    let mut bytes: Vec<u8> = vec![0x99; 20];
    bytes.extend_from_slice(&build_frame(2_000_000, gyro_a, accel_a));
    bytes.extend_from_slice(&build_frame(3_000_000, gyro_b, accel_b));

    let chunk1: Vec<u8> = bytes[..50].to_vec();
    let chunk2: Vec<u8> = bytes[50..].to_vec();

    let mut p = FrameParser::new();
    p.push_bytes(&chunk1);
    assert!(p.try_parse_message().is_none(), "frame still incomplete");
    p.push_bytes(&chunk2);

    let a = p.try_parse_message().expect("first record");
    assert_eq!(a.timestamp, 2_000);
    assert_eq!(a.gyro.x, (-10.0f32).to_bits());
    assert_eq!(a.gyro.y, (-30.0f32).to_bits());
    assert_eq!(a.gyro.z, (20.0f32).to_bits());
    assert_eq!(a.accel.x, (-6.0f32).to_bits());

    let b = p.try_parse_message().expect("second record");
    assert_eq!(b.timestamp, 3_000);
    assert_eq!(b.gyro.x, (0.5f32).to_bits());
    assert_eq!(b.accel.y, (-14.5f32).to_bits());

    assert!(p.try_parse_message().is_none());
    assert!(p.buffered().is_empty());
}

#[test]
fn header_split_across_reads() {
    // The header straddles the chunk boundary; nothing is lost.
    let frame = build_frame(9_999, [0.0, 1.0, 0.0], [0.0, 9.8, 0.0]);
    let mut p = FrameParser::new();
    p.push_bytes(&frame[..3].to_vec());
    assert!(p.try_parse_message().is_none());
    p.push_bytes(&frame[3..].to_vec());
    let d = p.try_parse_message().expect("record after the header completes");
    assert_eq!(d.timestamp, 9);
}

#[test]
fn find_subsequence_first_occurrence() {
    let hay: Vec<u8> = vec![1, 2, 3, 1, 2, 3, 4];
    assert_eq!(find_subsequence(&hay, &vec![1, 2, 3]), Some(0));
    assert_eq!(find_subsequence(&hay, &vec![2, 3, 4]), Some(4));
    assert_eq!(find_subsequence(&hay, &vec![3, 4]), Some(5));
    assert_eq!(find_subsequence(&hay, &vec![4, 5]), None);
    assert_eq!(find_subsequence(&hay, &vec![5]), None);
    assert_eq!(find_subsequence(&vec![], &vec![1]), None);
}
