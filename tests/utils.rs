use libbitsub::utils::{binary_search_timestamp, clamp, rgb_to_rgba, ycbcr_to_rgba, BigEndianReader};

#[test]
fn test_binary_search_timestamp() {
    let timestamps = vec![0, 1000, 2000, 3000, 4000];
    assert_eq!(binary_search_timestamp(&timestamps, 0), 0);
    assert_eq!(binary_search_timestamp(&timestamps, 500), 0);
    assert_eq!(binary_search_timestamp(&timestamps, 1000), 1);
    assert_eq!(binary_search_timestamp(&timestamps, 1500), 1);
    assert_eq!(binary_search_timestamp(&timestamps, 4500), 4);
}

#[test]
fn binary_search_edges() {
    assert_eq!(binary_search_timestamp(&[], 10), 0);
    assert_eq!(binary_search_timestamp(&[100, 200], 50), 0);
    assert_eq!(binary_search_timestamp(&[100, 100, 100], 100), 2);
    assert_eq!(binary_search_timestamp(&[100, 200, 300], u32::MAX), 2);
}

#[test]
fn test_ycbcr_to_rgba() {
    let white = ycbcr_to_rgba(255, 128, 128, 255);
    let bytes = white.to_le_bytes();
    assert_eq!(bytes[0], 255);
    assert_eq!(bytes[1], 255);
    assert_eq!(bytes[2], 255);
    assert_eq!(bytes[3], 255);
}

#[test]
fn ycbcr_black_keeps_alpha() {
    assert_eq!(ycbcr_to_rgba(0, 128, 128, 77).to_le_bytes(), [0, 0, 0, 77]);
    assert_eq!(ycbcr_to_rgba(100, 128, 128, 0).to_le_bytes(), [100, 100, 100, 0]);
}

#[test]
fn ycbcr_red_within_one_of_bt601() {
    // Y=81, Cb=90, Cr=240: r = 81 + 1.402*112 = 238.0, g = 81 + 13.077 - 79.98 = 14.09, b = 81 - 67.34 = 13.66
    let c = ycbcr_to_rgba(81, 90, 240, 255).to_le_bytes();
    assert_eq!(c, [238, 14, 14, 255]);
}

#[test]
fn ycbcr_clips_channels() {
    let c = ycbcr_to_rgba(255, 255, 255, 1).to_le_bytes();
    assert_eq!(c[0], 255);
    assert_eq!(c[2], 255);
    let d = ycbcr_to_rgba(0, 0, 0, 1).to_le_bytes();
    assert_eq!(d[0], 0);
    assert_eq!(d[2], 0);
}

#[test]
fn rgb_packing_and_clamp() {
    assert_eq!(rgb_to_rgba(1, 2, 3, 4), u32::from_le_bytes([1, 2, 3, 4]));
    assert_eq!(clamp(-5, 0, 255), 0);
    assert_eq!(clamp(300, 0, 255), 255);
    assert_eq!(clamp(42, 0, 255), 42);
}

#[test]
fn reader_reads_big_endian() {
    let data = [0x12, 0x34, 0x56, 0x78, 0x9A, 0xBC, 0xDE, 0xF0, 0x01];
    let mut r = BigEndianReader::new(&data);
    assert_eq!(r.read_u16(), Some(0x1234));
    assert_eq!(r.read_u32(), Some(0x56789ABC));
    assert_eq!(r.position(), 6);
    assert_eq!(r.read_u24(), Some(0xDEF001));
    assert_eq!(r.remaining(), 0);
    assert_eq!(r.read_u8(), None);
    assert_eq!(r.position(), 9);
}

#[test]
fn reader_failed_reads_do_not_move() {
    let data = [0xAB, 0xCD, 0xEF];
    let mut r = BigEndianReader::new(&data);
    assert_eq!(r.read_u32(), None);
    assert_eq!(r.position(), 0);
    assert!(r.skip(2));
    assert!(!r.skip(2));
    assert_eq!(r.position(), 2);
    assert_eq!(r.read_u16(), None);
    assert_eq!(r.read_bytes(1), Some(vec![0xEF]));
    r.set_position(1);
    assert_eq!(r.read_bytes(2), Some(vec![0xCD, 0xEF]));
    assert_eq!(r.read_bytes(1), None);
}
