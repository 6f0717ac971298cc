use libbitsub::pgs::rle::{apply_palette, decode_rle_to_indexed, decode_rle_to_rgba};

#[test]
fn test_decode_literal() {
    let data = [1, 2, 3, 4, 5];
    let mut target = vec![0u8; 10];
    let count = decode_rle_to_indexed(&data, &mut target);
    assert_eq!(count, 5);
    assert_eq!(&target[..5], &[1, 2, 3, 4, 5]);
}

#[test]
fn test_decode_short_run_transparent() {
    let data = [0x00, 0x05];
    let mut target = vec![0xFFu8; 10];
    let count = decode_rle_to_indexed(&data, &mut target);
    assert_eq!(count, 5);
    assert_eq!(&target[..5], &[0, 0, 0, 0, 0]);
}

#[test]
fn test_decode_short_run_color() {
    let data = [0x00, 0x85, 0x07];
    let mut target = vec![0u8; 10];
    let count = decode_rle_to_indexed(&data, &mut target);
    assert_eq!(count, 5);
    assert_eq!(&target[..5], &[7, 7, 7, 7, 7]);
}

#[test]
fn test_decode_end_of_line() {
    let data = [0x01, 0x00, 0x00, 0x02];
    let mut target = vec![0u8; 10];
    let count = decode_rle_to_indexed(&data, &mut target);
    assert_eq!(count, 2);
    assert_eq!(&target[..2], &[1, 2]);
}

#[test]
fn extended_transparent_run_of_zero_yields_nothing() {
    let data = [0x00, 0xC0, 0x00, 0x05];
    let mut target = vec![9u8; 4];
    let count = decode_rle_to_indexed(&data, &mut target);
    assert_eq!(count, 0);
    assert_eq!(target, vec![9, 9, 9, 9]);
}

#[test]
fn extended_transparent_run_then_literal() {
    let data = [0x00, 0x40, 0x03, 0x05];
    let mut target = vec![9u8; 6];
    let count = decode_rle_to_indexed(&data, &mut target);
    assert_eq!(count, 4);
    assert_eq!(target, vec![0, 0, 0, 5, 9, 9]);
}

#[test]
fn extended_colored_run() {
    // 0x00 0xC1 0x02 0x04: 258 pixels of index 4
    let data = [0x00, 0xC1, 0x02, 0x04];
    let mut target = vec![0u8; 300];
    let count = decode_rle_to_indexed(&data, &mut target);
    assert_eq!(count, 258);
    assert!(target[..258].iter().all(|&p| p == 4));
    assert_eq!(target[258], 0);
}

#[test]
fn output_is_clamped_to_the_buffer() {
    let data = [0x00, 0x8A, 0x03, 0x07];
    let mut target = vec![0u8; 4];
    let count = decode_rle_to_indexed(&data, &mut target);
    assert_eq!(count, 4);
    assert_eq!(target, vec![3, 3, 3, 3]);
}

#[test]
fn truncated_code_ends_cleanly() {
    let data = [0x02, 0x00];
    let mut target = vec![0u8; 4];
    let count = decode_rle_to_indexed(&data, &mut target);
    assert_eq!(count, 1);
    assert_eq!(target, vec![2, 0, 0, 0]);
}

#[test]
fn empty_stream_decodes_to_nothing() {
    let mut target = vec![7u8; 3];
    assert_eq!(decode_rle_to_indexed(&[], &mut target), 0);
    assert_eq!(target, vec![7, 7, 7]);
}

#[test]
fn rgba_decode_equals_palette_of_indexed() {
    let data = [0x01, 0x00, 0x83, 0x02, 0x00, 0x02, 0x09, 0x00, 0x00, 0x01];
    let palette = vec![0x11111111u32, 0x22222222, 0x33333333];
    let mut indexed = vec![0u8; 8];
    let n = decode_rle_to_indexed(&data, &mut indexed);
    let mut via_palette = vec![0u32; 8];
    apply_palette(&indexed[..n], &palette, &mut via_palette);
    let mut direct = vec![0u32; 8];
    let m = decode_rle_to_rgba(&data, &palette, &mut direct);
    assert_eq!(n, 8);
    assert_eq!(m, 8);
    assert_eq!(direct, via_palette);
    assert_eq!(direct[0], 0x22222222);
    assert_eq!(direct[1], 0x33333333);
    assert_eq!(direct[4], 0x11111111);
    // index 9 is outside the palette
    assert_eq!(direct[6], 0);
    assert_eq!(direct[7], 0x22222222);
}

#[test]
fn apply_palette_maps_each_index() {
    let indexed = [0u8, 1, 5];
    let palette = [10u32, 20];
    let mut target = vec![99u32; 4];
    apply_palette(&indexed, &palette, &mut target);
    assert_eq!(target, vec![10, 20, 0, 99]);
}

#[test]
fn zero_length_extended_transparent_run_then_literal() {
    let data = [0x00, 0x40, 0x00, 0x05];
    let mut target = vec![9u8; 3];
    let count = decode_rle_to_indexed(&data, &mut target);
    assert_eq!(count, 1);
    assert_eq!(target, vec![5, 9, 9]);
}
