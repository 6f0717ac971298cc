use libbitsub::renderer::SubtitleRenderer;
use libbitsub::vobsub::deband::sample_offset;
use libbitsub::vobsub::idx_parser::{parse_idx, VobSubPalette};
use libbitsub::vobsub::rle::{decode_vobsub_rle, read_rle_code};
use libbitsub::vobsub::sub_parser::{parse_subtitle_data, parse_subtitle_packet, SubtitlePacket};
use libbitsub::vobsub::vobsub_parser::VobSubParser;

#[test]
fn test_parse_idx_basic() {
    let idx = r#"
# VobSub index file
size: 720x480
palette: 000000, ffffff, 808080, 404040, 000000, 000000, 000000, 000000, 000000, 000000, 000000, 000000, 000000, 000000, 000000, 000000
id: en, index: 0
timestamp: 00:00:01:000, filepos: 00000000
timestamp: 00:00:05:500, filepos: 00001000
"#;
    let result = parse_idx(idx);
    assert_eq!(result.metadata.width, 720);
    assert_eq!(result.metadata.height, 480);
    assert_eq!(result.metadata.language, Some("en".to_string()));
    assert_eq!(result.timestamps.len(), 2);
    assert_eq!(result.timestamps[0].timestamp_ms, 1000);
    assert_eq!(result.timestamps[1].timestamp_ms, 5500);
}

#[test]
fn idx_fixture_metadata_and_positions() {
    let idx = "size: 720x480\npalette: 000000,ffffff,000000,000000,000000,000000,000000,000000,000000,000000,000000,000000,000000,000000,000000,000000\nid: en, index: 0\ntimestamp: 00:00:01:000, filepos: 00000000\ntimestamp: 00:00:05:500, filepos: 00001000\n";
    let r = parse_idx(idx);
    assert_eq!((r.metadata.width, r.metadata.height), (720, 480));
    assert_eq!(r.metadata.language.as_deref(), Some("en"));
    assert_eq!(r.metadata.id.as_deref(), Some("0"));
    assert_eq!(r.timestamps.len(), 2);
    assert_eq!((r.timestamps[0].timestamp_ms, r.timestamps[0].file_position), (1000, 0));
    assert_eq!((r.timestamps[1].timestamp_ms, r.timestamps[1].file_position), (5500, 0x1000));
    assert_eq!(r.palette.rgba[0].to_le_bytes(), [0, 0, 0, 255]);
    assert_eq!(r.palette.rgba[1].to_le_bytes(), [255, 255, 255, 255]);
}

#[test]
fn idx_ignores_malformed_lines() {
    let idx = "size: 1920 x 1080\r\nsize: wide\nnonsense: 1\n  # comment\ntimestamp: 00:00:02, filepos: 0\ntimestamp: 00:01:02:003, filepos: +A0\npalette: #ff0000, zz0000, 00ff00\n";
    let r = parse_idx(idx);
    assert_eq!((r.metadata.width, r.metadata.height), (1920, 1080));
    assert_eq!(r.metadata.language, None);
    assert_eq!(r.timestamps.len(), 1);
    assert_eq!(r.timestamps[0].timestamp_ms, 62003);
    assert_eq!(r.timestamps[0].file_position, 0xA0);
    assert_eq!(r.palette.rgba[0].to_le_bytes(), [255, 0, 0, 255]);
    // a bad entry keeps the default colour
    assert_eq!(r.palette.rgba[1], 0xFFFFFFFF);
    assert_eq!(r.palette.rgba[2].to_le_bytes(), [0, 255, 0, 255]);
    assert_eq!(r.palette.rgba[3], 0xFF808080);
}

#[test]
fn test_rle_code_4bit() {
    let data = [0x45];
    let (color, run, bp, np) = read_rle_code(&data, 0, 0);
    assert_eq!(run, 1);
    assert_eq!(color, 0);
    assert_eq!(bp, 0);
    assert_eq!(np, 1);
}

#[test]
fn rle_code_pair_from_one_byte() {
    let data = [0x45];
    let (c0, r0, bp, np) = read_rle_code(&data, 0, 0);
    let (c1, r1, bp2, np2) = read_rle_code(&data, bp, np);
    assert_eq!((r0, c0), (1, 0));
    assert_eq!((r1, c1), (1, 1));
    assert_eq!((bp2, np2), (1, 0));
}

#[test]
fn rle_code_longer_forms() {
    // 8-bit: 0x1E -> run 7, colour 2
    assert_eq!(read_rle_code(&[0x1E], 0, 0), (2, 7, 1, 0));
    // 12-bit: 0x0A, 0x3. -> value 0x0A3 -> run 40, colour 3
    assert_eq!(read_rle_code(&[0x0A, 0x30], 0, 0), (3, 40, 1, 1));
    // 16-bit: 0x01 0x91 -> run 100, colour 1
    assert_eq!(read_rle_code(&[0x01, 0x91], 0, 0), (1, 100, 2, 0));
    // 16-bit zero: end of line
    assert_eq!(read_rle_code(&[0x00, 0x00], 0, 0), (0, 0, 2, 0));
}

#[test]
fn test_sample_offset_deterministic() {
    let (ox1, oy1) = sample_offset(0x1337, 10, 20, 15);
    let (ox2, oy2) = sample_offset(0x1337, 10, 20, 15);
    assert_eq!((ox1, oy1), (ox2, oy2));
}

#[test]
fn sample_offset_is_in_range() {
    for x in 0..50u32 {
        let (ox, oy) = sample_offset(7, x, 3, 15);
        assert!((1..=15).contains(&ox));
        assert!((1..=15).contains(&oy));
    }
}

fn area(x1: u16, x2: u16, y1: u16, y2: u16) -> [u8; 6] {
    [
        (x1 >> 4) as u8,
        (((x1 & 0xF) << 4) | (x2 >> 8)) as u8,
        (x2 & 0xFF) as u8,
        (y1 >> 4) as u8,
        (((y1 & 0xF) << 4) | (y2 >> 8)) as u8,
        (y2 & 0xFF) as u8,
    ]
}

/// A sub-picture unit: `even` and `odd` field data, one self-terminating
/// control block; a stop command with `stop_delay` when given.
fn spu(x: u16, y: u16, w: u16, h: u16, even: &[u8], odd: &[u8], bottom_zero: bool, stop_delay: Option<u16>) -> Vec<u8> {
    let top = 4u16;
    let bottom = if bottom_zero { 0 } else { 4 + even.len() as u16 };
    let dcsq = 4 + even.len() as u16 + odd.len() as u16;
    let mut cmds = vec![0x01, 0x03, 0x32, 0x10, 0x04, 0xFF, 0xF0, 0x05];
    cmds.extend_from_slice(&area(x, x + w - 1, y, y + h - 1));
    cmds.push(0x06);
    cmds.extend_from_slice(&top.to_be_bytes());
    cmds.extend_from_slice(&bottom.to_be_bytes());
    cmds.push(0xFF);
    let mut out = Vec::new();
    let total = dcsq as usize + 4 + cmds.len() + if stop_delay.is_some() { 6 } else { 0 };
    out.extend_from_slice(&(total as u16).to_be_bytes());
    out.extend_from_slice(&dcsq.to_be_bytes());
    out.extend_from_slice(even);
    out.extend_from_slice(odd);
    match stop_delay {
        None => {
            out.extend_from_slice(&[0, 0]);
            out.extend_from_slice(&dcsq.to_be_bytes());
            out.extend_from_slice(&cmds);
        }
        Some(d) => {
            let second = dcsq + 4 + cmds.len() as u16;
            out.extend_from_slice(&[0, 0]);
            out.extend_from_slice(&second.to_be_bytes());
            out.extend_from_slice(&cmds);
            out.extend_from_slice(&d.to_be_bytes());
            out.extend_from_slice(&second.to_be_bytes());
            out.extend_from_slice(&[0x02, 0xFF]);
        }
    }
    out
}

fn pts_bytes(ms: u32) -> [u8; 5] {
    let pts = ms as u64 * 90;
    [
        0x21 | (((pts >> 29) & 0x0E) as u8),
        ((pts >> 22) & 0xFF) as u8,
        (((pts >> 14) & 0xFE) as u8) | 1,
        ((pts >> 7) & 0xFF) as u8,
        (((pts << 1) & 0xFE) as u8) | 1,
    ]
}

/// An MPEG-2 pack header and one private-stream-1 packet carrying `unit`.
fn ps_packet(ms: u32, unit: &[u8]) -> Vec<u8> {
    let mut out = vec![0x00, 0x00, 0x01, 0xBA, 0x44, 0, 4, 0, 4, 1, 1, 0x89, 0xC3, 0xF8];
    out.extend_from_slice(&[0x00, 0x00, 0x01, 0xBD]);
    let pes_len = (3 + 5 + 1 + unit.len()) as u16;
    out.extend_from_slice(&pes_len.to_be_bytes());
    out.extend_from_slice(&[0x81, 0x80, 0x05]);
    out.extend_from_slice(&pts_bytes(ms));
    out.push(0x20);
    out.extend_from_slice(unit);
    out
}

/// One field of `lines` lines, each `width` pixels of colour `c` (16-bit codes).
fn solid_field(lines: usize, width: u16, c: u16) -> Vec<u8> {
    let code = (width << 2) | c;
    let mut out = Vec::new();
    for _ in 0..lines {
        out.extend_from_slice(&code.to_be_bytes());
    }
    out
}

fn red_idx(entries: &[(u32, usize)]) -> String {
    let mut s = String::from("size: 720x576\npalette: 000000, ff0000, 00ff00, 0000ff, 000000, 000000, 000000, 000000, 000000, 000000, 000000, 000000, 000000, 000000, 000000, 000000\nid: en, index: 0\n");
    for &(ms, pos) in entries {
        let h = ms / 3_600_000;
        let m = ms / 60_000 % 60;
        let sec = ms / 1000 % 60;
        let milli = ms % 1000;
        s.push_str(&format!("timestamp: {:02}:{:02}:{:02}:{:03}, filepos: {:09X}\n", h, m, sec, milli, pos));
    }
    s
}

fn red_unit() -> Vec<u8> {
    spu(50, 400, 100, 20, &solid_field(10, 100, 1), &solid_field(10, 100, 1), false, None)
}

#[test]
fn vobsub_basic_render() {
    let sub = ps_packet(1000, &red_unit());
    let idx = red_idx(&[(1000, 0)]);
    let mut r = SubtitleRenderer::new();
    r.load_vobsub(&idx, &sub);
    assert_eq!(r.count(), 1);
    let frame = r.render_at_timestamp(1000).expect("a frame");
    assert_eq!(frame.composition_count(), 1);
    assert_eq!((frame.screen_width(), frame.screen_height()), (720, 576));
    assert_eq!((frame.get_composition_x(0), frame.get_composition_y(0)), (50, 400));
    assert_eq!((frame.get_composition_width(0), frame.get_composition_height(0)), (100, 20));
    let rgba = frame.get_composition_rgba(0);
    assert_eq!(rgba.len(), 100 * 20 * 4);
    assert!(rgba.chunks(4).all(|p| p == [255, 0, 0, 255]));
}

#[test]
fn vobsub_seek_with_default_trailing_window() {
    let first = ps_packet(1000, &red_unit());
    let second_pos = first.len();
    let mut sub = first;
    sub.extend(ps_packet(5500, &red_unit()));
    let idx = red_idx(&[(1000, 0), (5500, second_pos)]);
    let mut p = VobSubParser::new();
    p.load_from_data(&idx, &sub);
    assert_eq!(p.find_index_at_timestamp(999), -1);
    assert_eq!(p.find_index_at_timestamp(1000), 0);
    assert_eq!(p.find_index_at_timestamp(5499), 0);
    assert_eq!(p.find_index_at_timestamp(5500), 1);
    assert_eq!(p.find_index_at_timestamp(10499), 1);
    assert_eq!(p.find_index_at_timestamp(10501), -1);
}

#[test]
fn vobsub_gap_keeps_subtitle_until_next() {
    let first = ps_packet(1000, &red_unit());
    let second_pos = first.len();
    let mut sub = first;
    sub.extend(ps_packet(10000, &red_unit()));
    let idx = red_idx(&[(1000, 0), (10000, second_pos)]);
    let mut p = VobSubParser::new();
    p.load_from_data(&idx, &sub);
    assert_eq!(p.find_index_at_timestamp(6000), 0);
    assert_eq!(p.find_index_at_timestamp(9999), 0);
    assert_eq!(p.find_index_at_timestamp(10000), 1);
}

#[test]
fn explicit_stop_ends_display_early() {
    // delay 450 * 1024 / 90 = 5120 ms
    let unit = spu(0, 0, 4, 2, &[0x44], &[0x44], false, Some(450));
    let first = ps_packet(1000, &unit);
    let second_pos = first.len();
    let mut sub = first;
    sub.extend(ps_packet(20000, &red_unit()));
    let idx = red_idx(&[(1000, 0), (20000, second_pos)]);
    let mut p = VobSubParser::new();
    p.load_from_data(&idx, &sub);
    assert_eq!(p.find_index_at_timestamp(6119), 0);
    assert_eq!(p.find_index_at_timestamp(6120), -1);
}

#[test]
fn index_entries_are_sorted() {
    let idx = red_idx(&[(5000, 16), (1000, 0)]);
    let mut p = VobSubParser::new();
    p.load_from_data(&idx, &[]);
    assert_eq!(p.get_timestamps(), vec![1000, 5000]);
    assert_eq!(p.count(), 2);
    // no unit at either position
    assert!(p.render_at_index(0).is_none());
    assert!(p.render_at_index(2).is_none());
    p.dispose();
    assert_eq!(p.count(), 0);
}

#[test]
fn sub_only_scan_finds_units() {
    let mut sub = ps_packet(5500, &red_unit());
    sub.extend(ps_packet(1000, &red_unit()));
    let mut p = VobSubParser::new();
    p.load_from_sub_only(&sub);
    assert_eq!(p.get_timestamps(), vec![1000, 5500]);
    let f = p.render_at_index(0).unwrap();
    assert_eq!((f.screen_width(), f.screen_height()), (720, 480));
    assert_eq!((f.x(), f.y(), f.width(), f.height()), (50, 400, 100, 20));
    // grey-scale palette: code 1 is white
    assert_eq!(&f.get_rgba()[..4], &[255, 255, 255, 255]);
}

#[test]
fn self_referencing_block_ends_chain() {
    let unit = spu(10, 20, 4, 2, &[0x44], &[0x44], false, None);
    let p = parse_subtitle_data(&unit, 777).unwrap();
    assert_eq!(p.timestamp_ms, 777);
    assert_eq!(p.duration_ms, 5000);
    assert_eq!((p.x, p.y, p.width, p.height), (10, 20, 4, 2));
    assert_eq!(p.color_indices, [0, 1, 2, 3]);
    assert_eq!(p.alpha_values, [0, 15, 15, 15]);
    assert_eq!(p.even_field_data, vec![0x44]);
    assert_eq!(p.odd_field_data, vec![0x44]);
}

#[test]
fn stop_command_sets_duration() {
    let unit = spu(0, 0, 4, 2, &[0x44], &[0x44], false, Some(90));
    let p = parse_subtitle_data(&unit, 0).unwrap();
    assert_eq!(p.duration_ms, 1024);
}

#[test]
fn short_unit_is_rejected() {
    assert!(parse_subtitle_data(&[0, 4, 0], 0).is_none());
    let palette = VobSubPalette::default();
    assert!(parse_subtitle_packet(&[0, 0, 1, 0xBE, 0, 0], 0, &palette).is_none());
}

#[test]
fn packet_scan_reads_pts_and_unit() {
    let unit = red_unit();
    let sub = ps_packet(1234, &unit);
    let palette = VobSubPalette::default();
    let (p, end) = parse_subtitle_packet(&sub, 0, &palette).unwrap();
    assert_eq!(p.timestamp_ms, 1234);
    assert_eq!(end, sub.len());
    assert_eq!(p.width, 100);
}

fn packet(w: u16, h: u16, even: Vec<u8>, odd: Vec<u8>) -> SubtitlePacket {
    SubtitlePacket {
        timestamp_ms: 0,
        duration_ms: 5000,
        x: 0,
        y: 0,
        width: w,
        height: h,
        color_indices: [0, 1, 2, 3],
        alpha_values: [0, 15, 15, 15],
        even_field_data: even,
        odd_field_data: odd,
    }
}

#[test]
fn empty_odd_field_is_transparent() {
    // each even line: one 8-bit code, 4 pixels of colour 1; the odd field is empty
    let unit = spu(0, 0, 4, 4, &[0x11, 0x11], &[], false, None);
    let p = parse_subtitle_data(&unit, 0).unwrap();
    assert_eq!(p.even_field_data, vec![0x11, 0x11]);
    assert!(p.odd_field_data.is_empty());
    let rgba = decode_vobsub_rle(&p, &VobSubPalette::default());
    assert_eq!(rgba.len(), 4 * 4 * 4);
    for y in 0..4 {
        for x in 0..4 {
            let px = &rgba[(y * 4 + x) * 4..(y * 4 + x) * 4 + 4];
            if y % 2 == 1 {
                assert_eq!(px, &[0, 0, 0, 0]);
            } else {
                assert_eq!(px, &[255, 255, 255, 255]);
            }
        }
    }
}

#[test]
fn zero_bottom_offset_starts_odd_field_at_even_start() {
    let unit = spu(0, 0, 4, 4, &[0x11, 0x11], &[], true, None);
    let p = parse_subtitle_data(&unit, 0).unwrap();
    assert!(p.even_field_data.is_empty());
    assert_eq!(p.odd_field_data, vec![0x11, 0x11]);
}

#[test]
fn mixed_codes_on_one_line() {
    // 0x4: 1 px colour 0; 0x5: 1 px colour 1; 0x6: 1 px colour 2; rest of line colour 0
    let line_packet = packet(4, 2, vec![0x45, 0x60], vec![]);
    let line_rgba = decode_vobsub_rle(&line_packet, &VobSubPalette::default());
    assert_eq!(&line_rgba[0..4], &[0, 0, 0, 0]);
    assert_eq!(&line_rgba[4..8], &[255, 255, 255, 255]);
    assert_eq!(&line_rgba[8..12], &[0, 0, 0, 255]);
    assert!(line_rgba[12..].iter().all(|&b| b == 0));
}

#[test]
fn exhausted_field_fills_with_colour_zero() {
    // one code of 2 pixels of colour 1 (0x9), then the data ends mid-line
    let p = packet(4, 4, vec![0x90], vec![]);
    let mut palette = VobSubPalette::default();
    palette.rgba[0] = 0x11223344;
    let rgba = decode_vobsub_rle(&p, &palette);
    let px = |x: usize, y: usize| rgba[(y * 4 + x) * 4..(y * 4 + x) * 4 + 4].to_vec();
    assert_eq!(px(0, 0), vec![255, 255, 255, 255]);
    assert_eq!(px(1, 0), vec![255, 255, 255, 255]);
    assert_eq!(px(2, 0), vec![0x44, 0x33, 0x22, 0]);
    assert_eq!(px(3, 0), vec![0x44, 0x33, 0x22, 0]);
    for y in 1..4 {
        for x in 0..4 {
            assert_eq!(px(x, y), vec![0x44, 0x33, 0x22, 0]);
        }
    }
}

#[test]
fn empty_bitmap_decodes_to_nothing() {
    let p = packet(0, 5, vec![0x44], vec![]);
    assert!(decode_vobsub_rle(&p, &VobSubPalette::default()).is_empty());
}
