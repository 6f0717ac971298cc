use libbitsub::pgs::display_set::DisplaySet;
use libbitsub::pgs::parser::PgsParser;
use libbitsub::renderer::SubtitleRenderer;

fn be16(v: u16) -> [u8; 2] {
    v.to_be_bytes()
}

fn segment(pts: u32, kind: u8, payload: &[u8]) -> Vec<u8> {
    let mut out = vec![0x50, 0x47];
    out.extend_from_slice(&pts.to_be_bytes());
    out.extend_from_slice(&0u32.to_be_bytes());
    out.push(kind);
    out.extend_from_slice(&be16(payload.len() as u16));
    out.extend_from_slice(payload);
    out
}

fn composition(state: u8, palette_id: u8, objects: &[(u16, u16, u16)]) -> Vec<u8> {
    let mut p = Vec::new();
    p.extend_from_slice(&be16(1920));
    p.extend_from_slice(&be16(1080));
    p.push(0x10);
    p.extend_from_slice(&be16(1));
    p.push(state);
    p.push(0);
    p.push(palette_id);
    p.push(objects.len() as u8);
    for &(id, x, y) in objects {
        p.extend_from_slice(&be16(id));
        p.push(0);
        p.push(0);
        p.extend_from_slice(&be16(x));
        p.extend_from_slice(&be16(y));
    }
    p
}

fn window() -> Vec<u8> {
    let mut p = vec![1, 0];
    p.extend_from_slice(&be16(0));
    p.extend_from_slice(&be16(0));
    p.extend_from_slice(&be16(1920));
    p.extend_from_slice(&be16(1080));
    p
}

/// Palette `id`, version `version`, entries `(entry, Y, Cr, Cb, A)`.
fn palette(id: u8, version: u8, entries: &[(u8, u8, u8, u8, u8)]) -> Vec<u8> {
    let mut p = vec![id, version];
    for &(e, y, cr, cb, a) in entries {
        p.extend_from_slice(&[e, y, cr, cb, a]);
    }
    p
}

/// A 16 x 16 object of one colour, in one fragment.
fn solid_object(id: u16, color: u8) -> Vec<u8> {
    let mut rle = Vec::new();
    for _ in 0..16 {
        rle.extend_from_slice(&[0x00, 0x90, color, 0x00, 0x00]);
    }
    let mut p = Vec::new();
    p.extend_from_slice(&be16(id));
    p.push(0);
    p.push(0xC0);
    let total = (rle.len() + 4) as u32;
    p.extend_from_slice(&total.to_be_bytes()[1..]);
    p.extend_from_slice(&be16(16));
    p.extend_from_slice(&be16(16));
    p.extend_from_slice(&rle);
    p
}

fn end(pts: u32) -> Vec<u8> {
    segment(pts, 0x80, &[])
}

fn epoch_with_two_objects(pts: u32) -> Vec<u8> {
    let mut out = Vec::new();
    out.extend(segment(pts, 0x16, &composition(0x80, 0, &[(1, 100, 50), (2, 200, 50)])));
    out.extend(segment(pts, 0x17, &window()));
    out.extend(segment(pts, 0x14, &palette(0, 0, &[(1, 81, 240, 90, 255), (2, 41, 110, 240, 255)])));
    out.extend(segment(pts, 0x15, &solid_object(1, 1)));
    out.extend(segment(pts, 0x15, &solid_object(2, 2)));
    out.extend(end(pts));
    out
}

fn normal_set(pts: u32, objects: &[(u16, u16, u16)]) -> Vec<u8> {
    let mut out = Vec::new();
    out.extend(segment(pts, 0x16, &composition(0x00, 0, objects)));
    out.extend(end(pts));
    out
}

fn second_epoch(pts: u32) -> Vec<u8> {
    let mut out = Vec::new();
    out.extend(segment(pts, 0x16, &composition(0x80, 0, &[(3, 300, 400)])));
    out.extend(segment(pts, 0x17, &window()));
    out.extend(segment(pts, 0x14, &palette(0, 1, &[(1, 235, 128, 128, 200)])));
    out.extend(segment(pts, 0x15, &solid_object(3, 1)));
    out.extend(end(pts));
    out
}

#[test]
fn single_epoch_two_object_frame() {
    let data = epoch_with_two_objects(90_000);
    let mut parser = PgsParser::new();
    assert_eq!(parser.parse(&data), 1);
    assert_eq!(parser.get_timestamps(), vec![1000]);
    let frame = parser.render_at_index(0).expect("a frame");
    assert_eq!(frame.width(), 1920);
    assert_eq!(frame.height(), 1080);
    assert_eq!(frame.composition_count(), 2);
    let a = frame.get_composition(0).unwrap();
    let b = frame.get_composition(1).unwrap();
    assert_eq!((a.x(), a.y(), a.width(), a.height()), (100, 50, 16, 16));
    assert_eq!((b.x(), b.y(), b.width(), b.height()), (200, 50, 16, 16));
    let ra = a.get_rgba();
    assert_eq!(ra.len(), 16 * 16 * 4);
    assert_eq!(&ra[..4], &[238, 14, 14, 255]);
    assert!(ra.chunks(4).all(|p| p == [238, 14, 14, 255]));
    let rb = b.get_rgba();
    assert_eq!(rb[3], 255);
    assert_ne!(&rb[..4], &ra[..4]);
    assert!(frame.get_composition(2).is_none());
}

#[test]
fn seek_across_epochs_is_repeatable() {
    let mut data = epoch_with_two_objects(90_000);
    data.extend(normal_set(180_000, &[(1, 100, 60)]));
    data.extend(normal_set(270_000, &[]));
    data.extend(second_epoch(360_000));
    let mut parser = PgsParser::new();
    assert_eq!(parser.parse(&data), 4);
    let first = parser.render_at_index(3).expect("frame 3");
    let earlier = parser.render_at_index(0).expect("frame 0");
    let again = parser.render_at_index(3).expect("frame 3 again");
    assert_eq!(first.composition_count(), 1);
    assert_eq!(again.composition_count(), 1);
    let c1 = first.get_composition(0).unwrap();
    let c2 = again.get_composition(0).unwrap();
    assert_eq!((c1.x(), c1.y()), (300, 400));
    assert_eq!((c2.x(), c2.y()), (300, 400));
    assert_eq!(c1.get_rgba(), c2.get_rgba());
    assert_eq!(&c1.get_rgba()[..4], &[235, 235, 235, 200]);
    assert_eq!(earlier.composition_count(), 2);
    // display set 1 reuses the objects of its epoch at a new place
    let moved = parser.render_at_index(1).expect("frame 1");
    assert_eq!(moved.composition_count(), 1);
    assert_eq!(moved.get_composition(0).unwrap().y(), 60);
    // an empty composition clears the screen
    assert!(parser.render_at_index(2).is_none());
    assert!(parser.render_at_index(4).is_none());
}

#[test]
fn stream_recovers_after_corrupt_bytes() {
    let mut data = epoch_with_two_objects(90_000);
    data.extend_from_slice(&[0xDE, 0xAD, 0x50, 0x00, 0x47, 0xBE, 0xEF]);
    data.extend(second_epoch(450_000));
    let mut parser = PgsParser::new();
    assert_eq!(parser.parse(&data), 2);
    assert_eq!(parser.get_timestamps(), vec![1000, 5000]);
}

#[test]
fn missing_palette_gives_no_frame() {
    let mut data = Vec::new();
    data.extend(segment(900, 0x16, &composition(0x80, 5, &[(1, 0, 0)])));
    data.extend(segment(900, 0x15, &solid_object(1, 1)));
    data.extend(end(900));
    let mut parser = PgsParser::new();
    assert_eq!(parser.parse(&data), 1);
    assert!(parser.render_at_index(0).is_none());
}

#[test]
fn missing_object_is_skipped() {
    let mut data = Vec::new();
    data.extend(segment(900, 0x16, &composition(0x80, 0, &[(7, 0, 0), (1, 5, 6)])));
    data.extend(segment(900, 0x14, &palette(0, 0, &[(1, 81, 240, 90, 255)])));
    data.extend(segment(900, 0x15, &solid_object(1, 1)));
    data.extend(end(900));
    let mut parser = PgsParser::new();
    parser.parse(&data);
    let frame = parser.render_at_index(0).unwrap();
    assert_eq!(frame.composition_count(), 1);
    assert_eq!(frame.get_composition(0).unwrap().x(), 5);
}

#[test]
fn display_set_parse_reads_segments() {
    let data = epoch_with_two_objects(90_000);
    let (ds, consumed) = DisplaySet::parse(&data, true).unwrap();
    assert_eq!(consumed, data.len());
    assert_eq!(ds.pts, 90_000);
    assert_eq!(ds.pts_ms(), 1000);
    assert_eq!(ds.palettes.len(), 1);
    assert_eq!(ds.objects.len(), 2);
    assert_eq!(ds.windows.len(), 1);
    let c = ds.composition.as_ref().unwrap();
    assert!(c.is_epoch_start());
    assert!(!c.is_acquisition_point());
    assert_eq!(c.composition_objects.len(), 2);
    assert!(ds.find_palette(0).is_some());
    assert!(ds.find_palette(1).is_none());
    assert_eq!(ds.find_window(0).unwrap().width, 1920);
    assert!(ds.objects[0].is_first_in_sequence());
    assert!(ds.objects[0].is_last_in_sequence());
    assert_eq!(ds.palettes[0].rgba[1].to_le_bytes(), [238, 14, 14, 255]);
}

#[test]
fn display_set_parse_rejects_bad_magic() {
    let mut data = epoch_with_two_objects(90_000);
    data[0] = 0x51;
    assert!(DisplaySet::parse(&data, true).is_none());
    assert!(DisplaySet::parse(&data[..20], true).is_none());
}

#[test]
fn truncated_segment_is_skipped() {
    let mut data = Vec::new();
    // a palette segment of 4 bytes cannot hold an entry: skipped, set kept
    data.extend(segment(900, 0x14, &[0, 0, 1, 2]));
    // an object continuation of 3 bytes is too short to parse
    data.extend(segment(900, 0x15, &[0, 1, 0]));
    data.extend(segment(900, 0x42, &[1, 2, 3]));
    data.extend(end(900));
    let (ds, _) = DisplaySet::parse(&data, true).unwrap();
    assert_eq!(ds.palettes.len(), 1);
    assert_eq!(ds.palettes[0].rgba, vec![0u32; 256]);
    assert_eq!(ds.objects.len(), 0);
    assert!(ds.composition.is_none());
}

#[test]
fn renderer_dispatches_pgs() {
    let data = epoch_with_two_objects(90_000);
    let mut r = SubtitleRenderer::new();
    assert_eq!(r.count(), 0);
    assert_eq!(r.load_pgs(&data), 1);
    assert_eq!(r.count(), 1);
    assert_eq!(r.get_timestamps(), vec![1000]);
    assert_eq!(r.find_index_at_timestamp(5000), 0);
    let res = r.render_at_timestamp(1000).unwrap();
    assert_eq!(res.composition_count(), 2);
    assert_eq!(res.screen_width(), 1920);
    assert_eq!(res.get_composition_x(1), 200);
    assert_eq!(res.get_composition_width(0), 16);
    assert_eq!(res.get_composition_rgba(0).len(), 1024);
    assert_eq!(res.get_composition_rgba(5).len(), 0);
    r.clear_cache();
    r.dispose();
    assert!(r.format().is_none());
    assert!(r.render_at_index(0).is_none());
}
