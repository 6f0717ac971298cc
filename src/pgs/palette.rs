//! Palette definition segments.
use vstd::prelude::*;
use crate::utils::{ycbcr_rgba, ycbcr_to_rgba, BigEndianReader};

verus! {

/// Up to 256 colours, indexed by entry id, packed with byte order R, G, B, A.
#[derive(Debug, Clone)]
pub struct PaletteDefinitionSegment {
    pub id: u8,
    pub version: u8,
    /// 256 colours; entries the segment does not set are 0 (transparent).
    pub rgba: Vec<u32>,
}

/// How many five-byte entries a palette segment of `length` bytes holds.
pub open spec fn palette_entry_count(length: int) -> int {
    (length - 2) / 5
}

/// The bytes a palette segment of `length` bytes is read from.
pub open spec fn palette_segment_size(length: int) -> int {
    2 + 5 * palette_entry_count(length)
}

/// The colour table after the first `n` entries from `base`: each entry is
/// `(entry id, Y, Cr, Cb, A)`, and a later entry for an id replaces an earlier one.
pub open spec fn palette_table(d: Seq<u8>, base: int, n: int) -> Seq<u32>
    decreases n,
{
    if n <= 0 {
        Seq::new(256, |_i: int| 0u32)
    } else {
        let e = base + 5 * (n - 1);
        palette_table(d, base, n - 1).update(
            d[e] as int,
            ycbcr_rgba(d[e + 1], d[e + 3], d[e + 2], d[e + 4]) as u32,
        )
    }
}

/// The segment at `p` is a palette segment of `length` bytes that the data holds.
pub open spec fn palette_segment_fits(d: Seq<u8>, p: int, length: int) -> bool {
    length >= 2 && p + palette_segment_size(length) <= d.len()
}

proof fn lemma_palette_table_len(d: Seq<u8>, base: int, n: int)
    ensures
        palette_table(d, base, n).len() == 256,
    decreases n,
{
    if n > 0 {
        lemma_palette_table_len(d, base, n - 1);
    }
}

impl PaletteDefinitionSegment {
    /// Reads the palette id, its version, then `(length - 2) / 5` entries
    /// `(entry id, Y, Cr, Cb, A)`, each stored converted to RGBA at its entry id.
    /// On failure the reader is left where it was.
    pub fn parse(reader: &mut BigEndianReader, length: usize) -> (r: Option<Self>)
        requires
            old(reader).wf(),
        ensures
            final(reader).wf(),
            palette_segment_fits(old(reader).bytes(), old(reader).pos(), length as int) ==> r.is_some() && ({
                let d = old(reader).bytes();
                let p = old(reader).pos();
                let s = r.unwrap();
                &&& s.id == d[p]
                &&& s.version == d[p + 1]
                &&& s.rgba@ == palette_table(d, p + 2, palette_entry_count(length as int))
                &&& final(reader).advanced(old(reader), palette_segment_size(length as int))
            }),
            !palette_segment_fits(old(reader).bytes(), old(reader).pos(), length as int) ==> r.is_none()
                && final(reader).advanced(old(reader), 0),
    {
        let ghost d = reader.bytes();
        let ghost p = reader.pos();
        if length < 2 {
            return None;
        }
        let count = (length - 2) / 5;
        if reader.remaining() < 2 || (reader.remaining() - 2) / 5 < count {
            return None;
        }
        let id = reader.read_u8().unwrap();
        let version = reader.read_u8().unwrap();
        let mut rgba: Vec<u32> = vec![0u32; 256];
        assert(rgba@ =~= palette_table(d, p + 2, 0));
        let mut k: usize = 0;
        while k < count
            invariant
                reader.wf(),
                reader.bytes() == d,
                p + 2 + 5 * count <= d.len(),
                k <= count,
                reader.pos() == p + 2 + 5 * k,
                rgba@ == palette_table(d, p + 2, k as int),
            decreases count - k,
        {
            proof {
                lemma_palette_table_len(d, p + 2, k as int);
            }
            let entry_id = reader.read_u8().unwrap();
            let y = reader.read_u8().unwrap();
            let cr = reader.read_u8().unwrap();
            let cb = reader.read_u8().unwrap();
            let a = reader.read_u8().unwrap();
            rgba.set(entry_id as usize, ycbcr_to_rgba(y, cb, cr, a));
            k = k + 1;
        }
        Some(PaletteDefinitionSegment { id, version, rgba })
    }

    /// A palette with id 0, version 0 and every colour transparent.
    pub fn empty() -> (r: Self)
        ensures
            r.id == 0,
            r.version == 0,
            r.rgba@ == Seq::new(256, |_i: int| 0u32),
    {
        let rgba = vec![0u32; 256];
        assert(rgba@ =~= Seq::new(256, |_i: int| 0u32));
        PaletteDefinitionSegment { id: 0, version: 0, rgba }
    }
}

} // verus!
