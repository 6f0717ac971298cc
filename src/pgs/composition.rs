//! Presentation composition segments: what a display set shows, and where.
use vstd::prelude::*;
use crate::pgs::segment::{CompositionState, ACQUISITION_POINT, EPOCH_START};
use crate::utils::{be16, BigEndianReader};

verus! {

/// One object placed on screen.
#[derive(Debug, Clone, Copy, Default)]
pub struct CompositionObject {
    pub object_id: u16,
    pub window_id: u8,
    /// Bit 7: a cropping rectangle follows.
    pub cropped_flag: u8,
    /// Absolute screen position.
    pub x: u16,
    pub y: u16,
    /// The cropping rectangle (0 when absent). Read, not applied.
    pub crop_x: u16,
    pub crop_y: u16,
    pub crop_width: u16,
    pub crop_height: u16,
}

impl CompositionObject {
    pub fn has_cropping(&self) -> (r: bool)
        ensures
            r == (self.cropped_flag >= 0x80),
    {
        self.cropped_flag >= 0x80
    }
}

/// The screen size, the composition state and the objects of a display set.
#[derive(Debug, Clone)]
pub struct PresentationCompositionSegment {
    pub width: u16,
    pub height: u16,
    pub frame_rate: u8,
    pub composition_number: u16,
    /// 0x00 normal, 0x40 acquisition point, 0x80 epoch start.
    pub composition_state: u8,
    /// Bit 7: only the palette changes. Read, not acted on.
    pub palette_update_flag: u8,
    pub palette_id: u8,
    pub composition_objects: Vec<CompositionObject>,
}

/// The bytes that the composition object at `q` takes: 16 with cropping, else 8.
pub open spec fn object_size(d: Seq<u8>, q: int) -> int {
    if q + 4 <= d.len() && d[q + 3] >= 0x80 {
        16
    } else {
        8
    }
}

/// Where composition object `k` starts, the first at `base`.
pub open spec fn object_offset(d: Seq<u8>, base: int, k: int) -> int
    decreases k,
{
    if k <= 0 {
        base
    } else {
        object_offset(d, base, k - 1) + object_size(d, object_offset(d, base, k - 1))
    }
}

/// The composition object at `q`.
pub open spec fn object_at(d: Seq<u8>, q: int) -> CompositionObject {
    let cropped = d[q + 3] >= 0x80;
    CompositionObject {
        object_id: be16(d, q) as u16,
        window_id: d[q + 2],
        cropped_flag: d[q + 3],
        x: be16(d, q + 4) as u16,
        y: be16(d, q + 6) as u16,
        crop_x: if cropped { be16(d, q + 8) as u16 } else { 0 },
        crop_y: if cropped { be16(d, q + 10) as u16 } else { 0 },
        crop_width: if cropped { be16(d, q + 12) as u16 } else { 0 },
        crop_height: if cropped { be16(d, q + 14) as u16 } else { 0 },
    }
}

/// The bytes a composition segment at `p` takes: an 11-byte header and its objects.
pub open spec fn composition_size(d: Seq<u8>, p: int) -> int {
    object_offset(d, p + 11, d[p + 10] as int) - p
}

/// The data holds the whole composition segment at `p`.
pub open spec fn composition_fits(d: Seq<u8>, p: int) -> bool {
    p + 11 <= d.len() && p + composition_size(d, p) <= d.len()
}

/// `s` is the composition segment at `p`.
pub open spec fn is_composition_at(d: Seq<u8>, p: int, s: PresentationCompositionSegment) -> bool {
    &&& s.width == be16(d, p)
    &&& s.height == be16(d, p + 2)
    &&& s.frame_rate == d[p + 4]
    &&& s.composition_number == be16(d, p + 5)
    &&& s.composition_state == d[p + 7]
    &&& s.palette_update_flag == d[p + 8]
    &&& s.palette_id == d[p + 9]
    &&& s.composition_objects@.len() == d[p + 10]
    &&& forall|k: int|
        0 <= k < d[p + 10] ==> s.composition_objects@[k] == object_at(d, object_offset(d, p + 11, k))
}

proof fn lemma_offsets_grow(d: Seq<u8>, base: int, j: int, k: int)
    requires
        0 <= j <= k,
    ensures
        object_offset(d, base, j) + 8 * (k - j) <= object_offset(d, base, k),
    decreases k - j,
{
    if j < k {
        lemma_offsets_grow(d, base, j, k - 1);
    }
}

impl PresentationCompositionSegment {
    /// Reads the header (screen size, frame rate, number, state, palette
    /// flag and id, object count) and each composition object, with its
    /// cropping rectangle when bit 7 of its flag is set. On failure the reader
    /// is left where it was.
    pub fn parse(reader: &mut BigEndianReader, _length: usize) -> (r: Option<Self>)
        requires
            old(reader).wf(),
        ensures
            final(reader).wf(),
            composition_fits(old(reader).bytes(), old(reader).pos()) ==> r.is_some() && is_composition_at(
                old(reader).bytes(),
                old(reader).pos(),
                r.unwrap(),
            ) && final(reader).advanced(old(reader), composition_size(old(reader).bytes(), old(reader).pos())),
            !composition_fits(old(reader).bytes(), old(reader).pos()) ==> r.is_none()
                && final(reader).advanced(old(reader), 0),
    {
        let ghost d = reader.bytes();
        let ghost p = reader.pos();
        let start = reader.position();
        if reader.remaining() < 11 {
            return None;
        }
        let width = reader.read_u16().unwrap();
        let height = reader.read_u16().unwrap();
        let frame_rate = reader.read_u8().unwrap();
        let composition_number = reader.read_u16().unwrap();
        let composition_state = reader.read_u8().unwrap();
        let palette_update_flag = reader.read_u8().unwrap();
        let palette_id = reader.read_u8().unwrap();
        let count = reader.read_u8().unwrap() as usize;
        let mut composition_objects: Vec<CompositionObject> = Vec::new();
        let mut k: usize = 0;
        while k < count
            invariant
                reader.wf(),
                reader.bytes() == d,
                p + 11 <= d.len(),
                count == d[p + 10],
                k <= count,
                reader.pos() == object_offset(d, p + 11, k as int),
                composition_objects@.len() == k,
                forall|j: int|
                    0 <= j < k ==> composition_objects@[j] == object_at(d, object_offset(d, p + 11, j)),
                start == p,
                d == old(reader).bytes(),
                p == old(reader).pos(),
            decreases count - k,
        {
            let ghost q = reader.pos();
            proof {
                lemma_offsets_grow(d, p + 11, k + 1, count as int);
            }
            if reader.remaining() < 8 {
                proof {
                    assert(object_offset(d, p + 11, k + 1) == q + object_size(d, q));
                }
                reader.set_position(start);
                return None;
            }
            let object_id = reader.read_u16().unwrap();
            let window_id = reader.read_u8().unwrap();
            let cropped_flag = reader.read_u8().unwrap();
            let x = reader.read_u16().unwrap();
            let y = reader.read_u16().unwrap();
            let mut crop_x: u16 = 0;
            let mut crop_y: u16 = 0;
            let mut crop_width: u16 = 0;
            let mut crop_height: u16 = 0;
            if cropped_flag >= 0x80 {
                if reader.remaining() < 8 {
                    reader.set_position(start);
                    return None;
                }
                crop_x = reader.read_u16().unwrap();
                crop_y = reader.read_u16().unwrap();
                crop_width = reader.read_u16().unwrap();
                crop_height = reader.read_u16().unwrap();
            }
            composition_objects.push(
                CompositionObject {
                    object_id,
                    window_id,
                    cropped_flag,
                    x,
                    y,
                    crop_x,
                    crop_y,
                    crop_width,
                    crop_height,
                },
            );
            k = k + 1;
        }
        Some(
            PresentationCompositionSegment {
                width,
                height,
                frame_rate,
                composition_number,
                composition_state,
                palette_update_flag,
                palette_id,
                composition_objects,
            },
        )
    }

    /// The composition state, or `None` when the byte is none of the three.
    pub fn get_composition_state(&self) -> (r: Option<CompositionState>)
        ensures
            self.composition_state == 0x00 <==> r == Some(CompositionState::Normal),
            self.composition_state == 0x40 <==> r == Some(CompositionState::AcquisitionPoint),
            self.composition_state == 0x80 <==> r == Some(CompositionState::EpochStart),
    {
        match CompositionState::try_from_u8(self.composition_state) {
            Ok(s) => Some(s),
            Err(_) => None,
        }
    }

    pub fn is_epoch_start(&self) -> (r: bool)
        ensures
            r == (self.composition_state == EPOCH_START),
    {
        self.composition_state == EPOCH_START
    }

    pub fn is_acquisition_point(&self) -> (r: bool)
        ensures
            r == (self.composition_state == ACQUISITION_POINT),
    {
        self.composition_state == ACQUISITION_POINT
    }

    pub fn is_palette_update_only(&self) -> (r: bool)
        ensures
            r == (self.palette_update_flag >= 0x80),
    {
        self.palette_update_flag >= 0x80
    }
}

} // verus!
