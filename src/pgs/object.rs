//! Object definition segments and the objects assembled from them.
use vstd::prelude::*;
use crate::utils::{be16, be24, BigEndianReader};

verus! {

/// One fragment of an object's run-length bitmap.
#[derive(Debug, Clone)]
pub struct ObjectDefinitionSegment {
    pub id: u16,
    pub version: u8,
    /// Bit 7: first fragment; bit 6: last fragment.
    pub sequence_flag: u8,
    /// Total run-length size (first fragments only, else 0).
    pub data_length: u32,
    /// Size in pixels (first fragments only, else 0).
    pub width: u16,
    pub height: u16,
    pub data: Vec<u8>,
}

/// The fragment at `p` opens an object (bit 7 of its flags).
pub open spec fn ods_is_first(d: Seq<u8>, p: int) -> bool {
    d[p + 3] >= 0x80
}

/// The segment at `p` is an object fragment of `length` bytes that the data holds.
pub open spec fn ods_fits(d: Seq<u8>, p: int, length: int) -> bool {
    &&& p + 4 <= d.len()
    &&& p + length <= d.len()
    &&& length >= if ods_is_first(d, p) {
        11int
    } else {
        4int
    }
}

/// `s` is the fragment of `length` bytes at `p`.
pub open spec fn is_ods_at(d: Seq<u8>, p: int, length: int, s: ObjectDefinitionSegment) -> bool {
    &&& s.id == be16(d, p)
    &&& s.version == d[p + 2]
    &&& s.sequence_flag == d[p + 3]
    &&& if ods_is_first(d, p) {
        &&& s.data_length == be24(d, p + 4)
        &&& s.width == be16(d, p + 7)
        &&& s.height == be16(d, p + 9)
        &&& s.data@ == d.subrange(p + 11, p + length)
    } else {
        &&& s.data_length == 0
        &&& s.width == 0
        &&& s.height == 0
        &&& s.data@ == d.subrange(p + 4, p + length)
    }
}

impl ObjectDefinitionSegment {
    /// Reads id, version and flags; a first fragment then has its total
    /// length, width and height; the rest of the `length` bytes is bitmap data.
    /// On failure the reader is left where it was.
    pub fn parse(reader: &mut BigEndianReader, length: usize) -> (r: Option<Self>)
        requires
            old(reader).wf(),
        ensures
            final(reader).wf(),
            ods_fits(old(reader).bytes(), old(reader).pos(), length as int) ==> r.is_some() && is_ods_at(
                old(reader).bytes(),
                old(reader).pos(),
                length as int,
                r.unwrap(),
            ) && final(reader).advanced(old(reader), length as int),
            !ods_fits(old(reader).bytes(), old(reader).pos(), length as int) ==> r.is_none()
                && final(reader).advanced(old(reader), 0),
    {
        let ghost d = reader.bytes();
        let ghost p = reader.pos();
        let start = reader.position();
        if reader.remaining() < 4 || reader.remaining() < length {
            return None;
        }
        let id = reader.read_u16().unwrap();
        let version = reader.read_u8().unwrap();
        let sequence_flag = reader.read_u8().unwrap();
        if sequence_flag >= 0x80 {
            if length < 11 {
                reader.set_position(start);
                return None;
            }
            let data_length = reader.read_u24().unwrap();
            let width = reader.read_u16().unwrap();
            let height = reader.read_u16().unwrap();
            let data = reader.read_bytes(length - 11).unwrap();
            Some(ObjectDefinitionSegment { id, version, sequence_flag, data_length, width, height, data })
        } else {
            if length < 4 {
                reader.set_position(start);
                return None;
            }
            let data = reader.read_bytes(length - 4).unwrap();
            Some(ObjectDefinitionSegment { id, version, sequence_flag, data_length: 0, width: 0, height: 0, data })
        }
    }

    pub fn is_first_in_sequence(&self) -> (r: bool)
        ensures
            r == (self.sequence_flag >= 0x80),
    {
        self.sequence_flag >= 0x80
    }

    pub fn is_last_in_sequence(&self) -> (r: bool)
        ensures
            r == (self.sequence_flag % 128 >= 0x40),
    {
        self.sequence_flag % 128 >= 0x40
    }
}

/// A whole object: a first fragment and its continuations, joined.
#[derive(Debug, Clone)]
pub struct AssembledObject {
    pub id: u16,
    pub version: u8,
    pub width: u16,
    pub height: u16,
    pub data: Vec<u8>,
}

/// The bitmap data of fragments `segs`, joined in order.
pub open spec fn joined_data(segs: Seq<ObjectDefinitionSegment>) -> Seq<u8>
    decreases segs.len(),
{
    if segs.len() == 0 {
        Seq::empty()
    } else {
        joined_data(segs.drop_last()) + segs.last().data@
    }
}

impl AssembledObject {
    /// Joins fragments that begin with a first fragment; `None` otherwise.
    /// Id, version and size come from the first fragment.
    pub fn from_segments(segments: &[ObjectDefinitionSegment]) -> (r: Option<Self>)
        ensures
            segments@.len() == 0 || segments@[0].sequence_flag < 0x80 <==> r.is_none(),
            r matches Some(o) ==> o.id == segments@[0].id && o.version == segments@[0].version && o.width
                == segments@[0].width && o.height == segments@[0].height && o.data@ == joined_data(segments@),
    {
        if segments.len() == 0 {
            return None;
        }
        let first = &segments[0];
        if !first.is_first_in_sequence() {
            return None;
        }
        let mut data: Vec<u8> = Vec::new();
        let mut k: usize = 0;
        while k < segments.len()
            invariant
                k <= segments@.len(),
                data@ == joined_data(segments@.subrange(0, k as int)),
            decreases segments@.len() - k,
        {
            let part = &segments[k];
            let ghost before = data@;
            let mut i: usize = 0;
            while i < part.data.len()
                invariant
                    i <= part.data@.len(),
                    data@ == before + part.data@.subrange(0, i as int),
                decreases part.data@.len() - i,
            {
                data.push(part.data[i]);
                i = i + 1;
                assert(data@ =~= before + part.data@.subrange(0, i as int));
            }
            assert(segments@.subrange(0, k + 1).drop_last() =~= segments@.subrange(0, k as int));
            assert(part.data@.subrange(0, i as int) =~= part.data@);
            k = k + 1;
        }
        assert(segments@.subrange(0, k as int) =~= segments@);
        Some(AssembledObject { id: first.id, version: first.version, width: first.width, height: first.height, data })
    }
}

} // verus!
