//! Display sets: the segments between two end segments, read from a stream.
use vstd::prelude::*;
use crate::pgs::composition::{composition_fits, composition_size, is_composition_at, PresentationCompositionSegment};
use crate::pgs::object::{is_ods_at, ods_fits, ObjectDefinitionSegment};
use crate::pgs::palette::{
    palette_entry_count, palette_segment_fits, palette_segment_size, palette_table, PaletteDefinitionSegment,
};
use crate::pgs::window::{window_segment, window_segment_size, WindowDefinition, WindowDefinitionSegment};
use crate::utils::{be16, be32, BigEndianReader};

verus! {

/// All segments of one subtitle update.
#[derive(Debug, Clone)]
pub struct DisplaySet {
    /// Presentation timestamp, 90 kHz.
    pub pts: u32,
    /// Decoding timestamp, 90 kHz.
    pub dts: u32,
    pub composition: Option<PresentationCompositionSegment>,
    pub palettes: Vec<PaletteDefinitionSegment>,
    pub objects: Vec<ObjectDefinitionSegment>,
    pub windows: Vec<WindowDefinitionSegment>,
}

/// One segment as the stream frames it.
pub struct SegmentRecord {
    /// The tag byte.
    pub kind: u8,
    /// Where its payload starts.
    pub body: int,
    /// Its declared payload size.
    pub size: int,
    /// The timestamps of the header in front of it (0 without headers).
    pub pts: u32,
    pub dts: u32,
}

/// The PGS magic `PG`.
pub const PGS_MAGIC: u16 = 0x5047;

/// Segment `r` is of a known payload kind and its parser succeeds on it.
pub open spec fn segment_parses(d: Seq<u8>, r: SegmentRecord) -> bool {
    if r.kind == 0x14 {
        palette_segment_fits(d, r.body, r.size)
    } else if r.kind == 0x15 {
        ods_fits(d, r.body, r.size)
    } else if r.kind == 0x16 {
        composition_fits(d, r.body)
    } else if r.kind == 0x17 {
        window_segment(d, r.body).is_some()
    } else {
        false
    }
}

/// How many bytes of its payload the parser of segment `r` reads (0 when the
/// segment does not parse, or is of an unknown kind).
pub open spec fn consumed(d: Seq<u8>, r: SegmentRecord) -> int {
    if r.kind == 0x14 {
        if palette_segment_fits(d, r.body, r.size) { palette_segment_size(r.size) } else { 0 }
    } else if r.kind == 0x15 {
        if ods_fits(d, r.body, r.size) { r.size } else { 0 }
    } else if r.kind == 0x16 {
        if composition_fits(d, r.body) { composition_size(d, r.body) } else { 0 }
    } else if r.kind == 0x17 {
        if window_segment(d, r.body).is_some() { window_segment_size(d, r.body) } else { 0 }
    } else {
        r.size
    }
}

/// The segment whose header starts at `pos`, when the data frames it whole.
pub open spec fn record_at(d: Seq<u8>, pos: int, header: bool) -> Option<SegmentRecord> {
    let h = if header { 10int } else { 0int };
    if header && (pos + 10 > d.len() || be16(d, pos) != PGS_MAGIC) {
        None
    } else if pos + h + 3 > d.len() {
        None
    } else {
        let body = pos + h + 3;
        let size = be16(d, pos + h + 1);
        if d.len() - body < size {
            None
        } else {
            Some(
                SegmentRecord {
                    kind: d[pos + h],
                    body,
                    size,
                    pts: if header { be32(d, pos + 2) as u32 } else { 0 },
                    dts: if header { be32(d, pos + 6) as u32 } else { 0 },
                },
            )
        }
    }
}

/// The segments of the display set from `pos` up to and including its end
/// segment; `None` when the data breaks off first.
pub open spec fn records_from(d: Seq<u8>, pos: int, header: bool) -> Option<Seq<SegmentRecord>>
    decreases d.len() - pos,
{
    if pos < 0 || pos > d.len() {
        None
    } else {
        match record_at(d, pos, header) {
            None => None,
            Some(r) => if r.kind == 0x80 {
                Some(seq![r])
            } else {
                let c = consumed(d, r);
                let next = r.body + if c > r.size { c } else { r.size };
                if next <= pos || next > d.len() {
                    None
                } else {
                    match records_from(d, next, header) {
                        Some(rest) => Some(seq![r] + rest),
                        None => None,
                    }
                }
            },
        }
    }
}

/// The records among `rs` of kind `kind` whose segment parses.
pub open spec fn parsed_of_kind(d: Seq<u8>, rs: Seq<SegmentRecord>, kind: u8) -> Seq<SegmentRecord>
    decreases rs.len(),
{
    if rs.len() == 0 {
        Seq::empty()
    } else {
        let r = rs.last();
        let rest = parsed_of_kind(d, rs.drop_last(), kind);
        if r.kind == kind && segment_parses(d, r) {
            rest.push(r)
        } else {
            rest
        }
    }
}

/// The timestamps of a display set after its records `rs`: the first header
/// fills them while they are 0, and a composition segment that parses sets
/// them from its own header.
pub open spec fn set_times(d: Seq<u8>, rs: Seq<SegmentRecord>) -> (u32, u32)
    decreases rs.len(),
{
    if rs.len() == 0 {
        (0, 0)
    } else {
        let r = rs.last();
        let (pts_before, dts_before) = set_times(d, rs.drop_last());
        let (pts_now, dts_now) = if pts_before == 0 { (r.pts, r.dts) } else { (pts_before, dts_before) };
        if r.kind == 0x16 && segment_parses(d, r) {
            (r.pts, r.dts)
        } else {
            (pts_now, dts_now)
        }
    }
}

/// `ds` holds what the records `rs` of `d` describe.
pub open spec fn is_display_set_of(d: Seq<u8>, rs: Seq<SegmentRecord>, ds: DisplaySet) -> bool {
    &&& (ds.pts, ds.dts) == set_times(d, rs)
    &&& segments_match(d, rs, ds)
}

/// The segments of `ds` are those that the records `rs` of `d` describe.
pub open spec fn segments_match(d: Seq<u8>, rs: Seq<SegmentRecord>, ds: DisplaySet) -> bool {
    let pals = parsed_of_kind(d, rs, 0x14);
    let objs = parsed_of_kind(d, rs, 0x15);
    let comps = parsed_of_kind(d, rs, 0x16);
    let wins = parsed_of_kind(d, rs, 0x17);
    &&& ds.palettes@.len() == pals.len()
    &&& forall|j: int|
        0 <= j < pals.len() ==> {
            let r = #[trigger] pals[j];
            &&& ds.palettes@[j].id == d[r.body]
            &&& ds.palettes@[j].version == d[r.body + 1]
            &&& ds.palettes@[j].rgba@ == palette_table(d, r.body + 2, palette_entry_count(r.size))
        }
    &&& ds.objects@.len() == objs.len()
    &&& forall|j: int| 0 <= j < objs.len() ==> is_ods_at(d, objs[j].body, objs[j].size, #[trigger] ds.objects@[j])
    &&& ds.windows@.len() == wins.len()
    &&& forall|j: int|
        0 <= j < wins.len() ==> Some(#[trigger] ds.windows@[j].windows@) == window_segment(d, wins[j].body)
    &&& comps.len() == 0 ==> ds.composition.is_none()
    &&& comps.len() > 0 ==> (ds.composition matches Some(c) && is_composition_at(d, comps.last().body, c))
}

proof fn lemma_parsed_push(d: Seq<u8>, rs: Seq<SegmentRecord>, r: SegmentRecord, kind: u8)
    ensures
        parsed_of_kind(d, rs.push(r), kind) == if r.kind == kind && segment_parses(d, r) {
            parsed_of_kind(d, rs, kind).push(r)
        } else {
            parsed_of_kind(d, rs, kind)
        },
{
    assert(rs.push(r).drop_last() =~= rs);
}

/// Reads the payload of segment `r` (not an end segment) into `ds`, and moves
/// the reader to the end of the payload or past what the parser read.
fn add_segment(
    reader: &mut BigEndianReader,
    ds: &mut DisplaySet,
    segment_type: u8,
    segment_size: usize,
    pts: u32,
    dts: u32,
    Ghost(done): Ghost<Seq<SegmentRecord>>,
    Ghost(r): Ghost<SegmentRecord>,
)
    requires
        old(reader).wf(),
        r.kind == segment_type,
        segment_type != 0x80,
        r.size == segment_size,
        r.pts == pts,
        r.dts == dts,
        r.body == old(reader).pos(),
        r.body + r.size <= old(reader).bytes().len(),
        segments_match(old(reader).bytes(), done, *old(ds)),
        (old(ds).pts, old(ds).dts) == if set_times(old(reader).bytes(), done).0 == 0 {
            (r.pts, r.dts)
        } else {
            set_times(old(reader).bytes(), done)
        },
    ensures
        final(reader).wf(),
        final(reader).bytes() == old(reader).bytes(),
        final(reader).pos() == r.body + if consumed(old(reader).bytes(), r) > r.size {
            consumed(old(reader).bytes(), r)
        } else {
            r.size
        },
        is_display_set_of(old(reader).bytes(), done.push(r), *final(ds)),
{
    let ghost d = reader.bytes();
    proof {
        lemma_parsed_push(d, done, r, 0x14);
        lemma_parsed_push(d, done, r, 0x15);
        lemma_parsed_push(d, done, r, 0x16);
        lemma_parsed_push(d, done, r, 0x17);
        assert(done.push(r).drop_last() =~= done);
    }
    let start_pos = reader.position();
    if segment_type == 0x14 {
        match PaletteDefinitionSegment::parse(reader, segment_size) {
            Some(palette) => {
                ds.palettes.push(palette);
            },
            None => {},
        }
    } else if segment_type == 0x15 {
        match ObjectDefinitionSegment::parse(reader, segment_size) {
            Some(object) => {
                ds.objects.push(object);
            },
            None => {},
        }
    } else if segment_type == 0x16 {
        match PresentationCompositionSegment::parse(reader, segment_size) {
            Some(composition) => {
                ds.pts = pts;
                ds.dts = dts;
                ds.composition = Some(composition);
            },
            None => {},
        }
    } else if segment_type == 0x17 {
        match WindowDefinitionSegment::parse(reader, segment_size) {
            Some(window) => {
                ds.windows.push(window);
            },
            None => {},
        }
    } else {
        reader.skip(segment_size);
    }
    let end = start_pos + segment_size;
    let now = reader.position();
    if now < end {
        reader.skip(end - now);
    }
}

impl DisplaySet {
    /// A display set with no segments and zero timestamps.
    pub fn new() -> (r: Self)
        ensures
            r.pts == 0,
            r.dts == 0,
            r.composition.is_none(),
            r.palettes@.len() == 0,
            r.objects@.len() == 0,
            r.windows@.len() == 0,
    {
        DisplaySet {
            pts: 0,
            dts: 0,
            composition: None,
            palettes: Vec::new(),
            objects: Vec::new(),
            windows: Vec::new(),
        }
    }

    /// Reads one display set from the start of `data`: segments, each after a
    /// 10-byte `PG` header when `include_header`, up to and including an end
    /// segment. A segment that does not parse is skipped; one of unknown kind
    /// too. Returns the display set and the bytes read; `None` when the data
    /// breaks off or a header is bad.
    pub fn parse(data: &[u8], include_header: bool) -> (r: Option<(Self, usize)>)
        ensures
            r.is_some() <==> records_from(data@, 0, include_header).is_some(),
            r matches Some((ds, n)) ==> ({
                let rs = records_from(data@, 0, include_header).unwrap();
                &&& is_display_set_of(data@, rs, ds)
                &&& n as int == rs.last().body
            }),
    {
        let ghost d = data@;
        let mut reader = BigEndianReader::new(data);
        let mut ds = DisplaySet::new();
        let ghost mut done: Seq<SegmentRecord> = Seq::empty();
        let len = data.len();
        assert(parsed_of_kind(d, done, 0x14) =~= Seq::<SegmentRecord>::empty());
        loop
            invariant
                d == data@,
                len == d.len(),
                reader.wf(),
                reader.bytes() == d,
                is_display_set_of(d, done, ds),
                records_from(d, 0, include_header) == match records_from(d, reader.pos(), include_header) {
                    Some(rest) => Some(done + rest),
                    None => None::<Seq<SegmentRecord>>,
                },
            decreases len - reader.pos(),
        {
            let pos = reader.position();
            let ghost rec = record_at(d, pos as int, include_header);
            let mut pts: u32 = 0;
            let mut dts: u32 = 0;
            if include_header {
                let magic = match reader.read_u16() {
                    Some(m) => m,
                    None => return None,
                };
                if magic != PGS_MAGIC {
                    return None;
                }
                pts = match reader.read_u32() {
                    Some(v) => v,
                    None => return None,
                };
                dts = match reader.read_u32() {
                    Some(v) => v,
                    None => return None,
                };
            }
            let segment_type = match reader.read_u8() {
                Some(t) => t,
                None => return None,
            };
            let segment_size = match reader.read_u16() {
                Some(v) => v as usize,
                None => return None,
            };
            if reader.remaining() < segment_size {
                return None;
            }
            let ghost r = rec.unwrap();
            assert(r.kind == segment_type && r.size == segment_size && r.pts == pts && r.dts == dts);
            if ds.pts == 0 {
                ds.pts = pts;
                ds.dts = dts;
            }
            if segment_type == 0x80 {
                proof {
                    lemma_parsed_push(d, done, r, 0x14);
                    lemma_parsed_push(d, done, r, 0x15);
                    lemma_parsed_push(d, done, r, 0x16);
                    lemma_parsed_push(d, done, r, 0x17);
                    assert(done.push(r).drop_last() =~= done);
                    done = done.push(r);
                    assert(records_from(d, pos as int, include_header) == Some(seq![r]));
                    assert(done =~= records_from(d, 0, include_header).unwrap());
                }
                return Some((ds, reader.position()));
            }
            add_segment(&mut reader, &mut ds, segment_type, segment_size, pts, dts, Ghost(done), Ghost(r));
            proof {
                done = done.push(r);
            }
        }
    }

    /// The presentation timestamp in milliseconds.
    pub fn pts_ms(&self) -> (r: u32)
        ensures
            r == self.pts / 90,
    {
        self.pts / 90
    }

    /// The first window with id `id`, over all window segments in order.
    pub fn find_window(&self, id: u8) -> (r: Option<&WindowDefinition>)
        ensures
            r matches Some(w) ==> w.id == id && exists|i: int, j: int|
                0 <= i < self.windows@.len() && 0 <= j < self.windows@[i].windows@.len() && self.windows@[i].windows@[j]
                    == *w,
            r.is_none() ==> forall|i: int, j: int|
                0 <= i < self.windows@.len() && 0 <= j < self.windows@[i].windows@.len() ==> self.windows@[i].windows@[j].id
                    != id,
    {
        let mut i: usize = 0;
        while i < self.windows.len()
            invariant
                i <= self.windows@.len(),
                forall|a: int, b: int|
                    0 <= a < i && 0 <= b < self.windows@[a].windows@.len() ==> self.windows@[a].windows@[b].id != id,
            decreases self.windows@.len() - i,
        {
            let wds = &self.windows[i];
            let mut j: usize = 0;
            while j < wds.windows.len()
                invariant
                    i < self.windows@.len(),
                    *wds == self.windows@[i as int],
                    j <= wds.windows@.len(),
                    forall|b: int| 0 <= b < j ==> wds.windows@[b].id != id,
                decreases wds.windows@.len() - j,
            {
                if wds.windows[j].id == id {
                    return Some(&wds.windows[j]);
                }
                j = j + 1;
            }
            i = i + 1;
        }
        None
    }

    /// The first palette with id `id`.
    pub fn find_palette(&self, id: u8) -> (r: Option<&PaletteDefinitionSegment>)
        ensures
            r matches Some(p) ==> exists|i: int|
                0 <= i < self.palettes@.len() && self.palettes@[i] == *p && p.id == id && forall|k: int|
                    0 <= k < i ==> self.palettes@[k].id != id,
            r.is_none() ==> forall|i: int| 0 <= i < self.palettes@.len() ==> self.palettes@[i].id != id,
    {
        let mut i: usize = 0;
        while i < self.palettes.len()
            invariant
                i <= self.palettes@.len(),
                forall|k: int| 0 <= k < i ==> self.palettes@[k].id != id,
            decreases self.palettes@.len() - i,
        {
            if self.palettes[i].id == id {
                return Some(&self.palettes[i]);
            }
            i = i + 1;
        }
        None
    }
}

impl Default for DisplaySet {
    fn default() -> (r: Self)
        ensures
            r.pts == 0,
            r.composition.is_none(),
            r.palettes@.len() == 0,
            r.objects@.len() == 0,
            r.windows@.len() == 0,
    {
        DisplaySet::new()
    }
}

} // verus!
