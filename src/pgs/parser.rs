//! The PGS engine: reads a `.sup` stream into display sets, resolves the
//! epoch of a display set, and renders it.
use vstd::prelude::*;
use crate::pgs::composition::CompositionObject;
use crate::pgs::display_set::{consumed, is_display_set_of, record_at, records_from, DisplaySet};
use crate::pgs::object::{joined_data, AssembledObject, ObjectDefinitionSegment};
use crate::pgs::palette::PaletteDefinitionSegment;
use crate::pgs::rle::{apply_palette, colors_of, decode_rle_to_indexed, indexed_outcome};
use crate::pgs::segment::{ACQUISITION_POINT, EPOCH_START};
use crate::utils::{binary_search_timestamp, is_latest_at_or_before, is_sorted};

verus! {

/// Where the search for the next display set goes on after a failure at
/// `o - 1`: the next `PG` from `o` on, or the last byte.
pub open spec fn resync(d: Seq<u8>, o: int) -> int
    decreases d.len() - o,
{
    if o >= d.len() - 1 || (d[o] == 0x50 && d[o + 1] == 0x47) {
        o
    } else {
        resync(d, o + 1)
    }
}

/// The start offsets of the display sets that a scan of `d` from `off` reads.
/// After a display set the scan goes on where it ended; where none parses it
/// moves one byte on and then to the next `PG`.
pub open spec fn stream_offsets(d: Seq<u8>, off: int) -> Seq<int>
    decreases d.len() - off,
{
    if off < 0 || off >= d.len() {
        Seq::empty()
    } else {
        match records_from(d.subrange(off, d.len() as int), 0, true) {
            Some(rs) => {
                let next = off + rs.last().body;
                if next <= off || next > d.len() {
                    Seq::empty()
                } else {
                    seq![off] + stream_offsets(d, next)
                }
            },
            None => {
                let next = resync(d, off + 1);
                if next <= off || next > d.len() {
                    Seq::empty()
                } else {
                    stream_offsets(d, next)
                }
            },
        }
    }
}

/// `ds` is the display set that starts at `off` in `d`.
pub open spec fn is_display_set_at(d: Seq<u8>, off: int, ds: DisplaySet) -> bool {
    let sub = d.subrange(off, d.len() as int);
    &&& records_from(sub, 0, true).is_some()
    &&& is_display_set_of(sub, records_from(sub, 0, true).unwrap(), ds)
}

/// A display set that starts an epoch or is an acquisition point.
pub open spec fn is_boundary(ds: DisplaySet) -> bool {
    ds.composition matches Some(c) && (c.composition_state == EPOCH_START || c.composition_state
        == ACQUISITION_POINT)
}

/// The last boundary at or before `i`, or 0 when there is none.
pub open spec fn boundary(sets: Seq<DisplaySet>, i: int) -> int
    decreases i,
{
    if i <= 0 {
        0
    } else if is_boundary(sets[i]) {
        i
    } else {
        boundary(sets, i - 1)
    }
}

/// The last palette with id `pid` in `pals`.
pub open spec fn last_palette(pals: Seq<PaletteDefinitionSegment>, pid: u8) -> Option<PaletteDefinitionSegment>
    decreases pals.len(),
{
    if pals.len() == 0 {
        None
    } else if pals.last().id == pid {
        Some(pals.last())
    } else {
        last_palette(pals.drop_last(), pid)
    }
}

/// The palette with id `pid` in force at display set `i` of the epoch from
/// `b`: the last one defined in display sets `b..=i`.
pub open spec fn epoch_palette(sets: Seq<DisplaySet>, b: int, i: int, pid: u8) -> Option<PaletteDefinitionSegment>
    decreases i - b + 1,
{
    if i < b {
        None
    } else {
        match last_palette(sets[i].palettes@, pid) {
            Some(p) => Some(p),
            None => epoch_palette(sets, b, i - 1, pid),
        }
    }
}

/// The fragment list of object `oid` after fragment `s`: a first fragment
/// starts it anew, a continuation extends a started list and is dropped
/// otherwise.
pub open spec fn fragment_step(frags: Seq<ObjectDefinitionSegment>, s: ObjectDefinitionSegment, oid: u16) -> Seq<
    ObjectDefinitionSegment,
> {
    if s.id != oid {
        frags
    } else if s.sequence_flag >= 0x80 {
        seq![s]
    } else if frags.len() > 0 {
        frags.push(s)
    } else {
        frags
    }
}

/// The fragment list of object `oid` after the fragments `objs`, from `init`.
pub open spec fn fragments_after(objs: Seq<ObjectDefinitionSegment>, oid: u16, init: Seq<ObjectDefinitionSegment>) -> Seq<
    ObjectDefinitionSegment,
>
    decreases objs.len(),
{
    if objs.len() == 0 {
        init
    } else {
        fragment_step(fragments_after(objs.drop_last(), oid, init), objs.last(), oid)
    }
}

/// The fragments of object `oid` gathered over display sets `b..=i`.
pub open spec fn epoch_fragments(sets: Seq<DisplaySet>, b: int, i: int, oid: u16) -> Seq<ObjectDefinitionSegment>
    decreases i - b + 1,
{
    if i < b {
        Seq::empty()
    } else {
        fragments_after(sets[i].objects@, oid, epoch_fragments(sets, b, i - 1, oid))
    }
}

/// The whole object `oid` at display set `i` of the epoch from `b`, as
/// `(version, width, height, run-length data)`; `None` when it has no fragments.
pub open spec fn epoch_object(sets: Seq<DisplaySet>, b: int, i: int, oid: u16) -> Option<(u8, u16, u16, Seq<u8>)> {
    let f = epoch_fragments(sets, b, i, oid);
    if f.len() == 0 {
        None
    } else {
        Some((f[0].version, f[0].width, f[0].height, joined_data(f)))
    }
}

/// The bytes of packed colours, each lowest byte first (R, G, B, A).
pub open spec fn rgba_bytes(c: Seq<u32>) -> Seq<u8> {
    Seq::new(4 * c.len(), |i: int| ((c[i / 4] as int / pow256(i % 4)) % 256) as u8)
}

/// `256^k` for `k` from 0 to 3.
pub open spec fn pow256(k: int) -> int {
    if k == 0 {
        1
    } else if k == 1 {
        256
    } else if k == 2 {
        65536
    } else {
        16777216
    }
}

/// The palette indices of a `width x height` object decoded from `data`.
pub open spec fn object_pixels(data: Seq<u8>, width: u16, height: u16) -> Seq<u8> {
    indexed_outcome(data, Seq::new((width * height) as nat, |_i: int| 0u8))
}

/// One positioned bitmap of a rendered frame.
pub struct CompositionView {
    pub x: u16,
    pub y: u16,
    pub width: u16,
    pub height: u16,
    pub rgba: Seq<u8>,
}

/// The bitmaps that the composition objects `objs` of display set `i` give,
/// in order; an object with no data in the epoch is left out.
pub open spec fn frame_bitmaps(
    sets: Seq<DisplaySet>,
    b: int,
    i: int,
    objs: Seq<CompositionObject>,
    pal: Seq<u32>,
) -> Seq<CompositionView>
    decreases objs.len(),
{
    if objs.len() == 0 {
        Seq::empty()
    } else {
        let rest = frame_bitmaps(sets, b, i, objs.drop_last(), pal);
        let co = objs.last();
        match epoch_object(sets, b, i, co.object_id) {
            Some((_v, w, h, data)) => rest.push(
                CompositionView {
                    x: co.x,
                    y: co.y,
                    width: w,
                    height: h,
                    rgba: rgba_bytes(colors_of(object_pixels(data, w, h), pal)),
                },
            ),
            None => rest,
        }
    }
}

/// The frame of display set `i`: its screen size and bitmaps. `None` when it
/// has no composition, no composition objects, or its palette is not defined
/// in its epoch.
pub open spec fn frame_at(sets: Seq<DisplaySet>, i: int) -> Option<(u16, u16, Seq<CompositionView>)> {
    let b = boundary(sets, i);
    match sets[i].composition {
        None => None,
        Some(c) => if c.composition_objects@.len() == 0 {
            None
        } else {
            match epoch_palette(sets, b, i, c.palette_id) {
                None => None,
                Some(p) => Some((c.width, c.height, frame_bitmaps(sets, b, i, c.composition_objects@, p.rgba@))),
            }
        },
    }
}

proof fn lemma_resync_bounds(d: Seq<u8>, o: int)
    requires
        0 <= o <= d.len(),
    ensures
        o <= resync(d, o) <= d.len(),
    decreases d.len() - o,
{
    if !(o >= d.len() - 1 || (d[o] == 0x50 && d[o + 1] == 0x47)) {
        lemma_resync_bounds(d, o + 1);
    }
}

proof fn lemma_records_end(d: Seq<u8>, pos: int)
    ensures
        records_from(d, pos, true) matches Some(rs) ==> rs.len() > 0 && pos < rs.last().body <= d.len(),
    decreases d.len() - pos,
{
    if 0 <= pos <= d.len() {
        match record_at(d, pos, true) {
            None => {},
            Some(r) => {
                if r.kind != 0x80 {
                    let c = consumed(d, r);
                    let next = r.body + if c > r.size { c } else { r.size };
                    if !(next <= pos || next > d.len()) {
                        lemma_records_end(d, next);
                        match records_from(d, next, true) {
                            Some(rest) => {
                                assert((seq![r] + rest).last() == rest.last());
                            },
                            None => {},
                        }
                    }
                }
            },
        }
    }
}

proof fn lemma_boundary_same(s1: Seq<DisplaySet>, s2: Seq<DisplaySet>, i: int)
    requires
        0 <= i < s1.len(),
        i < s2.len(),
        forall|k: int| boundary(s1, i) <= k <= i ==> s1[k] == s2[k],
    ensures
        boundary(s1, i) == boundary(s2, i),
    decreases i,
{
    lemma_boundary_bounds(s1, i);
    if i > 0 && !is_boundary(s1[i]) {
        lemma_boundary_bounds(s1, i - 1);
        lemma_boundary_same(s1, s2, i - 1);
    }
}

proof fn lemma_epoch_same(s1: Seq<DisplaySet>, s2: Seq<DisplaySet>, b: int, i: int, pid: u8, oid: u16)
    requires
        0 <= b,
        i < s1.len(),
        i < s2.len(),
        forall|k: int| b <= k <= i ==> s1[k] == s2[k],
    ensures
        epoch_palette(s1, b, i, pid) == epoch_palette(s2, b, i, pid),
        epoch_fragments(s1, b, i, oid) == epoch_fragments(s2, b, i, oid),
    decreases i - b + 1,
{
    if i >= b {
        lemma_epoch_same(s1, s2, b, i - 1, pid, oid);
    }
}

proof fn lemma_bitmaps_same(
    s1: Seq<DisplaySet>,
    s2: Seq<DisplaySet>,
    b: int,
    i: int,
    objs: Seq<CompositionObject>,
    pal: Seq<u32>,
)
    requires
        0 <= b,
        i < s1.len(),
        i < s2.len(),
        forall|k: int| b <= k <= i ==> s1[k] == s2[k],
    ensures
        frame_bitmaps(s1, b, i, objs, pal) == frame_bitmaps(s2, b, i, objs, pal),
    decreases objs.len(),
{
    if objs.len() > 0 {
        lemma_bitmaps_same(s1, s2, b, i, objs.drop_last(), pal);
        lemma_epoch_same(s1, s2, b, i, 0, objs.last().object_id);
    }
}

/// The frame of a display set depends only on the display sets of its epoch,
/// from its boundary up to itself: two streams that agree there render it
/// alike, byte for byte.
pub proof fn lemma_frame_depends_only_on_epoch(s1: Seq<DisplaySet>, s2: Seq<DisplaySet>, i: int)
    requires
        0 <= i < s1.len(),
        i < s2.len(),
        forall|k: int| boundary(s1, i) <= k <= i ==> s1[k] == s2[k],
    ensures
        boundary(s1, i) == boundary(s2, i),
        frame_at(s1, i) == frame_at(s2, i),
{
    lemma_boundary_same(s1, s2, i);
    lemma_boundary_bounds(s1, i);
    let b = boundary(s1, i);
    match s1[i].composition {
        None => {},
        Some(c) => {
            lemma_epoch_same(s1, s2, b, i, c.palette_id, 0);
            match epoch_palette(s1, b, i, c.palette_id) {
                None => {},
                Some(p) => {
                    lemma_bitmaps_same(s1, s2, b, i, c.composition_objects@, p.rgba@);
                },
            }
        },
    }
}

/// An epoch start at index 0 is a boundary, and it is the boundary of every
/// later display set up to the next epoch start or acquisition point.
pub proof fn lemma_epoch_start_at_zero_is_boundary(sets: Seq<DisplaySet>, i: int)
    requires
        0 <= i < sets.len(),
        sets[0].composition matches Some(c) && c.composition_state == EPOCH_START,
        forall|k: int| 0 < k <= i ==> !is_boundary(sets[k]),
    ensures
        is_boundary(sets[0]),
        boundary(sets, i) == 0,
    decreases i,
{
    if i > 0 {
        lemma_epoch_start_at_zero_is_boundary(sets, i - 1);
    }
}

proof fn lemma_boundary_bounds(sets: Seq<DisplaySet>, i: int)
    requires
        0 <= i,
    ensures
        0 <= boundary(sets, i) <= i,
    decreases i,
{
    if i > 0 && !is_boundary(sets[i]) {
        lemma_boundary_bounds(sets, i - 1);
    }
}

/// One positioned bitmap of a rendered PGS frame.
#[derive(Debug)]
pub struct SubtitleComposition {
    x: u16,
    y: u16,
    width: u16,
    height: u16,
    rgba: Vec<u8>,
}

impl View for SubtitleComposition {
    type V = CompositionView;

    closed spec fn view(&self) -> CompositionView {
        CompositionView { x: self.x, y: self.y, width: self.width, height: self.height, rgba: self.rgba@ }
    }
}

/// Copies a byte vector.
fn copy_bytes(v: &Vec<u8>) -> (r: Vec<u8>)
    ensures
        r@ == v@,
{
    let mut out: Vec<u8> = Vec::new();
    let mut i: usize = 0;
    while i < v.len()
        invariant
            i <= v@.len(),
            out@ == v@.subrange(0, i as int),
        decreases v@.len() - i,
    {
        out.push(v[i]);
        i = i + 1;
        assert(out@ =~= v@.subrange(0, i as int));
    }
    assert(out@ =~= v@);
    out
}

impl SubtitleComposition {
    /// A bitmap of `width x height` at `(x, y)`.
    pub fn new(x: u16, y: u16, width: u16, height: u16, rgba: Vec<u8>) -> (r: Self)
        ensures
            r@ == (CompositionView { x, y, width, height, rgba: rgba@ }),
    {
        SubtitleComposition { x, y, width, height, rgba }
    }

    pub fn x(&self) -> (r: u16)
        ensures
            r == self@.x,
    {
        self.x
    }

    pub fn y(&self) -> (r: u16)
        ensures
            r == self@.y,
    {
        self.y
    }

    pub fn width(&self) -> (r: u16)
        ensures
            r == self@.width,
    {
        self.width
    }

    pub fn height(&self) -> (r: u16)
        ensures
            r == self@.height,
    {
        self.height
    }

    /// The RGBA bytes, row by row.
    pub fn get_rgba(&self) -> (r: Vec<u8>)
        ensures
            r@ == self@.rgba,
    {
        copy_bytes(&self.rgba)
    }
}

/// A rendered PGS frame: the screen size and the bitmaps on it.
#[derive(Debug)]
pub struct SubtitleFrame {
    width: u16,
    height: u16,
    compositions: Vec<SubtitleComposition>,
}

impl View for SubtitleFrame {
    type V = (u16, u16, Seq<CompositionView>);

    closed spec fn view(&self) -> (u16, u16, Seq<CompositionView>) {
        (self.width, self.height, self.compositions@.map_values(|c: SubtitleComposition| c@))
    }
}

impl SubtitleFrame {
    pub fn width(&self) -> (r: u16)
        ensures
            r == self@.0,
    {
        self.width
    }

    pub fn height(&self) -> (r: u16)
        ensures
            r == self@.1,
    {
        self.height
    }

    pub fn composition_count(&self) -> (r: usize)
        ensures
            r == self@.2.len(),
    {
        self.compositions.len()
    }

    /// A copy of bitmap `index`, if there is one.
    pub fn get_composition(&self, index: usize) -> (r: Option<SubtitleComposition>)
        ensures
            index < self@.2.len() ==> (r matches Some(c) && c@ == self@.2[index as int]),
            index >= self@.2.len() ==> r.is_none(),
    {
        if index < self.compositions.len() {
            let c = &self.compositions[index];
            Some(SubtitleComposition { x: c.x, y: c.y, width: c.width, height: c.height, rgba: copy_bytes(&c.rgba) })
        } else {
            None
        }
    }
}

/// A decoded object kept for reuse: its key, the run-length data it was
/// decoded from, and the palette indices.
struct DecodedBitmap {
    id: u16,
    version: u8,
    width: u16,
    height: u16,
    data: Vec<u8>,
    indexed: Vec<u8>,
}

impl DecodedBitmap {
    spec fn valid(&self) -> bool {
        self.indexed@ == object_pixels(self.data@, self.width, self.height)
    }
}

/// A PGS subtitle stream: its display sets, their start times, and a cache
/// of decoded objects for the current epoch.
pub struct PgsParser {
    display_sets: Vec<DisplaySet>,
    timestamps_ms: Vec<u32>,
    indexed_cache: Vec<DecodedBitmap>,
    last_boundary: Option<usize>,
}

impl PgsParser {
    /// The display sets read.
    pub closed spec fn sets(&self) -> Seq<DisplaySet> {
        self.display_sets@
    }

    /// The boundary of the epoch the cache belongs to.
    pub closed spec fn cached_boundary(&self) -> Option<usize> {
        self.last_boundary
    }

    /// The keys `(object id, version)` of the cached objects, each with the
    /// run-length data it was decoded from.
    pub closed spec fn cached(&self) -> Seq<(u16, u8, Seq<u8>)> {
        self.indexed_cache@.map_values(|e: DecodedBitmap| (e.id, e.version, e.data@))
    }

    /// The start times line up with the display sets and the cache holds
    /// correct decodes.
    pub closed spec fn wf(&self) -> bool {
        &&& self.timestamps_ms@.len() == self.display_sets@.len()
        &&& forall|k: int| 0 <= k < self.display_sets@.len() ==> #[trigger] self.timestamps_ms@[k] == self.display_sets@[k].pts / 90
        &&& forall|k: int| 0 <= k < self.indexed_cache@.len() ==> (#[trigger] self.indexed_cache@[k]).valid()
    }

    /// The start time of each display set, in milliseconds.
    pub closed spec fn times(&self) -> Seq<u32> {
        self.timestamps_ms@
    }

    /// The start times are those of the display sets, in milliseconds.
    pub proof fn lemma_times(&self)
        requires
            self.wf(),
        ensures
            self.times().len() == self.sets().len(),
            forall|k: int| 0 <= k < self.sets().len() ==> self.times()[k] == self.sets()[k].pts / 90,
    {
    }

    pub fn new() -> (r: Self)
        ensures
            r.wf(),
            r.sets().len() == 0,
            r.cached().len() == 0,
    {
        PgsParser { display_sets: Vec::new(), timestamps_ms: Vec::new(), indexed_cache: Vec::new(), last_boundary: None }
    }

    /// The number of display sets.
    pub fn count(&self) -> (r: usize)
        ensures
            r == self.sets().len(),
    {
        self.display_sets.len()
    }

    /// The start time of each display set in milliseconds (PTS / 90).
    pub fn get_timestamps(&self) -> (r: Vec<u32>)
        requires
            self.wf(),
        ensures
            r@.len() == self.sets().len(),
            forall|k: int| 0 <= k < r@.len() ==> r@[k] == self.sets()[k].pts / 90,
    {
        let mut out: Vec<u32> = Vec::new();
        let mut i: usize = 0;
        while i < self.timestamps_ms.len()
            invariant
                self.wf(),
                i <= self.timestamps_ms@.len(),
                out@ == self.timestamps_ms@.subrange(0, i as int),
            decreases self.timestamps_ms@.len() - i,
        {
            out.push(self.timestamps_ms[i]);
            i = i + 1;
            assert(out@ =~= self.timestamps_ms@.subrange(0, i as int));
        }
        assert(out@ =~= self.timestamps_ms@);
        out
    }

    /// Empties the cache of decoded objects.
    pub fn clear_cache(&mut self)
        requires
            old(self).wf(),
        ensures
            final(self).wf(),
            final(self).sets() == old(self).sets(),
            final(self).cached().len() == 0,
    {
        self.indexed_cache.clear();
        assert(self.cached() =~= Seq::<(u16, u8, Seq<u8>)>::empty());
    }

    /// The display set for a time in milliseconds: the last one that starts at
    /// or before it (the first when none does); -1 when there are none.
    pub fn find_index_at_timestamp(&self, time_ms: u32) -> (r: i32)
        requires
            self.wf(),
        ensures
            self.sets().len() == 0 ==> r == -1,
            self.sets().len() > 0 && self.sets().len() <= i32::MAX && is_sorted(self.times()) ==> 0 <= r
                && is_latest_at_or_before(self.times(), time_ms, r as int),
    {
        if self.timestamps_ms.len() == 0 {
            return -1;
        }
        let i = binary_search_timestamp(self.timestamps_ms.as_slice(), time_ms);
        if i > i32::MAX as usize {
            return -1;
        }
        i as i32
    }

    /// The last display set at or before `index` that starts an epoch or is
    /// an acquisition point; 0 when there is none.
    fn find_boundary_index(&self, index: usize) -> (r: usize)
        requires
            index < self.sets().len(),
        ensures
            r as int == boundary(self.sets(), index as int),
    {
        let mut i = index;
        while i > 0
            invariant
                i <= index < self.display_sets@.len(),
                boundary(self.display_sets@, index as int) == boundary(self.display_sets@, i as int),
            decreases i,
        {
            match &self.display_sets[i].composition {
                Some(c) => {
                    if c.composition_state == EPOCH_START || c.composition_state == ACQUISITION_POINT {
                        return i;
                    }
                },
                None => {},
            }
            i = i - 1;
        }
        0
    }

    /// Reads a whole `.sup` stream, replacing what was read before. Where no
    /// display set parses, the scan moves one byte on and then to the next
    /// `PG`. Returns the number of display sets.
    pub fn parse(&mut self, data: &[u8]) -> (r: usize)
        requires
            old(self).wf(),
        ensures
            final(self).wf(),
            r == final(self).sets().len(),
            final(self).sets().len() == stream_offsets(data@, 0).len(),
            forall|k: int|
                0 <= k < final(self).sets().len() ==> is_display_set_at(
                    data@,
                    stream_offsets(data@, 0)[k],
                    #[trigger] final(self).sets()[k],
                ),
            final(self).cached().len() == 0,
    {
        self.display_sets.clear();
        self.timestamps_ms.clear();
        self.indexed_cache.clear();
        self.last_boundary = None;
        let ghost d = data@;
        let len = data.len();
        let mut offset: usize = 0;
        let ghost mut found: Seq<int> = Seq::empty();
        while offset < len
            invariant
                d == data@,
                len == d.len(),
                offset <= len,
                self.indexed_cache@.len() == 0,
                self.timestamps_ms@.len() == self.display_sets@.len(),
                self.display_sets@.len() == found.len(),
                forall|k: int| 0 <= k < self.display_sets@.len() ==> #[trigger] self.timestamps_ms@[k] == self.display_sets@[k].pts / 90,
                forall|k: int| 0 <= k < found.len() ==> is_display_set_at(d, found[k], #[trigger] self.display_sets@[k]),
                stream_offsets(d, 0) == found + stream_offsets(d, offset as int),
            decreases len - offset,
        {
            let ghost sub = d.subrange(offset as int, len as int);
            proof {
                lemma_records_end(sub, 0);
            }
            match DisplaySet::parse(vstd::slice::slice_subrange(data, offset, len), true) {
                Some((display_set, consumed)) => {
                    proof {
                        assert(stream_offsets(d, offset as int) == seq![offset as int] + stream_offsets(d, offset + consumed));
                        found = found.push(offset as int);
                        assert(found + stream_offsets(d, offset + consumed) =~= stream_offsets(d, 0));
                    }
                    self.timestamps_ms.push(display_set.pts_ms());
                    self.display_sets.push(display_set);
                    offset = offset + consumed;
                },
                None => {
                    let ghost before = offset as int;
                    offset = offset + 1;
                    proof {
                        lemma_resync_bounds(d, offset as int);
                    }
                    while offset < len - 1 && !(data[offset] == 0x50 && data[offset + 1] == 0x47)
                        invariant
                            before < offset <= len,
                            len >= 1,
                            d == data@,
                            len == d.len(),
                            resync(d, offset as int) == resync(d, before + 1),
                        decreases len - offset,
                    {
                        offset = offset + 1;
                    }
                    proof {
                        assert(resync(d, offset as int) == offset);
                        assert(stream_offsets(d, before) == stream_offsets(d, offset as int));
                    }
                },
            }
        }
        self.display_sets.len()
    }

    /// Where the palette `epoch_palette(b, i, pid)` lies: display set and position.
    fn find_epoch_palette(&self, b: usize, i: usize, pid: u8) -> (r: Option<(usize, usize)>)
        requires
            b <= i < self.sets().len(),
        ensures
            epoch_palette(self.sets(), b as int, i as int, pid) matches Some(p) ==> (r matches Some((k, j)) && k
                < self.sets().len() && j < self.sets()[k as int].palettes@.len() && self.sets()[k as int].palettes@[j as int]
                == p),
            epoch_palette(self.sets(), b as int, i as int, pid).is_none() ==> r.is_none(),
    {
        let mut k = i;
        loop
            invariant
                b <= k <= i < self.display_sets@.len(),
                epoch_palette(self.display_sets@, b as int, i as int, pid) == epoch_palette(
                    self.display_sets@,
                    b as int,
                    k as int,
                    pid,
                ),
            decreases k,
        {
            let pals = &self.display_sets[k].palettes;
            let mut j = pals.len();
            assert(pals@.subrange(0, j as int) =~= pals@);
            while j > 0
                invariant
                    b <= k <= i < self.display_sets@.len(),
                    epoch_palette(self.display_sets@, b as int, i as int, pid) == epoch_palette(
                        self.display_sets@,
                        b as int,
                        k as int,
                        pid,
                    ),
                    j <= pals@.len(),
                    *pals == self.display_sets@[k as int].palettes,
                    last_palette(pals@, pid) == last_palette(pals@.subrange(0, j as int), pid),
                decreases j,
            {
                assert(pals@.subrange(0, j as int).drop_last() =~= pals@.subrange(0, j - 1));
                if pals[j - 1].id == pid {
                    return Some((k, j - 1));
                }
                j = j - 1;
            }
            assert(pals@.subrange(0, 0) =~= Seq::<PaletteDefinitionSegment>::empty());
            if k == b {
                return None;
            }
            k = k - 1;
        }
    }

    /// The object `oid` of display set `i` in the epoch from `b`, assembled
    /// from its fragments.
    fn assemble_epoch_object(&self, b: usize, i: usize, oid: u16) -> (r: Option<AssembledObject>)
        requires
            b <= i < self.sets().len(),
        ensures
            epoch_object(self.sets(), b as int, i as int, oid) matches Some((v, w, h, data)) ==> (r matches Some(
                o,
            ) && o.id == oid && o.version == v && o.width == w && o.height == h && o.data@ == data),
            epoch_object(self.sets(), b as int, i as int, oid).is_none() ==> r.is_none(),
    {
        let ghost sets = self.display_sets@;
        let n = self.display_sets.len();
        let mut frags: Vec<(usize, usize)> = Vec::new();
        let mut k = b;
        while k <= i
            invariant
                n == sets.len(),
                sets == self.display_sets@,
                b <= k <= i + 1,
                i < sets.len(),
                forall|t: int| 0 <= t < frags@.len() ==> frags@[t].0 < sets.len() && frags@[t].1 < sets[frags@[t].0 as int].objects@.len(),
                frags@.map_values(|p: (usize, usize)| sets[p.0 as int].objects@[p.1 as int]) == epoch_fragments(
                    sets,
                    b as int,
                    k - 1,
                    oid,
                ),
            decreases i + 1 - k,
        {
            let objs = &self.display_sets[k].objects;
            let ghost init = epoch_fragments(sets, b as int, k - 1, oid);
            let mut j: usize = 0;
            while j < objs.len()
                invariant
                    sets == self.display_sets@,
                    k < sets.len(),
                    *objs == sets[k as int].objects,
                    j <= objs@.len(),
                    forall|t: int| 0 <= t < frags@.len() ==> frags@[t].0 < sets.len() && frags@[t].1 < sets[frags@[t].0 as int].objects@.len(),
                    frags@.map_values(|p: (usize, usize)| sets[p.0 as int].objects@[p.1 as int]) == fragments_after(
                        objs@.subrange(0, j as int),
                        oid,
                        init,
                    ),
                decreases objs@.len() - j,
            {
                let ghost before = frags@;
                assert(objs@.subrange(0, j + 1).drop_last() =~= objs@.subrange(0, j as int));
                let s = &objs[j];
                if s.id == oid {
                    if s.sequence_flag >= 0x80 {
                        frags = Vec::new();
                        frags.push((k, j));
                        assert(frags@.map_values(|p: (usize, usize)| sets[p.0 as int].objects@[p.1 as int]) =~= seq![
                            *s,
                        ]);
                    } else if frags.len() > 0 {
                        frags.push((k, j));
                        assert(frags@.map_values(|p: (usize, usize)| sets[p.0 as int].objects@[p.1 as int]) =~= before.map_values(
                            |p: (usize, usize)| sets[p.0 as int].objects@[p.1 as int],
                        ).push(*s));
                    }
                }
                j = j + 1;
            }
            assert(objs@.subrange(0, objs@.len() as int) =~= objs@);
            k = k + 1;
        }
        let ghost fs = epoch_fragments(sets, b as int, i as int, oid);
        if frags.len() == 0 {
            return None;
        }
        let (k0, j0) = frags[0];
        let first = &self.display_sets[k0].objects[j0];
        let mut data: Vec<u8> = Vec::new();
        let mut t: usize = 0;
        while t < frags.len()
            invariant
                sets == self.display_sets@,
                t <= frags@.len(),
                forall|u: int| 0 <= u < frags@.len() ==> frags@[u].0 < sets.len() && frags@[u].1 < sets[frags@[u].0 as int].objects@.len(),
                frags@.map_values(|p: (usize, usize)| sets[p.0 as int].objects@[p.1 as int]) == fs,
                data@ == joined_data(fs.subrange(0, t as int)),
            decreases frags@.len() - t,
        {
            let (kk, jj) = frags[t];
            let part = &self.display_sets[kk].objects[jj];
            let ghost before = data@;
            let mut q: usize = 0;
            while q < part.data.len()
                invariant
                    q <= part.data@.len(),
                    data@ == before + part.data@.subrange(0, q as int),
                decreases part.data@.len() - q,
            {
                data.push(part.data[q]);
                q = q + 1;
                assert(data@ =~= before + part.data@.subrange(0, q as int));
            }
            assert(fs.subrange(0, t + 1).drop_last() =~= fs.subrange(0, t as int));
            assert(fs[t as int] == *part);
            assert(part.data@.subrange(0, q as int) =~= part.data@);
            t = t + 1;
        }
        assert(fs.subrange(0, t as int) =~= fs);
        assert(fs[0] == *first);
        Some(AssembledObject { id: oid, version: first.version, width: first.width, height: first.height, data })
    }

    /// The cache position of `obj`'s decoded pixels: a cached decode of the
    /// same key and data is reused, else the object is decoded and cached
    /// under its key.
    fn decode_cached(&mut self, obj: AssembledObject) -> (r: usize)
        requires
            old(self).wf(),
        ensures
            final(self).wf(),
            final(self).sets() == old(self).sets(),
            final(self).cached_boundary() == old(self).cached_boundary(),
            r < final(self).indexed_cache@.len(),
            final(self).indexed_cache@[r as int].indexed@ == object_pixels(obj.data@, obj.width, obj.height),
            final(self).indexed_cache@[r as int].width == obj.width,
            final(self).indexed_cache@[r as int].height == obj.height,
            forall|e: (u16, u8, Seq<u8>)|
                final(self).cached().contains(e) ==> old(self).cached().contains(e) || e == (obj.id, obj.version, obj.data@),
    {
        let mut k: usize = 0;
        let mut slot: Option<usize> = None;
        while k < self.indexed_cache.len()
            invariant
                self.wf(),
                k <= self.indexed_cache@.len(),
                slot matches Some(s) ==> s < self.indexed_cache@.len(),
            decreases self.indexed_cache@.len() - k,
        {
            let e = &self.indexed_cache[k];
            if e.id == obj.id && e.version == obj.version {
                if e.width == obj.width && e.height == obj.height && bytes_equal(&e.data, &obj.data) {
                    return k;
                }
                if slot.is_none() {
                    slot = Some(k);
                }
            }
            k = k + 1;
        }
        proof {
            assert((obj.width as int) * (obj.height as int) <= 65535 * 65535) by (nonlinear_arith)
                requires
                    obj.width <= 65535,
                    obj.height <= 65535,
            ;
        }
        let pixel_count = (obj.width as usize) * (obj.height as usize);
        let mut indexed: Vec<u8> = vec![0u8; pixel_count];
        let ghost zeros = indexed@;
        assert(zeros =~= Seq::new((obj.width * obj.height) as nat, |_i: int| 0u8));
        decode_rle_to_indexed(obj.data.as_slice(), indexed.as_mut_slice());
        let ghost old_cached = self.cached();
        let entry = DecodedBitmap {
            id: obj.id,
            version: obj.version,
            width: obj.width,
            height: obj.height,
            data: obj.data,
            indexed,
        };
        match slot {
            Some(s) => {
                self.indexed_cache.set(s, entry);
                proof {
                    assert forall|e: (u16, u8, Seq<u8>)| self.cached().contains(e) implies old_cached.contains(e) || e == (
                        obj.id,
                        obj.version,
                        obj.data@,
                    ) by {
                        let t = choose|t: int| 0 <= t < self.cached().len() && self.cached()[t] == e;
                        if t != s {
                            assert(old_cached[t] == e);
                        }
                    }
                }
                s
            },
            None => {
                self.indexed_cache.push(entry);
                proof {
                    assert forall|e: (u16, u8, Seq<u8>)| self.cached().contains(e) implies old_cached.contains(e) || e == (
                        obj.id,
                        obj.version,
                        obj.data@,
                    ) by {
                        let t = choose|t: int| 0 <= t < self.cached().len() && self.cached()[t] == e;
                        if t < old_cached.len() {
                            assert(old_cached[t] == e);
                        }
                    }
                }
                self.indexed_cache.len() - 1
            },
        }
    }

    /// Renders display set `index`: rebuilds its epoch from the last epoch
    /// start or acquisition point, looks up the palette its composition names,
    /// and decodes each composition object of the epoch at its position. The
    /// cache of decoded objects is emptied whenever the epoch changes.
    pub fn render_at_index(&mut self, index: usize) -> (r: Option<SubtitleFrame>)
        requires
            old(self).wf(),
        ensures
            final(self).wf(),
            final(self).sets() == old(self).sets(),
            index >= old(self).sets().len() ==> r.is_none(),
            index < old(self).sets().len() ==> match frame_at(old(self).sets(), index as int) {
                None => r.is_none(),
                Some(f) => r matches Some(fr) && fr@ == f,
            },
            index < old(self).sets().len() ==> final(self).cached_boundary() == Some(
                boundary(old(self).sets(), index as int) as usize,
            ),
            index < old(self).sets().len() && old(self).cached_boundary() != Some(
                boundary(old(self).sets(), index as int) as usize,
            ) ==> forall|e: (u16, u8, Seq<u8>)|
                #[trigger] final(self).cached().contains(e) ==> (epoch_object(
                    old(self).sets(),
                    boundary(old(self).sets(), index as int),
                    index as int,
                    e.0,
                ) matches Some((v, _w, _h, data)) && e.1 == v && e.2 == data),
    {
        if index >= self.display_sets.len() {
            return None;
        }
        let ghost sets = self.display_sets@;
        let b = self.find_boundary_index(index);
        let ghost fresh = self.last_boundary != Some(b);
        if self.last_boundary != Some(b) {
            self.indexed_cache.clear();
            self.last_boundary = Some(b);
        }
        proof {
            lemma_boundary_bounds(sets, index as int);
            if fresh {
                assert(self.cached() =~= Seq::<(u16, u8, Seq<u8>)>::empty());
            }
        }
        let (width, height, palette_id, count) = match &self.display_sets[index].composition {
            None => return None,
            Some(c) => (c.width, c.height, c.palette_id, c.composition_objects.len()),
        };
        if count == 0 {
            return None;
        }
        let (pk, pj) = match self.find_epoch_palette(b, index, palette_id) {
            None => return None,
            Some(p) => p,
        };
        let ghost c = sets[index as int].composition.unwrap();
        let ghost pal = sets[pk as int].palettes@[pj as int].rgba@;
        let mut comps: Vec<SubtitleComposition> = Vec::new();
        let mut n: usize = 0;
        while n < count
            invariant
                self.wf(),
                self.display_sets@ == sets,
                index < sets.len(),
                b as int == boundary(sets, index as int),
                b <= index,
                sets[index as int].composition == Some(c),
                count == c.composition_objects@.len(),
                pk < sets.len(),
                pj < sets[pk as int].palettes@.len(),
                pal == sets[pk as int].palettes@[pj as int].rgba@,
                n <= count,
                self.last_boundary == Some(b),
                comps@.map_values(|x: SubtitleComposition| x@) == frame_bitmaps(
                    sets,
                    b as int,
                    index as int,
                    c.composition_objects@.subrange(0, n as int),
                    pal,
                ),
                fresh ==> forall|e: (u16, u8, Seq<u8>)|
                    #[trigger] self.cached().contains(e) ==> (epoch_object(sets, b as int, index as int, e.0) matches Some(
                        (v, _w, _h, data),
                    ) && e.1 == v && e.2 == data),
            decreases count - n,
        {
            let co = self.display_sets[index].composition.as_ref().unwrap().composition_objects[n];
            let ghost before = comps@.map_values(|x: SubtitleComposition| x@);
            assert(c.composition_objects@.subrange(0, n + 1).drop_last() =~= c.composition_objects@.subrange(0, n as int));
            match self.assemble_epoch_object(b, index, co.object_id) {
                None => {},
                Some(obj) => {
                    let w = obj.width;
                    let h = obj.height;
                    let ghost odata = obj.data@;
                    let ghost okey = (obj.id, obj.version, obj.data@);
                    let ghost old_cached = self.cached();
                    let slot = self.decode_cached(obj);
                    proof {
                        if fresh {
                            assert forall|e: (u16, u8, Seq<u8>)| #[trigger] self.cached().contains(e) implies (epoch_object(
                                sets,
                                b as int,
                                index as int,
                                e.0,
                            ) matches Some((v, _w, _h, data)) && e.1 == v && e.2 == data) by {
                                if !old_cached.contains(e) {
                                    assert(e == okey);
                                }
                            }
                        }
                    }
                    let pal_ref = &self.display_sets[pk].palettes[pj];
                    let pixel_count = self.indexed_cache[slot].indexed.len();
                    let mut rgba: Vec<u32> = vec![0u32; pixel_count];
                    let ghost zeros = rgba@;
                    apply_palette(self.indexed_cache[slot].indexed.as_slice(), pal_ref.rgba.as_slice(), rgba.as_mut_slice());
                    let ghost ix = self.indexed_cache@[slot as int].indexed@;
                    proof {
                        assert(ix.take(ix.len() as int) =~= ix);
                        assert(zeros.skip(ix.len() as int) =~= Seq::<u32>::empty());
                        assert(rgba@ =~= colors_of(object_pixels(odata, w, h), pal));
                    }
                    let bytes = colors_to_bytes(&rgba);
                    comps.push(SubtitleComposition { x: co.x, y: co.y, width: w, height: h, rgba: bytes });
                    assert(comps@.map_values(|x: SubtitleComposition| x@) =~= before.push(
                        CompositionView { x: co.x, y: co.y, width: w, height: h, rgba: rgba_bytes(colors_of(object_pixels(odata, w, h), pal)) },
                    ));
                },
            }
            n = n + 1;
        }
        assert(c.composition_objects@.subrange(0, count as int) =~= c.composition_objects@);
        Some(SubtitleFrame { width, height, compositions: comps })
    }
}

impl Default for PgsParser {
    fn default() -> (r: Self)
        ensures
            r.wf(),
            r.sets().len() == 0,
    {
        PgsParser::new()
    }
}

/// The two byte vectors are equal.
fn bytes_equal(a: &Vec<u8>, b: &Vec<u8>) -> (r: bool)
    ensures
        r == (a@ == b@),
{
    if a.len() != b.len() {
        return false;
    }
    let mut i: usize = 0;
    while i < a.len()
        invariant
            a@.len() == b@.len(),
            i <= a@.len(),
            forall|k: int| 0 <= k < i ==> a@[k] == b@[k],
        decreases a@.len() - i,
    {
        if a[i] != b[i] {
            return false;
        }
        i = i + 1;
    }
    assert(a@ =~= b@);
    true
}

/// The bytes of packed colours, R, G, B, A for each.
fn colors_to_bytes(c: &Vec<u32>) -> (r: Vec<u8>)
    ensures
        r@ == rgba_bytes(c@),
{
    let mut out: Vec<u8> = Vec::new();
    let mut i: usize = 0;
    while i < c.len()
        invariant
            i <= c@.len(),
            out@.len() == 4 * i,
            forall|m: int| 0 <= m < 4 * i ==> out@[m] == ((c@[m / 4] as int / pow256(m % 4)) % 256) as u8,
        decreases c@.len() - i,
    {
        let v = c[i];
        out.push((v % 256) as u8);
        out.push((v / 256 % 256) as u8);
        out.push((v / 65536 % 256) as u8);
        out.push((v / 16777216 % 256) as u8);
        proof {
            assert forall|m: int| 4 * i <= m < 4 * i + 4 implies out@[m] == ((c@[m / 4] as int / pow256(m % 4)) % 256) as u8 by {
                assert(m / 4 == i as int);
                assert(m % 4 == m - 4 * i);
            }
        }
        i = i + 1;
    }
    assert(out@ =~= rgba_bytes(c@));
    out
}

} // verus!
