//! The VobSub engine: an index and its `.sub` stream, timestamp lookup with
//! display windows, and rendering.
use vstd::prelude::*;
use vstd::seq_lib::to_multiset_insert;
use crate::utils::{binary_search_timestamp, is_latest_at_or_before, is_sorted, lemma_latest_unique};
use crate::vobsub::idx_parser::{
    default_palette, parse_idx, IdxParseResult, VobSubMetadata, VobSubPalette, VobSubTimestamp,
};
use crate::vobsub::rle::{code_rgba, decode_vobsub_rle, packet_pixel, pixel_byte};
use crate::vobsub::idx_parser::{idx_model, result_matches};
use crate::vobsub::sub_parser::{is_unit_packet, parse_subtitle_packet, unit_control, unit_scan, SubtitlePacket};
use vstd::string::StringSliceAdditionalSpecFns;

verus! {

/// The display time of a subtitle whose packet sets none.
pub const DEFAULT_DURATION_MS: u32 = 5000;

/// The start times of `e`, in order.
pub open spec fn entry_times(e: Seq<VobSubTimestamp>) -> Seq<u32> {
    e.map_values(|t: VobSubTimestamp| t.timestamp_ms)
}

/// The entries are in ascending order of start time.
pub open spec fn entries_sorted(e: Seq<VobSubTimestamp>) -> bool {
    forall|i: int, j: int| 0 <= i <= j < e.len() ==> e[i].timestamp_ms <= e[j].timestamp_ms
}

/// `entries` sorted by start time, keeping the order of equal times.
pub fn sort_entries(entries: Vec<VobSubTimestamp>) -> (r: Vec<VobSubTimestamp>)
    ensures
        entries_sorted(r@),
        r@.to_multiset() == entries@.to_multiset(),
{
    let mut out: Vec<VobSubTimestamp> = Vec::new();
    let mut i: usize = 0;
    proof {
        broadcast use vstd::seq_lib::group_seq_properties;

        assert(entries@.subrange(0, 0) =~= out@);
    }
    while i < entries.len()
        invariant
            i <= entries@.len(),
            entries_sorted(out@),
            out@.to_multiset() == entries@.subrange(0, i as int).to_multiset(),
        decreases entries@.len() - i,
    {
        let e = entries[i];
        let mut k: usize = out.len();
        while k > 0 && out[k - 1].timestamp_ms > e.timestamp_ms
            invariant
                k <= out@.len(),
                forall|j: int| k <= j < out@.len() ==> out@[j].timestamp_ms > e.timestamp_ms,
            decreases k,
        {
            k = k - 1;
        }
        let ghost before = out@;
        out.insert(k, e);
        proof {
            to_multiset_insert(before, k as int, e);
            assert(entries@.subrange(0, i + 1) =~= entries@.subrange(0, i as int).push(e));
            vstd::seq_lib::lemma_multiset_commutative(entries@.subrange(0, i as int), seq![e]);
            assert(entries@.subrange(0, i as int).push(e) =~= entries@.subrange(0, i as int) + seq![e]);
            assert(seq![e].to_multiset() =~= vstd::multiset::Multiset::empty().insert(e)) by {
                broadcast use vstd::seq_lib::group_seq_properties;
            };
            assert(entries_sorted(out@)) by {
                assert forall|a: int, c: int| 0 <= a <= c < out@.len() implies out@[a].timestamp_ms <= out@[c].timestamp_ms by {
                    if a < k as int && c > k as int {
                        assert(out@[a] == before[a]);
                        assert(out@[c] == before[c - 1]);
                    }
                }
            }
        }
        i = i + 1;
    }
    assert(entries@.subrange(0, i as int) =~= entries@);
    out
}

/// A unit is found at `pos` of the `.sub` stream.
pub open spec fn unit_found(sub: Seq<u8>, pos: u64) -> bool {
    pos <= usize::MAX && unit_scan(sub, pos as int).payload.len() >= 4
}

/// `p` is the packet that the `.sub` stream holds at `pos`.
pub open spec fn is_packet_at(sub: Seq<u8>, pos: u64, p: SubtitlePacket) -> bool {
    unit_found(sub, pos) && is_unit_packet(unit_scan(sub, pos as int).payload, unit_scan(sub, pos as int).pts, p)
}

/// The display time of the unit at `pos`: what it sets, else 5000 ms (also
/// when no unit is found).
pub open spec fn unit_duration(sub: Seq<u8>, pos: u64) -> int {
    if unit_found(sub, pos) {
        let st = unit_control(unit_scan(sub, pos as int).payload);
        if st.duration > 0 {
            st.duration as int
        } else {
            DEFAULT_DURATION_MS as int
        }
    } else {
        DEFAULT_DURATION_MS as int
    }
}

/// When subtitle `i` stops showing: at the next subtitle's start, or earlier
/// when its own duration (other than the default) ends first; the last one
/// after its duration.
pub open spec fn end_time(e: Seq<VobSubTimestamp>, sub: Seq<u8>, i: int) -> int {
    let start = e[i].timestamp_ms as int;
    let dur = unit_duration(sub, e[i].file_position);
    if i + 1 < e.len() {
        let next = e[i + 1].timestamp_ms as int;
        if dur != DEFAULT_DURATION_MS && start + dur < next {
            start + dur
        } else {
            next
        }
    } else {
        start + dur
    }
}

/// The cache entry `c` for subtitle `e` holds the parse of its packet.
pub open spec fn cache_entry_ok(sub: Seq<u8>, e: VobSubTimestamp, c: Option<Option<SubtitlePacket>>) -> bool {
    match c {
        None => true,
        Some(None) => !unit_found(sub, e.file_position),
        Some(Some(p)) => is_packet_at(sub, e.file_position, p) && p.wf(),
    }
}

/// A rendered VobSub frame: one bitmap on a screen.
#[derive(Debug)]
pub struct VobSubFrame {
    screen_width: u16,
    screen_height: u16,
    x: u16,
    y: u16,
    width: u16,
    height: u16,
    rgba: Vec<u8>,
}

/// What a VobSub frame shows.
pub struct VobSubFrameView {
    pub screen_width: u16,
    pub screen_height: u16,
    pub x: u16,
    pub y: u16,
    pub width: u16,
    pub height: u16,
    pub rgba: Seq<u8>,
}

impl View for VobSubFrame {
    type V = VobSubFrameView;

    closed spec fn view(&self) -> VobSubFrameView {
        VobSubFrameView {
            screen_width: self.screen_width,
            screen_height: self.screen_height,
            x: self.x,
            y: self.y,
            width: self.width,
            height: self.height,
            rgba: self.rgba@,
        }
    }
}

impl VobSubFrame {
    pub fn screen_width(&self) -> (r: u16)
        ensures
            r == self@.screen_width,
    {
        self.screen_width
    }

    pub fn screen_height(&self) -> (r: u16)
        ensures
            r == self@.screen_height,
    {
        self.screen_height
    }

    pub fn x(&self) -> (r: u16)
        ensures
            r == self@.x,
    {
        self.x
    }

    pub fn y(&self) -> (r: u16)
        ensures
            r == self@.y,
    {
        self.y
    }

    pub fn width(&self) -> (r: u16)
        ensures
            r == self@.width,
    {
        self.width
    }

    pub fn height(&self) -> (r: u16)
        ensures
            r == self@.height,
    {
        self.height
    }

    /// The RGBA bytes, row by row.
    pub fn get_rgba(&self) -> (r: Vec<u8>)
        ensures
            r@ == self@.rgba,
    {
        let mut out: Vec<u8> = Vec::new();
        let mut i: usize = 0;
        while i < self.rgba.len()
            invariant
                i <= self.rgba@.len(),
                out@ == self.rgba@.subrange(0, i as int),
            decreases self.rgba@.len() - i,
        {
            out.push(self.rgba[i]);
            i = i + 1;
            assert(out@ =~= self.rgba@.subrange(0, i as int));
        }
        assert(out@ =~= self.rgba@);
        out
    }
}

/// `f` shows packet `p` coloured through `pal` on a `sw x sh` screen.
pub open spec fn frame_shows(f: VobSubFrameView, p: SubtitlePacket, pal: VobSubPalette, sw: u16, sh: u16) -> bool {
    &&& f.screen_width == sw
    &&& f.screen_height == sh
    &&& f.x == p.x
    &&& f.y == p.y
    &&& f.width == p.width
    &&& f.height == p.height
    &&& f.rgba.len() == p.width as int * p.height as int * 4
    &&& forall|y: int, x: int, c: int|
        0 <= y < p.height && 0 <= x < p.width && 0 <= c < 4 ==> #[trigger] f.rgba[pixel_byte(p.width as int, y, x, c)]
            == code_rgba(p, pal, packet_pixel(p, y, x) as int)[c]
}

/// A VobSub subtitle track: the index entries (sorted by start time), the
/// palette and screen size, the `.sub` stream, and parsed packets.
pub struct VobSubParser {
    idx_data: Option<IdxParseResult>,
    sub_data: Option<Vec<u8>>,
    timestamps_ms: Vec<u32>,
    packet_cache: Vec<Option<Option<SubtitlePacket>>>,
}

impl VobSubParser {
    /// The subtitles, sorted by start time (none before loading).
    pub closed spec fn entries(&self) -> Seq<VobSubTimestamp> {
        match self.idx_data {
            Some(d) => d.timestamps@,
            None => Seq::empty(),
        }
    }

    /// The `.sub` stream (empty before loading).
    pub closed spec fn sub(&self) -> Seq<u8> {
        match self.sub_data {
            Some(v) => v@,
            None => Seq::empty(),
        }
    }

    /// The index data, once loaded.
    pub closed spec fn index(&self) -> Option<IdxParseResult> {
        self.idx_data
    }

    pub closed spec fn wf(&self) -> bool {
        &&& self.idx_data.is_some() == self.sub_data.is_some()
        &&& entries_sorted(self.entries())
        &&& self.timestamps_ms@ == entry_times(self.entries())
        &&& self.packet_cache@.len() == self.entries().len()
        &&& self.sub().len() <= isize::MAX
        &&& forall|i: int| 0 <= i < self.entries().len() ==> cache_entry_ok(self.sub(), self.entries()[i], #[trigger] self.packet_cache@[i])
    }

    pub fn new() -> (r: Self)
        ensures
            r.wf(),
            r.entries().len() == 0,
            r.index().is_none(),
    {
        let r = VobSubParser { idx_data: None, sub_data: None, timestamps_ms: Vec::new(), packet_cache: Vec::new() };
        assert(r.timestamps_ms@ =~= entry_times(r.entries()));
        r
    }

    /// Drops everything loaded.
    pub fn dispose(&mut self)
        ensures
            final(self).wf(),
            final(self).entries().len() == 0,
            final(self).index().is_none(),
    {
        self.idx_data = None;
        self.sub_data = None;
        self.timestamps_ms = Vec::new();
        self.packet_cache = Vec::new();
        assert(self.timestamps_ms@ =~= entry_times(self.entries()));
    }

    /// Forgets the parsed packets.
    pub fn clear_cache(&mut self)
        requires
            old(self).wf(),
        ensures
            final(self).wf(),
            final(self).entries() == old(self).entries(),
            final(self).sub() == old(self).sub(),
            final(self).index() == old(self).index(),
    {
        let n = self.packet_cache.len();
        self.packet_cache = empty_cache(n);
    }

    /// The number of subtitles.
    pub fn count(&self) -> (r: usize)
        requires
            self.wf(),
        ensures
            r == self.entries().len(),
    {
        self.timestamps_ms.len()
    }

    /// The start times in milliseconds, ascending.
    pub fn get_timestamps(&self) -> (r: Vec<u32>)
        requires
            self.wf(),
        ensures
            r@ == entry_times(self.entries()),
    {
        let mut out: Vec<u32> = Vec::new();
        let mut i: usize = 0;
        while i < self.timestamps_ms.len()
            invariant
                i <= self.timestamps_ms@.len(),
                out@ == self.timestamps_ms@.subrange(0, i as int),
            decreases self.timestamps_ms@.len() - i,
        {
            out.push(self.timestamps_ms[i]);
            i = i + 1;
            assert(out@ =~= self.timestamps_ms@.subrange(0, i as int));
        }
        assert(out@ =~= self.timestamps_ms@);
        out
    }
}

impl Default for VobSubParser {
    fn default() -> (r: Self)
        ensures
            r.wf(),
            r.entries().len() == 0,
    {
        VobSubParser::new()
    }
}

/// The subtitles a scan of a bare `.sub` stream finds from `off` on: at each
/// pack header that starts a unit with a non-empty bitmap, its start time and
/// offset.
pub open spec fn sub_only_from(d: Seq<u8>, off: int) -> Seq<VobSubTimestamp>
    decreases d.len() - off,
{
    if off < 0 || off + 4 >= d.len() {
        Seq::empty()
    } else {
        let rest = sub_only_from(d, off + 1);
        let sc = unit_scan(d, off);
        let st = unit_control(sc.payload);
        if d[off] == 0 && d[off + 1] == 0 && d[off + 2] == 1 && d[off + 3] == 0xBA && sc.payload.len() >= 4
            && st.width > 0 && st.height > 0 {
            seq![VobSubTimestamp { timestamp_ms: sc.pts, file_position: off as u64 }] + rest
        } else {
            rest
        }
    }
}

impl VobSubParser {
    /// Loads an index and its `.sub` stream, replacing what was loaded. The
    /// index entries are sorted by start time.
    pub fn load_from_data(&mut self, idx_content: &str, sub_data: &[u8])
        requires
            sub_data@.len() <= isize::MAX,
        ensures
            final(self).wf(),
            final(self).sub() == sub_data@,
            final(self).index() matches Some(ix) && exists|raw: IdxParseResult|
                result_matches(raw, idx_model(idx_content.spec_bytes())) && ix.palette == raw.palette && ix.metadata
                    == raw.metadata && ix.timestamps@.to_multiset() == raw.timestamps@.to_multiset(),
    {
        let idx = parse_idx(idx_content);
        let ghost raw = idx;
        let IdxParseResult { palette, timestamps, metadata } = idx;
        let sorted = sort_entries(timestamps);
        let n = sorted.len();
        self.timestamps_ms = times_of(&sorted);
        self.idx_data = Some(IdxParseResult { palette, timestamps: sorted, metadata });
        self.sub_data = Some(copy_slice(sub_data));
        self.packet_cache = empty_cache(n);
        proof {
            let ix = self.idx_data.unwrap();
            assert(result_matches(raw, idx_model(idx_content.spec_bytes())) && ix.palette == raw.palette
                && ix.metadata == raw.metadata && ix.timestamps@.to_multiset() == raw.timestamps@.to_multiset());
        }
    }

    /// Loads a bare `.sub` stream: every pack header that starts a unit with a
    /// non-empty bitmap becomes a subtitle, sorted by start time, with the
    /// grey-scale palette and a 720 x 480 screen.
    pub fn load_from_sub_only(&mut self, sub_data: &[u8])
        requires
            sub_data@.len() <= isize::MAX,
        ensures
            final(self).wf(),
            final(self).sub() == sub_data@,
            final(self).entries().to_multiset() == sub_only_from(sub_data@, 0).to_multiset(),
            final(self).index() matches Some(ix) && ix.palette.rgba@ == default_palette() && ix.metadata.width == 720
                && ix.metadata.height == 480,
    {
        let palette = VobSubPalette::default_palette();
        let len = sub_data.len();
        let mut found: Vec<VobSubTimestamp> = Vec::new();
        let mut offset: usize = 0;
        let stop: usize = if len >= 4 { len - 4 } else { 0 };
        while offset < stop
            invariant
                len == sub_data@.len(),
                len <= isize::MAX,
                stop as int == if len >= 4 { len - 4 } else { 0 },
                offset <= stop,
                sub_only_from(sub_data@, 0) == found@ + sub_only_from(sub_data@, offset as int),
            decreases stop - offset,
        {
            let ghost before = found@;
            if sub_data[offset] == 0 && sub_data[offset + 1] == 0 && sub_data[offset + 2] == 1 && sub_data[offset + 3] == 0xBA {
                match parse_subtitle_packet(sub_data, offset, &palette) {
                    Some((packet, _)) => {
                        if packet.width > 0 && packet.height > 0 {
                            found.push(VobSubTimestamp { timestamp_ms: packet.timestamp_ms, file_position: offset as u64 });
                        }
                    },
                    None => {},
                }
            }
            proof {
                assert(found@ + sub_only_from(sub_data@, offset + 1) =~= before + sub_only_from(sub_data@, offset as int));
            }
            offset = offset + 1;
        }
        proof {
            assert(sub_only_from(sub_data@, offset as int) =~= Seq::<VobSubTimestamp>::empty());
            assert(found@ =~= sub_only_from(sub_data@, 0));
        }
        let sorted = sort_entries(found);
        let n = sorted.len();
        self.timestamps_ms = times_of(&sorted);
        self.idx_data = Some(
            IdxParseResult { palette, timestamps: sorted, metadata: VobSubMetadata::default_metadata() },
        );
        self.sub_data = Some(copy_slice(sub_data));
        self.packet_cache = empty_cache(n);
    }

    /// Parses the packet of subtitle `index` unless it is cached.
    fn ensure_packet(&mut self, index: usize)
        requires
            old(self).wf(),
            index < old(self).entries().len(),
        ensures
            final(self).wf(),
            final(self).entries() == old(self).entries(),
            final(self).sub() == old(self).sub(),
            final(self).index() == old(self).index(),
            final(self).packet_cache@[index as int].is_some(),
    {
        if self.packet_cache[index].is_some() {
            return;
        }
        let parsed = match (&self.idx_data, &self.sub_data) {
            (Some(ix), Some(sub)) => {
                let pos = ix.timestamps[index].file_position;
                if pos > usize::MAX as u64 {
                    None
                } else {
                    match parse_subtitle_packet(sub.as_slice(), pos as usize, &ix.palette) {
                        Some((p, _)) => Some(p),
                        None => None,
                    }
                }
            },
            _ => None,
        };
        self.packet_cache.set(index, Some(parsed));
        proof {
            assert forall|i: int| 0 <= i < self.entries().len() implies cache_entry_ok(
                self.sub(),
                self.entries()[i],
                #[trigger] self.packet_cache@[i],
            ) by {}
        }
    }

    /// The subtitle showing at `time_ms`: the last one that starts at or
    /// before it, while it has not ended (see `end_time`); -1 when none shows.
    pub fn find_index_at_timestamp(&mut self, time_ms: u32) -> (r: i32)
        requires
            old(self).wf(),
        ensures
            final(self).wf(),
            final(self).entries() == old(self).entries(),
            final(self).sub() == old(self).sub(),
            final(self).index() == old(self).index(),
            old(self).entries().len() == 0 ==> r == -1,
            r >= 0 ==> is_latest_at_or_before(entry_times(old(self).entries()), time_ms, r as int) && old(self).entries()[r as int].timestamp_ms
                <= time_ms && (time_ms as int) < end_time(old(self).entries(), old(self).sub(), r as int),
            r < 0 && 0 < old(self).entries().len() <= i32::MAX ==> r == -1 && forall|i: int|
                is_latest_at_or_before(entry_times(old(self).entries()), time_ms, i) ==> !(old(self).entries()[i].timestamp_ms
                    <= time_ms && (time_ms as int) < end_time(old(self).entries(), old(self).sub(), i)),
    {
        let n = self.timestamps_ms.len();
        if n == 0 {
            return -1;
        }
        let ghost e = self.entries();
        let ghost t = entry_times(e);
        proof {
            assert(is_sorted(t));
        }
        let i = binary_search_timestamp(self.timestamps_ms.as_slice(), time_ms);
        proof {
            lemma_latest_unique(t, time_ms, i as int);
        }
        if time_ms < self.timestamps_ms[i] {
            return -1;
        }
        self.ensure_packet(i);
        let dur: u64 = match &self.packet_cache[i] {
            Some(Some(p)) => p.duration_ms as u64,
            _ => DEFAULT_DURATION_MS as u64,
        };
        proof {
            if let Some(Some(p)) = self.packet_cache@[i as int] {
                assert(p.duration_ms as int == unit_duration(self.sub(), e[i as int].file_position));
            }
        }
        let start = self.timestamps_ms[i] as u64;
        let end: u64 = if i + 1 < n {
            let next = self.timestamps_ms[i + 1] as u64;
            if dur != DEFAULT_DURATION_MS as u64 && start + dur < next {
                start + dur
            } else {
                next
            }
        } else {
            start + dur
        };
        if (time_ms as u64) < end && i <= i32::MAX as usize {
            i as i32
        } else {
            -1
        }
    }

    /// Renders subtitle `index`: its packet's bitmap at its position on the
    /// index's screen. `None` when there is no such subtitle or no unit at its
    /// file position.
    pub fn render_at_index(&mut self, index: usize) -> (r: Option<VobSubFrame>)
        requires
            old(self).wf(),
        ensures
            final(self).wf(),
            final(self).entries() == old(self).entries(),
            final(self).sub() == old(self).sub(),
            final(self).index() == old(self).index(),
            index >= old(self).entries().len() ==> r.is_none(),
            index < old(self).entries().len() && !unit_found(old(self).sub(), old(self).entries()[index as int].file_position)
                ==> r.is_none(),
            index < old(self).entries().len() && unit_found(old(self).sub(), old(self).entries()[index as int].file_position)
                && ({
                let payload = unit_scan(old(self).sub(), old(self).entries()[index as int].file_position as int).payload;
                let st = unit_control(payload);
                st.width as int * st.height as int * 4 <= usize::MAX && payload.len() <= isize::MAX
            }) ==> r.is_some(),
            r matches Some(f) ==> exists|p: SubtitlePacket|
                is_packet_at(old(self).sub(), old(self).entries()[index as int].file_position, p) && frame_shows(
                    f@,
                    p,
                    old(self).index().unwrap().palette,
                    old(self).index().unwrap().metadata.width,
                    old(self).index().unwrap().metadata.height,
                ),
    {
        if index >= self.timestamps_ms.len() {
            return None;
        }
        self.ensure_packet(index);
        let ix = match &self.idx_data {
            Some(ix) => ix,
            None => return None,
        };
        let packet = match &self.packet_cache[index] {
            Some(Some(p)) => p,
            _ => return None,
        };
        proof {
            assert((packet.width as int) * (packet.height as int) <= 65535 * 65535) by (nonlinear_arith)
                requires
                    packet.width <= 65535,
                    packet.height <= 65535,
            ;
        }
        if (packet.width as u64) * (packet.height as u64) * 4 > usize::MAX as u64
            || packet.even_field_data.len() > isize::MAX as usize || packet.odd_field_data.len() > isize::MAX as usize {
            return None;
        }
        let rgba = decode_vobsub_rle(packet, &ix.palette);
        let f = VobSubFrame {
            screen_width: ix.metadata.width,
            screen_height: ix.metadata.height,
            x: packet.x,
            y: packet.y,
            width: packet.width,
            height: packet.height,
            rgba,
        };
        proof {
            assert(packet.width > 0 && packet.height > 0 || f.rgba@.len() == packet.width as int * packet.height as int * 4) by (nonlinear_arith)
                requires
                    packet.width == 0 || packet.height == 0 ==> f.rgba@.len() == 0,
                    packet.width > 0 && packet.height > 0 ==> f.rgba@.len() == packet.width as int * packet.height as int * 4,
            ;
            assert(frame_shows(f@, *packet, ix.palette, ix.metadata.width, ix.metadata.height));
        }
        Some(f)
    }
}

/// A cache of `n` unparsed entries.
fn empty_cache(n: usize) -> (r: Vec<Option<Option<SubtitlePacket>>>)
    ensures
        r@.len() == n,
        forall|i: int| 0 <= i < n ==> r@[i].is_none(),
{
    let mut v: Vec<Option<Option<SubtitlePacket>>> = Vec::new();
    let mut i: usize = 0;
    while i < n
        invariant
            i <= n,
            v@.len() == i,
            forall|k: int| 0 <= k < i ==> v@[k].is_none(),
        decreases n - i,
    {
        v.push(None);
        i = i + 1;
    }
    v
}

/// Copies a byte slice.
fn copy_slice(d: &[u8]) -> (r: Vec<u8>)
    ensures
        r@ == d@,
{
    let mut out: Vec<u8> = Vec::new();
    let mut i: usize = 0;
    while i < d.len()
        invariant
            i <= d@.len(),
            out@ == d@.subrange(0, i as int),
        decreases d@.len() - i,
    {
        out.push(d[i]);
        i = i + 1;
        assert(out@ =~= d@.subrange(0, i as int));
    }
    assert(out@ =~= d@);
    out
}

/// The start times of `e`.
fn times_of(e: &Vec<VobSubTimestamp>) -> (r: Vec<u32>)
    ensures
        r@ == entry_times(e@),
{
    let mut out: Vec<u32> = Vec::new();
    let mut i: usize = 0;
    while i < e.len()
        invariant
            i <= e@.len(),
            out@ == entry_times(e@.subrange(0, i as int)),
        decreases e@.len() - i,
    {
        out.push(e[i].timestamp_ms);
        i = i + 1;
        assert(out@ =~= entry_times(e@.subrange(0, i as int)));
    }
    assert(e@.subrange(0, i as int) =~= e@);
    out
}

} // verus!
