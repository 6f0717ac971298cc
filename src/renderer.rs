//! One renderer for both formats: loads PGS or VobSub and hands out frames.
use vstd::prelude::*;
use crate::pgs::parser::{frame_at, is_display_set_at, stream_offsets, CompositionView, PgsParser, SubtitleComposition, SubtitleFrame};
use crate::vobsub::idx_parser::{default_palette, idx_model, result_matches, IdxParseResult};
use crate::vobsub::vobsub_parser::{frame_shows, is_packet_at, sub_only_from, VobSubFrameView};
use crate::vobsub::sub_parser::SubtitlePacket;
use vstd::string::StringSliceAdditionalSpecFns;
use crate::utils::{is_latest_at_or_before, is_sorted, lemma_latest_unique};
use crate::vobsub::vobsub_parser::{end_time, entry_times, VobSubFrame, VobSubParser};

verus! {

/// The format loaded.
#[derive(Debug, Clone, Copy, PartialEq, Eq)]
pub enum SubtitleFormat {
    /// Blu-ray PGS.
    Pgs,
    /// DVD VobSub.
    VobSub,
}

/// A rendered frame of either format: the screen size and its bitmaps.
#[derive(Debug)]
pub struct RenderResult {
    screen_width: u16,
    screen_height: u16,
    compositions: Vec<SubtitleComposition>,
}

impl View for RenderResult {
    type V = (u16, u16, Seq<CompositionView>);

    closed spec fn view(&self) -> (u16, u16, Seq<CompositionView>) {
        (self.screen_width, self.screen_height, self.compositions@.map_values(|c: SubtitleComposition| c@))
    }
}

impl RenderResult {
    pub fn screen_width(&self) -> (r: u16)
        ensures
            r == self@.0,
    {
        self.screen_width
    }

    pub fn screen_height(&self) -> (r: u16)
        ensures
            r == self@.1,
    {
        self.screen_height
    }

    pub fn composition_count(&self) -> (r: usize)
        ensures
            r == self@.2.len(),
    {
        self.compositions.len()
    }

    /// The x of bitmap `index`, 0 when there is none.
    pub fn get_composition_x(&self, index: usize) -> (r: u16)
        ensures
            index < self@.2.len() ==> r == self@.2[index as int].x,
            index >= self@.2.len() ==> r == 0,
    {
        if index < self.compositions.len() {
            self.compositions[index].x()
        } else {
            0
        }
    }

    /// The y of bitmap `index`, 0 when there is none.
    pub fn get_composition_y(&self, index: usize) -> (r: u16)
        ensures
            index < self@.2.len() ==> r == self@.2[index as int].y,
            index >= self@.2.len() ==> r == 0,
    {
        if index < self.compositions.len() {
            self.compositions[index].y()
        } else {
            0
        }
    }

    /// The width of bitmap `index`, 0 when there is none.
    pub fn get_composition_width(&self, index: usize) -> (r: u16)
        ensures
            index < self@.2.len() ==> r == self@.2[index as int].width,
            index >= self@.2.len() ==> r == 0,
    {
        if index < self.compositions.len() {
            self.compositions[index].width()
        } else {
            0
        }
    }

    /// The height of bitmap `index`, 0 when there is none.
    pub fn get_composition_height(&self, index: usize) -> (r: u16)
        ensures
            index < self@.2.len() ==> r == self@.2[index as int].height,
            index >= self@.2.len() ==> r == 0,
    {
        if index < self.compositions.len() {
            self.compositions[index].height()
        } else {
            0
        }
    }

    /// The RGBA bytes of bitmap `index`, none when there is no such bitmap.
    pub fn get_composition_rgba(&self, index: usize) -> (r: Vec<u8>)
        ensures
            index < self@.2.len() ==> r@ == self@.2[index as int].rgba,
            index >= self@.2.len() ==> r@.len() == 0,
    {
        if index < self.compositions.len() {
            self.compositions[index].get_rgba()
        } else {
            Vec::new()
        }
    }
}

/// A renderer holding at most one loaded track.
pub struct SubtitleRenderer {
    pgs_parser: Option<PgsParser>,
    vobsub_parser: Option<VobSubParser>,
    format: Option<SubtitleFormat>,
}

impl SubtitleRenderer {
    /// The PGS track, when one is loaded.
    pub closed spec fn pgs(&self) -> Option<PgsParser> {
        if self.format == Some(SubtitleFormat::Pgs) {
            self.pgs_parser
        } else {
            None
        }
    }

    /// The VobSub track, when one is loaded.
    pub closed spec fn vobsub(&self) -> Option<VobSubParser> {
        if self.format == Some(SubtitleFormat::VobSub) {
            self.vobsub_parser
        } else {
            None
        }
    }

    /// The format loaded.
    pub closed spec fn loaded(&self) -> Option<SubtitleFormat> {
        self.format
    }

    pub closed spec fn wf(&self) -> bool {
        &&& self.format == Some(SubtitleFormat::Pgs) ==> (self.pgs_parser matches Some(p) && p.wf())
        &&& self.format == Some(SubtitleFormat::VobSub) ==> (self.vobsub_parser matches Some(v) && v.wf())
    }

    pub fn new() -> (r: Self)
        ensures
            r.wf(),
            r.loaded().is_none(),
    {
        SubtitleRenderer { pgs_parser: None, vobsub_parser: None, format: None }
    }

    /// Drops the loaded track.
    pub fn dispose(&mut self)
        ensures
            final(self).wf(),
            final(self).loaded().is_none(),
    {
        self.pgs_parser = None;
        self.vobsub_parser = None;
        self.format = None;
    }

    /// Loads a PGS stream; returns its number of display sets.
    pub fn load_pgs(&mut self, data: &[u8]) -> (r: usize)
        ensures
            final(self).wf(),
            final(self).loaded() == Some(SubtitleFormat::Pgs),
            final(self).pgs() matches Some(p) && r == p.sets().len() && p.sets().len() == stream_offsets(data@, 0).len()
                && forall|k: int|
                0 <= k < p.sets().len() ==> is_display_set_at(data@, stream_offsets(data@, 0)[k], #[trigger] p.sets()[k]),
    {
        self.dispose();
        let mut parser = PgsParser::new();
        let count = parser.parse(data);
        self.pgs_parser = Some(parser);
        self.format = Some(SubtitleFormat::Pgs);
        count
    }

    /// Loads a VobSub index and its `.sub` stream.
    pub fn load_vobsub(&mut self, idx_content: &str, sub_data: &[u8])
        requires
            sub_data@.len() <= isize::MAX,
        ensures
            final(self).wf(),
            final(self).loaded() == Some(SubtitleFormat::VobSub),
            final(self).vobsub() matches Some(v) && v.sub() == sub_data@ && (v.index() matches Some(ix) && exists|
                raw: IdxParseResult,
            |
                result_matches(raw, idx_model(idx_content.spec_bytes())) && ix.palette == raw.palette && ix.metadata
                    == raw.metadata && ix.timestamps@.to_multiset() == raw.timestamps@.to_multiset()),
    {
        self.dispose();
        let mut parser = VobSubParser::new();
        parser.load_from_data(idx_content, sub_data);
        self.vobsub_parser = Some(parser);
        self.format = Some(SubtitleFormat::VobSub);
    }

    /// Loads a bare VobSub `.sub` stream.
    pub fn load_vobsub_only(&mut self, sub_data: &[u8])
        requires
            sub_data@.len() <= isize::MAX,
        ensures
            final(self).wf(),
            final(self).loaded() == Some(SubtitleFormat::VobSub),
            final(self).vobsub() matches Some(v) && v.sub() == sub_data@ && v.entries().to_multiset() == sub_only_from(
                sub_data@,
                0,
            ).to_multiset() && (v.index() matches Some(ix) && ix.palette.rgba@ == default_palette()
                && ix.metadata.width == 720 && ix.metadata.height == 480),
    {
        self.dispose();
        let mut parser = VobSubParser::new();
        parser.load_from_sub_only(sub_data);
        self.vobsub_parser = Some(parser);
        self.format = Some(SubtitleFormat::VobSub);
    }

    pub fn format(&self) -> (r: Option<SubtitleFormat>)
        ensures
            r == self.loaded(),
    {
        self.format
    }

    /// The number of subtitles of the loaded track (0 when none is).
    pub fn count(&self) -> (r: usize)
        requires
            self.wf(),
        ensures
            self.pgs() matches Some(p) ==> r == p.sets().len(),
            self.vobsub() matches Some(v) ==> r == v.entries().len(),
            self.loaded().is_none() ==> r == 0,
    {
        match self.format {
            Some(SubtitleFormat::Pgs) => match &self.pgs_parser {
                Some(p) => p.count(),
                None => 0,
            },
            Some(SubtitleFormat::VobSub) => match &self.vobsub_parser {
                Some(v) => v.count(),
                None => 0,
            },
            None => 0,
        }
    }

    /// The start times of the loaded track in milliseconds.
    pub fn get_timestamps(&self) -> (r: Vec<u32>)
        requires
            self.wf(),
        ensures
            self.pgs() matches Some(p) ==> r@.len() == p.sets().len() && forall|k: int|
                0 <= k < r@.len() ==> r@[k] == p.sets()[k].pts / 90,
            self.vobsub() matches Some(v) ==> r@ == crate::vobsub::vobsub_parser::entry_times(v.entries()),
            self.loaded().is_none() ==> r@.len() == 0,
    {
        match self.format {
            Some(SubtitleFormat::Pgs) => match &self.pgs_parser {
                Some(p) => p.get_timestamps(),
                None => Vec::new(),
            },
            Some(SubtitleFormat::VobSub) => match &self.vobsub_parser {
                Some(v) => v.get_timestamps(),
                None => Vec::new(),
            },
            None => Vec::new(),
        }
    }

    /// The subtitle for a time in milliseconds, as the loaded track's own
    /// lookup gives it; -1 when nothing is loaded.
    pub fn find_index_at_timestamp(&mut self, time_ms: u32) -> (r: i32)
        requires
            old(self).wf(),
        ensures
            final(self).wf(),
            final(self).loaded() == old(self).loaded(),
            old(self).loaded().is_none() ==> r == -1,
            old(self).pgs() matches Some(p) ==> final(self).pgs() == Some(p) && (p.sets().len() == 0 ==> r == -1) && (
            0 < p.sets().len() <= i32::MAX && is_sorted(p.times()) ==> 0 <= r && is_latest_at_or_before(
                p.times(),
                time_ms,
                r as int,
            )),
            old(self).vobsub() matches Some(v) ==> final(self).vobsub() matches Some(w) && w.entries() == v.entries()
                && w.sub() == v.sub() && w.index() == v.index() && (v.entries().len() == 0 ==> r == -1) && (r >= 0
                ==> is_latest_at_or_before(entry_times(v.entries()), time_ms, r as int) && v.entries()[r as int].timestamp_ms
                <= time_ms && (time_ms as int) < end_time(v.entries(), v.sub(), r as int)) && (r < 0 && 0 < v.entries().len()
                <= i32::MAX ==> r == -1 && forall|i: int|
                is_latest_at_or_before(entry_times(v.entries()), time_ms, i) ==> !(v.entries()[i].timestamp_ms <= time_ms
                    && (time_ms as int) < end_time(v.entries(), v.sub(), i))),
    {
        match self.format {
            Some(SubtitleFormat::Pgs) => match &self.pgs_parser {
                Some(p) => p.find_index_at_timestamp(time_ms),
                None => -1,
            },
            Some(SubtitleFormat::VobSub) => match &mut self.vobsub_parser {
                Some(v) => v.find_index_at_timestamp(time_ms),
                None => -1,
            },
            None => -1,
        }
    }

    /// Renders subtitle `index` of the loaded track. A VobSub frame has one
    /// bitmap; a PGS frame has those of its composition.
    pub fn render_at_index(&mut self, index: usize) -> (r: Option<RenderResult>)
        requires
            old(self).wf(),
        ensures
            final(self).wf(),
            final(self).loaded() == old(self).loaded(),
            old(self).loaded().is_none() ==> r.is_none(),
            old(self).pgs() matches Some(p) ==> final(self).pgs() matches Some(q) && q.sets() == p.sets() && (index
                < p.sets().len() ==> match frame_at(p.sets(), index as int) {
                None => r.is_none(),
                Some(f) => r matches Some(rr) && rr@ == f,
            }) && (index >= p.sets().len() ==> r.is_none()),
            old(self).vobsub() matches Some(v) ==> final(self).vobsub() matches Some(w) && w.entries() == v.entries()
                && w.sub() == v.sub() && w.index() == v.index() && (index >= v.entries().len() ==> r.is_none()) && (
            r matches Some(rr) ==> rr@.2.len() == 1 && exists|p: SubtitlePacket|
                is_packet_at(v.sub(), v.entries()[index as int].file_position, p) && frame_shows(
                    result_frame_view(rr@),
                    p,
                    v.index().unwrap().palette,
                    v.index().unwrap().metadata.width,
                    v.index().unwrap().metadata.height,
                )),
    {
        match self.format {
            Some(SubtitleFormat::Pgs) => {
                let parser = match &mut self.pgs_parser {
                    Some(p) => p,
                    None => return None,
                };
                let frame = match parser.render_at_index(index) {
                    Some(f) => f,
                    None => return None,
                };
                Some(frame_to_result(frame))
            },
            Some(SubtitleFormat::VobSub) => {
                let parser = match &mut self.vobsub_parser {
                    Some(v) => v,
                    None => return None,
                };
                let frame = match parser.render_at_index(index) {
                    Some(f) => f,
                    None => return None,
                };
                Some(vobsub_to_result(frame))
            },
            None => None,
        }
    }

    /// Renders the subtitle showing at `time_ms` milliseconds, if any: for
    /// PGS the display set that `find_index_at_timestamp` picks, for VobSub
    /// the subtitle whose display window holds the time.
    pub fn render_at_timestamp(&mut self, time_ms: u32) -> (r: Option<RenderResult>)
        requires
            old(self).wf(),
        ensures
            final(self).wf(),
            final(self).loaded() == old(self).loaded(),
            old(self).loaded().is_none() ==> r.is_none(),
            old(self).pgs() matches Some(p) ==> (0 < p.sets().len() <= i32::MAX && is_sorted(p.times()) ==> forall|i: int|
                #[trigger] is_latest_at_or_before(p.times(), time_ms, i) ==> match frame_at(p.sets(), i) {
                    None => r.is_none(),
                    Some(f) => r matches Some(rr) && rr@ == f,
                }),
            old(self).vobsub() matches Some(v) ==> (r.is_some() ==> exists|i: int|
                is_latest_at_or_before(entry_times(v.entries()), time_ms, i) && v.entries()[i].timestamp_ms <= time_ms
                    && (time_ms as int) < end_time(v.entries(), v.sub(), i)),
    {
        let ghost before = self.pgs();
        let index = self.find_index_at_timestamp(time_ms);
        proof {
            if let Some(p) = before {
                if 0 < p.sets().len() <= i32::MAX && is_sorted(p.times()) {
                    lemma_latest_unique(p.times(), time_ms, index as int);
                }
            }
        }
        if index < 0 {
            return None;
        }
        let r = self.render_at_index(index as usize);
        proof {
            if let Some(p) = before {
                if 0 < p.sets().len() <= i32::MAX && is_sorted(p.times()) {
                    p.lemma_times();
                    assert(is_latest_at_or_before(p.times(), time_ms, index as int));
                }
            }
        }
        r
    }

    /// Forgets cached decodes and packets.
    pub fn clear_cache(&mut self)
        requires
            old(self).wf(),
        ensures
            final(self).wf(),
            final(self).loaded() == old(self).loaded(),
    {
        match self.format {
            Some(SubtitleFormat::Pgs) => match &mut self.pgs_parser {
                Some(p) => p.clear_cache(),
                None => {},
            },
            Some(SubtitleFormat::VobSub) => match &mut self.vobsub_parser {
                Some(v) => v.clear_cache(),
                None => {},
            },
            None => {},
        }
    }
}

impl Default for SubtitleRenderer {
    fn default() -> (r: Self)
        ensures
            r.wf(),
            r.loaded().is_none(),
    {
        SubtitleRenderer::new()
    }
}

/// A one-bitmap frame seen as a VobSub frame.
pub open spec fn result_frame_view(v: (u16, u16, Seq<CompositionView>)) -> VobSubFrameView {
    VobSubFrameView {
        screen_width: v.0,
        screen_height: v.1,
        x: v.2[0].x,
        y: v.2[0].y,
        width: v.2[0].width,
        height: v.2[0].height,
        rgba: v.2[0].rgba,
    }
}

fn frame_to_result(frame: SubtitleFrame) -> (r: RenderResult)
    ensures
        r@ == frame@,
{
    let width = frame.width();
    let height = frame.height();
    let n = frame.composition_count();
    let mut compositions: Vec<SubtitleComposition> = Vec::new();
    let mut i: usize = 0;
    while i < n
        invariant
            n == frame@.2.len(),
            i <= n,
            compositions@.map_values(|c: SubtitleComposition| c@) == frame@.2.subrange(0, i as int),
        decreases n - i,
    {
        let c = frame.get_composition(i).unwrap();
        let ghost before = compositions@.map_values(|c: SubtitleComposition| c@);
        let ghost cv = c@;
        compositions.push(c);
        assert(compositions@.map_values(|c: SubtitleComposition| c@) =~= before.push(cv));
        assert(before.push(cv) =~= frame@.2.subrange(0, i + 1));
        i = i + 1;
    }
    let r = RenderResult { screen_width: width, screen_height: height, compositions };
    assert(r@.2 =~= frame@.2);
    r
}

fn vobsub_to_result(frame: VobSubFrame) -> (r: RenderResult)
    ensures
        r@.0 == frame@.screen_width,
        r@.1 == frame@.screen_height,
        r@.2.len() == 1,
        r@.2[0] == (CompositionView {
            x: frame@.x,
            y: frame@.y,
            width: frame@.width,
            height: frame@.height,
            rgba: frame@.rgba,
        }),
{
    let c = SubtitleComposition::new(frame.x(), frame.y(), frame.width(), frame.height(), frame.get_rgba());
    let mut compositions: Vec<SubtitleComposition> = Vec::new();
    compositions.push(c);
    RenderResult { screen_width: frame.screen_width(), screen_height: frame.screen_height(), compositions }
}

} // verus!
