//! Window definition segments.
use vstd::prelude::*;
use crate::utils::{be16, BigEndianReader};

verus! {

/// An on-screen rectangle that objects are shown in.
#[derive(Debug, Clone, Copy, Default)]
pub struct WindowDefinition {
    pub id: u8,
    pub x: u16,
    pub y: u16,
    pub width: u16,
    pub height: u16,
}

/// The windows of one segment.
#[derive(Debug, Clone)]
pub struct WindowDefinitionSegment {
    pub windows: Vec<WindowDefinition>,
}

/// The window whose nine bytes start at `p`.
pub open spec fn window_at(d: Seq<u8>, p: int) -> WindowDefinition {
    WindowDefinition {
        id: d[p],
        x: be16(d, p + 1) as u16,
        y: be16(d, p + 3) as u16,
        width: be16(d, p + 5) as u16,
        height: be16(d, p + 7) as u16,
    }
}

/// The bytes a window segment at `p` takes: a count, then nine per window.
pub open spec fn window_segment_size(d: Seq<u8>, p: int) -> int {
    1 + 9 * d[p] as int
}

/// The windows of the segment at `p`, when the data holds them all.
pub open spec fn window_segment(d: Seq<u8>, p: int) -> Option<Seq<WindowDefinition>> {
    if p + 1 <= d.len() && p + window_segment_size(d, p) <= d.len() {
        Some(Seq::new(d[p] as nat, |k: int| window_at(d, p + 1 + 9 * k)))
    } else {
        None
    }
}

impl WindowDefinitionSegment {
    /// Reads a count and that many `(id, x, y, width, height)` records.
    /// On failure the reader is left where it was.
    pub fn parse(reader: &mut BigEndianReader, _length: usize) -> (r: Option<Self>)
        requires
            old(reader).wf(),
        ensures
            final(reader).wf(),
            window_segment(old(reader).bytes(), old(reader).pos()) matches Some(ws) ==> r.is_some()
                && r.unwrap().windows@ == ws && final(reader).advanced(
                old(reader),
                window_segment_size(old(reader).bytes(), old(reader).pos()),
            ),
            window_segment(old(reader).bytes(), old(reader).pos()).is_none() ==> r.is_none() && final(reader).advanced(
                old(reader),
                0,
            ),
    {
        let ghost d = reader.bytes();
        let ghost p = reader.pos();
        let start = reader.position();
        if reader.remaining() < 1 {
            return None;
        }
        let count = match reader.read_u8() {
            Some(c) => c as usize,
            None => return None,
        };
        if reader.remaining() < 9 * count {
            reader.set_position(start);
            return None;
        }
        let mut windows: Vec<WindowDefinition> = Vec::new();
        let mut k: usize = 0;
        while k < count
            invariant
                reader.wf(),
                reader.bytes() == d,
                count == d[p] as int,
                p + 1 + 9 * count <= d.len(),
                k <= count,
                reader.pos() == p + 1 + 9 * k,
                windows@.len() == k,
                forall|j: int| 0 <= j < k ==> windows@[j] == window_at(d, p + 1 + 9 * j),
            decreases count - k,
        {
            let id = reader.read_u8().unwrap();
            let x = reader.read_u16().unwrap();
            let y = reader.read_u16().unwrap();
            let width = reader.read_u16().unwrap();
            let height = reader.read_u16().unwrap();
            windows.push(WindowDefinition { id, x, y, width, height });
            k = k + 1;
        }
        assert(windows@ =~= Seq::new(d[p] as nat, |j: int| window_at(d, p + 1 + 9 * j)));
        Some(WindowDefinitionSegment { windows })
    }
}

} // verus!
