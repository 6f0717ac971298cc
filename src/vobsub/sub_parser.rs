//! The VobSub `.sub` stream: MPEG-2 program stream packets carrying DVD
//! sub-picture units, and the control sequences inside them.
use vstd::prelude::*;
use crate::utils::be16;
use crate::vobsub::idx_parser::VobSubPalette;

verus! {

/// One decoded sub-picture unit.
#[derive(Debug, Clone)]
pub struct SubtitlePacket {
    /// Start time in milliseconds, from the PES presentation timestamp.
    pub timestamp_ms: u32,
    /// Display duration in milliseconds (5000 where the unit sets none).
    pub duration_ms: u32,
    pub x: u16,
    pub y: u16,
    pub width: u16,
    pub height: u16,
    /// For each 2-bit code, an index into the 16-colour palette.
    pub color_indices: [u8; 4],
    /// For each 2-bit code, an alpha value from 0 (transparent) to 15 (opaque).
    pub alpha_values: [u8; 4],
    /// Run-length data of the even lines.
    pub even_field_data: Vec<u8>,
    /// Run-length data of the odd lines.
    pub odd_field_data: Vec<u8>,
}

/// What the control commands of a sub-picture unit have set so far.
#[derive(Debug, Clone, Copy)]
pub struct ControlState {
    pub x: u16,
    pub y: u16,
    pub width: u16,
    pub height: u16,
    /// Delay of the stop command, converted to milliseconds; 0 while none.
    pub duration: u32,
    /// A stop command was seen.
    pub stopped: bool,
    /// The two bytes of the last set-palette command: `[3][2]`, `[1][0]`.
    pub palette_hi: u8,
    pub palette_lo: u8,
    /// The two bytes of the last set-alpha command: `[3][2]`, `[1][0]`.
    pub alpha_hi: u8,
    pub alpha_lo: u8,
    /// Field offsets from the unit's start (0 while unset).
    pub top_field_offset: usize,
    pub bottom_field_offset: usize,
}

/// The state before any command: palette codes 0, 1, 2, 3; code 0
/// transparent and the others opaque.
pub open spec fn initial_control() -> ControlState {
    ControlState {
        x: 0,
        y: 0,
        width: 0,
        height: 0,
        duration: 0,
        stopped: false,
        palette_hi: 0x32,
        palette_lo: 0x10,
        alpha_hi: 0xFF,
        alpha_lo: 0xF0,
        top_field_offset: 0,
        bottom_field_offset: 0,
    }
}

/// The size of the display area between the 12-bit coordinates `lo` and `hi`,
/// both included (1 when `hi` is below `lo`).
pub open spec fn area_extent(lo: int, hi: int) -> int {
    (if hi >= lo { hi - lo } else { 0 }) + 1
}

/// The state after the command `cmd`, whose payload starts at `p`, in a block
/// with `delay`; and where the next command starts.
pub open spec fn apply_command(d: Seq<u8>, p: int, cmd: u8, delay: int, st: ControlState) -> (ControlState, int) {
    if cmd == 0x02 {
        (ControlState { duration: (delay * 1024 / 90) as u32, stopped: true, ..st }, p)
    } else if cmd == 0x03 && p + 2 <= d.len() {
        (ControlState { palette_hi: d[p], palette_lo: d[p + 1], ..st }, p + 2)
    } else if cmd == 0x04 && p + 2 <= d.len() {
        (ControlState { alpha_hi: d[p], alpha_lo: d[p + 1], ..st }, p + 2)
    } else if cmd == 0x05 && p + 6 <= d.len() {
        let x1 = d[p] as int * 16 + d[p + 1] as int / 16;
        let x2 = (d[p + 1] as int % 16) * 256 + d[p + 2] as int;
        let y1 = d[p + 3] as int * 16 + d[p + 4] as int / 16;
        let y2 = (d[p + 4] as int % 16) * 256 + d[p + 5] as int;
        (
            ControlState {
                x: x1 as u16,
                y: y1 as u16,
                width: area_extent(x1, x2) as u16,
                height: area_extent(y1, y2) as u16,
                ..st
            },
            p + 6,
        )
    } else if cmd == 0x06 && p + 4 <= d.len() {
        (
            ControlState {
                top_field_offset: be16(d, p) as usize,
                bottom_field_offset: be16(d, p + 2) as usize,
                ..st
            },
            p + 4,
        )
    } else {
        (st, p)
    }
}

/// The state after the commands of one block from `p` on: up to `0xFF`, a stop
/// command, or the end of the data.
pub open spec fn run_commands(d: Seq<u8>, p: int, delay: int, st: ControlState) -> ControlState
    decreases d.len() - p,
{
    if p < 0 || p >= d.len() {
        st
    } else {
        let cmd = d[p];
        let (next_st, next_p) = apply_command(d, p + 1, cmd, delay, st);
        if cmd == 0xFF || cmd == 0x02 || next_p <= p {
            next_st
        } else {
            run_commands(d, next_p, delay, next_st)
        }
    }
}

/// Most blocks followed in one control chain.
pub const MAX_CONTROL_BLOCKS: usize = 1000;

/// The state after following the chain of control blocks from `ctrl`, having
/// followed `count` already. The chain ends after `MAX_CONTROL_BLOCKS` blocks,
/// at a stop command, at the end of the data, or where a block's next offset
/// points before the first block or at or before the block itself.
pub open spec fn run_chain(d: Seq<u8>, ctrl: int, count: int, first: int, st: ControlState) -> ControlState
    decreases MAX_CONTROL_BLOCKS - count,
{
    if ctrl < 0 || ctrl >= d.len() || count >= MAX_CONTROL_BLOCKS || st.stopped || ctrl + 4 > d.len() {
        st
    } else {
        let next_st = run_commands(d, ctrl + 4, be16(d, ctrl), st);
        let next = be16(d, ctrl + 2);
        if next < first || next <= ctrl {
            next_st
        } else {
            run_chain(d, next, count + 1, first, next_st)
        }
    }
}

/// The state after a whole unit's control chain.
pub open spec fn unit_control(d: Seq<u8>) -> ControlState {
    run_chain(d, be16(d, 2), 0, be16(d, 2), initial_control())
}

fn read_be16(data: &[u8], p: usize) -> (r: usize)
    requires
        p + 2 <= data@.len(),
    ensures
        r as int == be16(data@, p as int),
        r < 65536,
{
    (data[p] as usize) * 256 + (data[p + 1] as usize)
}

fn apply_command_exec(data: &[u8], p: usize, cmd: u8, delay: usize, st: ControlState) -> (r: (ControlState, usize))
    requires
        p <= data@.len(),
        delay < 65536,
    ensures
        r.0 == apply_command(data@, p as int, cmd, delay as int, st).0,
        r.1 as int == apply_command(data@, p as int, cmd, delay as int, st).1,
{
    let len = data.len();
    let mut st = st;
    if cmd == 0x02 {
        st.duration = ((delay * 1024) / 90) as u32;
        st.stopped = true;
        (st, p)
    } else if cmd == 0x03 && len - p >= 2 {
        st.palette_hi = data[p];
        st.palette_lo = data[p + 1];
        (st, p + 2)
    } else if cmd == 0x04 && len - p >= 2 {
        st.alpha_hi = data[p];
        st.alpha_lo = data[p + 1];
        (st, p + 2)
    } else if cmd == 0x05 && len - p >= 6 {
        let x1 = (data[p] as u16) * 16 + (data[p + 1] / 16) as u16;
        let x2 = ((data[p + 1] % 16) as u16) * 256 + data[p + 2] as u16;
        let y1 = (data[p + 3] as u16) * 16 + (data[p + 4] / 16) as u16;
        let y2 = ((data[p + 4] % 16) as u16) * 256 + data[p + 5] as u16;
        st.x = x1;
        st.y = y1;
        st.width = (if x2 >= x1 { x2 - x1 } else { 0 }) + 1;
        st.height = (if y2 >= y1 { y2 - y1 } else { 0 }) + 1;
        (st, p + 6)
    } else if cmd == 0x06 && len - p >= 4 {
        st.top_field_offset = read_be16(data, p);
        st.bottom_field_offset = read_be16(data, p + 2);
        (st, p + 4)
    } else {
        (st, p)
    }
}

fn run_commands_exec(data: &[u8], start: usize, delay: usize, init: ControlState) -> (r: ControlState)
    requires
        delay < 65536,
    ensures
        r == run_commands(data@, start as int, delay as int, init),
{
    let len = data.len();
    let mut p = start;
    let mut st = init;
    let ghost target = run_commands(data@, start as int, delay as int, init);
    while p < len
        invariant
            target == run_commands(data@, start as int, delay as int, init),
            len == data@.len(),
            delay < 65536,
            run_commands(data@, p as int, delay as int, st) == target,
        decreases len - p,
    {
        let cmd = data[p];
        let (next_st, next_p) = apply_command_exec(data, p + 1, cmd, delay, st);
        assert(run_commands(data@, p as int, delay as int, st) == if cmd == 0xFF || cmd == 0x02 || next_p <= p {
            next_st
        } else {
            run_commands(data@, next_p as int, delay as int, next_st)
        });
        if cmd == 0xFF || cmd == 0x02 || next_p <= p {
            return next_st;
        }
        p = next_p;
        st = next_st;
    }
    st
}

/// The bytes of `d` in `[start, min(end, |d|))`, or none when that is empty.
pub open spec fn field_bytes(d: Seq<u8>, start: int, end: int) -> Seq<u8> {
    let e = if end <= d.len() {
        end
    } else {
        d.len() as int
    };
    if start < e {
        d.subrange(start, e)
    } else {
        Seq::empty()
    }
}

/// The four 4-bit values packed as `[3][2]` in `hi` and `[1][0]` in `lo`.
pub open spec fn unpack_nibbles(hi: u8, lo: u8) -> Seq<u8> {
    seq![lo % 16, lo / 16, hi % 16, hi / 16]
}

/// Where the even field's data starts: the top field offset, or just past the
/// four-byte header when that is 0.
pub open spec fn even_start(st: ControlState) -> int {
    if st.top_field_offset > 0 {
        st.top_field_offset as int
    } else {
        4
    }
}

/// Where the odd field's data starts: the bottom field offset, or the even
/// start (an empty odd field) when that is 0.
pub open spec fn odd_start(st: ControlState) -> int {
    if st.bottom_field_offset > 0 {
        st.bottom_field_offset as int
    } else {
        even_start(st)
    }
}

/// `p` is the packet that the unit `d` decodes to, stamped with `pts`.
pub open spec fn is_unit_packet(d: Seq<u8>, pts: u32, p: SubtitlePacket) -> bool {
    let st = unit_control(d);
    &&& p.timestamp_ms == pts
    &&& p.duration_ms == if st.duration > 0 {
        st.duration
    } else {
        5000
    }
    &&& p.x == st.x
    &&& p.y == st.y
    &&& p.width == st.width
    &&& p.height == st.height
    &&& p.color_indices@ == unpack_nibbles(st.palette_hi, st.palette_lo)
    &&& p.alpha_values@ == unpack_nibbles(st.alpha_hi, st.alpha_lo)
    &&& p.even_field_data@ == field_bytes(d, even_start(st), odd_start(st))
    &&& p.odd_field_data@ == field_bytes(d, odd_start(st), be16(d, 2))
}

fn run_chain_exec(data: &[u8], first: usize) -> (r: ControlState)
    requires
        first < 65536,
    ensures
        r == run_chain(data@, first as int, 0, first as int, initial_control()),
{
    let len = data.len();
    let mut st = ControlState {
        x: 0,
        y: 0,
        width: 0,
        height: 0,
        duration: 0,
        stopped: false,
        palette_hi: 0x32,
        palette_lo: 0x10,
        alpha_hi: 0xFF,
        alpha_lo: 0xF0,
        top_field_offset: 0,
        bottom_field_offset: 0,
    };
    let mut ctrl = first;
    let mut count: usize = 0;
    let ghost target = run_chain(data@, first as int, 0, first as int, initial_control());
    while ctrl < len && count < MAX_CONTROL_BLOCKS && !st.stopped && len - ctrl >= 4
        invariant
            len == data@.len(),
            first < 65536,
            count <= MAX_CONTROL_BLOCKS,
            target == run_chain(data@, first as int, 0, first as int, initial_control()),
            run_chain(data@, ctrl as int, count as int, first as int, st) == target,
        decreases MAX_CONTROL_BLOCKS - count,
    {
        let delay = read_be16(data, ctrl);
        let next = read_be16(data, ctrl + 2);
        let next_st = run_commands_exec(data, ctrl + 4, delay, st);
        if next < first || next <= ctrl {
            return next_st;
        }
        ctrl = next;
        count = count + 1;
        st = next_st;
    }
    st
}

fn nibble_array(hi: u8, lo: u8) -> (r: [u8; 4])
    ensures
        r@ == unpack_nibbles(hi, lo),
{
    let r = [lo % 16, lo / 16, hi % 16, hi / 16];
    assert(r@ =~= unpack_nibbles(hi, lo));
    r
}

fn copy_range(d: &[u8], start: usize, end: usize) -> (r: Vec<u8>)
    ensures
        r@ == field_bytes(d@, start as int, end as int),
{
    let e = if end <= d.len() {
        end
    } else {
        d.len()
    };
    let mut out: Vec<u8> = Vec::new();
    if start < e {
        let mut i = start;
        while i < e
            invariant
                start <= i <= e,
                e <= d@.len(),
                out@ == d@.subrange(start as int, i as int),
            decreases e - i,
        {
            out.push(d[i]);
            i = i + 1;
            assert(out@ =~= d@.subrange(start as int, i as int));
        }
    }
    assert(start >= e ==> out@ =~= Seq::<u8>::empty());
    out
}

/// Interprets a sub-picture unit: its header, its chain of display control
/// blocks, and the two field payloads they point at. `None` when the unit is
/// shorter than its four-byte header.
pub fn parse_subtitle_data(data: &[u8], pts: u32) -> (r: Option<SubtitlePacket>)
    ensures
        data@.len() < 4 <==> r.is_none(),
        r matches Some(p) ==> is_unit_packet(data@, pts, p) && p.wf(),
{
    if data.len() < 4 {
        return None;
    }
    let dcsq_offset = read_be16(data, 2);
    let st = run_chain_exec(data, dcsq_offset);
    let even_start: usize = if st.top_field_offset > 0 {
        st.top_field_offset
    } else {
        4
    };
    let odd_start: usize = if st.bottom_field_offset > 0 {
        st.bottom_field_offset
    } else {
        even_start
    };
    let even_field_data = copy_range(data, even_start, odd_start);
    let odd_field_data = copy_range(data, odd_start, dcsq_offset);
    let color_indices = nibble_array(st.palette_hi, st.palette_lo);
    let alpha_values = nibble_array(st.alpha_hi, st.alpha_lo);
    Some(
        SubtitlePacket {
            timestamp_ms: pts,
            duration_ms: if st.duration > 0 {
                st.duration
            } else {
                5000
            },
            x: st.x,
            y: st.y,
            width: st.width,
            height: st.height,
            color_indices,
            alpha_values,
            even_field_data,
            odd_field_data,
        },
    )
}

/// A control block whose next offset points at itself ends the chain: what
/// follows is its own commands and nothing more.
pub proof fn lemma_self_reference_ends_chain(d: Seq<u8>, ctrl: int, count: int, first: int, st: ControlState)
    requires
        0 <= ctrl,
        ctrl + 4 <= d.len(),
        0 <= count < MAX_CONTROL_BLOCKS,
        !st.stopped,
        be16(d, ctrl + 2) == ctrl,
    ensures
        run_chain(d, ctrl, count, first, st) == run_commands(d, ctrl + 4, be16(d, ctrl), st),
{
}

/// How far one search for a unit reads past its start.
pub const MAX_SCAN_BYTES: usize = 262144;

/// The progress of a search for one sub-picture unit.
pub struct ScanState {
    /// Where the search stands.
    pub off: int,
    /// The first presentation timestamp seen, in milliseconds (0 while none).
    pub pts: u32,
    /// The unit's bytes gathered so far.
    pub payload: Seq<u8>,
    /// The unit's declared size, once its first two bytes are in (else 0).
    pub expected: int,
    /// The search has ended.
    pub done: bool,
}

/// The presentation timestamp in the five bytes at `o`, in milliseconds, or 0
/// when they run past the end.
pub open spec fn pes_pts_ms(d: Seq<u8>, o: int) -> u32 {
    if o + 5 > d.len() {
        0
    } else {
        let hi = (d[o] as int / 2) % 8;
        let mid = d[o + 1] as int * 128 + d[o + 2] as int / 2;
        let lo = d[o + 3] as int * 128 + d[o + 4] as int / 2;
        ((hi * 1073741824 + mid * 32768 + lo) / 90) as u32
    }
}

/// The search after skipping a stream packet whose 16-bit length stands at `o`.
pub open spec fn skip_packet(d: Seq<u8>, o: int, st: ScanState) -> ScanState {
    if o + 2 > d.len() {
        ScanState { off: o, done: true, ..st }
    } else {
        ScanState { off: o + 2 + be16(d, o), ..st }
    }
}

/// One step of the search at `st.off` (below the scan limit).
pub open spec fn scan_step(d: Seq<u8>, st: ScanState) -> ScanState {
    let o = st.off;
    if !(d[o] == 0 && d[o + 1] == 0 && d[o + 2] == 1) {
        ScanState { off: o + 1, ..st }
    } else {
        let id = d[o + 3];
        if id == 0xBA {
            let o = o + 4;
            if o < d.len() && d[o] / 64 == 1 {
                let o = o + 9;
                if o < d.len() {
                    ScanState { off: o + 1 + (d[o] % 8) as int, ..st }
                } else {
                    ScanState { off: o, ..st }
                }
            } else {
                ScanState { off: o + 8, ..st }
            }
        } else if id == 0xBD {
            let o = o + 4;
            if o + 2 > d.len() {
                ScanState { off: o, done: true, ..st }
            } else {
                let pes_len = be16(d, o);
                let o = o + 2;
                if o + pes_len > d.len() || o + 3 > d.len() {
                    ScanState { off: o, done: true, ..st }
                } else {
                    let flags = d[o + 1];
                    let hdl = d[o + 2] as int;
                    let o = o + 3;
                    let pts = if flags >= 0x80 && st.pts == 0 {
                        pes_pts_ms(d, o)
                    } else {
                        st.pts
                    };
                    let o = o + hdl + 1;
                    let pl = if pes_len >= hdl + 4 {
                        pes_len - hdl - 4
                    } else {
                        0
                    };
                    if pl > 0 && o + pl <= d.len() {
                        let chunk = d.subrange(o, o + pl);
                        let expected = if st.expected == 0 && pl >= 2 {
                            be16(chunk, 0)
                        } else {
                            st.expected
                        };
                        let payload = st.payload + chunk;
                        ScanState {
                            off: o + pl,
                            pts,
                            payload,
                            expected,
                            done: expected > 0 && payload.len() >= expected,
                        }
                    } else if st.payload.len() > 0 {
                        ScanState { off: o, pts, done: true, ..st }
                    } else {
                        skip_packet(d, o + 4, ScanState { pts, ..st })
                    }
                }
            }
        } else if id == 0xBE {
            skip_packet(d, o + 4, st)
        } else if id >= 0xBC {
            if st.payload.len() > 0 {
                ScanState { done: true, ..st }
            } else {
                skip_packet(d, o + 4, st)
            }
        } else {
            ScanState { off: o + 1, ..st }
        }
    }
}

/// The search from `st` until it ends or reaches `limit - 4`.
pub open spec fn scan(d: Seq<u8>, limit: int, st: ScanState) -> ScanState
    decreases limit - st.off,
{
    if st.done || st.off < 0 || st.off >= limit - 4 || limit > d.len() {
        st
    } else {
        let next = scan_step(d, st);
        if next.off <= st.off {
            ScanState { done: true, ..next }
        } else if next.off >= limit {
            next
        } else {
            scan(d, limit, next)
        }
    }
}

/// Where the search for a unit from `start` stops reading.
pub open spec fn scan_limit(len: int, start: int) -> int {
    if start + MAX_SCAN_BYTES <= len {
        start + MAX_SCAN_BYTES
    } else {
        len
    }
}

/// The search for the unit at `start`, run to its end.
pub open spec fn unit_scan(d: Seq<u8>, start: int) -> ScanState {
    scan(d, scan_limit(d.len() as int, start), ScanState { off: start, pts: 0, payload: Seq::empty(), expected: 0, done: false })
}

fn extract_pts(data: &[u8], offset: usize) -> (r: u32)
    requires
        offset <= data@.len(),
    ensures
        r == pes_pts_ms(data@, offset as int),
{
    if data.len() - offset < 5 {
        return 0;
    }
    let hi = ((data[offset] / 2) % 8) as u64;
    let mid = (data[offset + 1] as u64) * 128 + (data[offset + 2] / 2) as u64;
    let lo = (data[offset + 3] as u64) * 128 + (data[offset + 4] / 2) as u64;
    ((hi * 1073741824 + mid * 32768 + lo) / 90) as u32
}

fn append_range(out: &mut Vec<u8>, d: &[u8], start: usize, end: usize)
    requires
        start <= end <= d@.len(),
    ensures
        final(out)@ == old(out)@ + d@.subrange(start as int, end as int),
{
    let mut i = start;
    while i < end
        invariant
            start <= i <= end <= d@.len(),
            out@ == old(out)@ + d@.subrange(start as int, i as int),
        decreases end - i,
    {
        out.push(d[i]);
        i = i + 1;
        assert(out@ =~= old(out)@ + d@.subrange(start as int, i as int));
    }
}

/// The search after skipping a stream packet whose length stands at `o`.
fn skip_packet_exec(data: &[u8], o: usize) -> (r: (usize, bool))
    requires
        o <= data@.len() + 300,
        data@.len() <= isize::MAX,
    ensures
        o + 2 > data@.len() ==> r.1 && r.0 == o,
        o + 2 <= data@.len() ==> !r.1 && r.0 as int == o + 2 + be16(data@, o as int),
{
    if o > data.len() || data.len() - o < 2 {
        (o, true)
    } else {
        (o + 2 + read_be16(data, o), false)
    }
}

/// One step of the search; returns the new offset, timestamp, expected size
/// and whether the search has ended, and extends `payload`.
fn scan_step_exec(data: &[u8], off: usize, pts: u32, payload: &mut Vec<u8>, expected: usize) -> (r: (
    usize,
    u32,
    usize,
    bool,
))
    requires
        off + 4 <= data@.len(),
        data@.len() <= isize::MAX,
        expected < 65536,
    ensures
        ({
            let st = scan_step(
                data@,
                ScanState { off: off as int, pts, payload: old(payload)@, expected: expected as int, done: false },
            );
            &&& r.3 == st.done
            &&& r.0 as int == st.off
            &&& r.1 == st.pts
            &&& final(payload)@ == st.payload
            &&& r.2 as int == st.expected
        }),
        r.2 < 65536,
        r.0 <= data@.len() + 65546,
{
    let len = data.len();
    if !(data[off] == 0 && data[off + 1] == 0 && data[off + 2] == 1) {
        return (off + 1, pts, expected, false);
    }
    let id = data[off + 3];
    if id == 0xBA {
        let o = off + 4;
        if o < len && data[o] / 64 == 1 {
            let o = o + 9;
            if o < len {
                return (o + 1 + (data[o] % 8) as usize, pts, expected, false);
            } else {
                return (o, pts, expected, false);
            }
        } else {
            return (o + 8, pts, expected, false);
        }
    } else if id == 0xBD {
        let o = off + 4;
        if len - o < 2 {
            return (o, pts, expected, true);
        }
        let pes_len = read_be16(data, o);
        let o = o + 2;
        if len - o < pes_len || len - o < 3 {
            return (o, pts, expected, true);
        }
        let flags = data[o + 1];
        let hdl = data[o + 2] as usize;
        let o = o + 3;
        let pts = if flags >= 0x80 && pts == 0 {
            extract_pts(data, o)
        } else {
            pts
        };
        let o = o + hdl + 1;
        let pl = if pes_len >= hdl + 4 {
            pes_len - hdl - 4
        } else {
            0
        };
        if pl > 0 && o <= len && pl <= len - o {
            let ghost before = payload@;
            let ghost chunk = data@.subrange(o as int, o + pl);
            let expected = if expected == 0 && pl >= 2 {
                read_be16(data, o)
            } else {
                expected
            };
            append_range(payload, data, o, o + pl);
            if pl >= 2 {
                assert(chunk[0] == data@[o as int] && chunk[1] == data@[o + 1]);
            }
            let done = expected > 0 && payload.len() >= expected;
            return (o + pl, pts, expected, done);
        } else if payload.len() > 0 {
            return (o, pts, expected, true);
        } else {
            let (no, stop) = skip_packet_exec(data, o + 4);
            return (no, pts, expected, stop);
        }
    } else if id == 0xBE {
        let (no, stop) = skip_packet_exec(data, off + 4);
        return (no, pts, expected, stop);
    } else if id >= 0xBC {
        if payload.len() > 0 {
            return (off, pts, expected, true);
        }
        let (no, stop) = skip_packet_exec(data, off + 4);
        return (no, pts, expected, stop);
    } else {
        return (off + 1, pts, expected, false);
    }
}

/// Searches the `.sub` stream from `start_offset` for one sub-picture unit:
/// skips pack headers and padding, gathers the private-stream-1 payloads until
/// the unit's declared size is in, and interprets the unit.
///
/// Returns the packet and the offset where the search stopped; `None` when
/// fewer than four bytes of a unit were found.
pub fn parse_subtitle_packet(data: &[u8], start_offset: usize, _palette: &VobSubPalette) -> (r: Option<
    (SubtitlePacket, usize),
>)
    requires
        data@.len() <= isize::MAX,
    ensures
        r.is_none() <==> unit_scan(data@, start_offset as int).payload.len() < 4,
        r matches Some((p, off)) ==> off as int == unit_scan(data@, start_offset as int).off
            && is_unit_packet(unit_scan(data@, start_offset as int).payload, unit_scan(data@, start_offset as int).pts, p)
            && p.wf(),
{
    let len = data.len();
    let max_scan = if start_offset <= len && len - start_offset > MAX_SCAN_BYTES {
        start_offset + MAX_SCAN_BYTES
    } else {
        len
    };
    let stop_at: usize = if max_scan >= 4 {
        max_scan - 4
    } else {
        0
    };
    let ghost d = data@;
    let ghost limit = scan_limit(len as int, start_offset as int);
    let ghost target = unit_scan(d, start_offset as int);
    let mut off = start_offset;
    let mut pts: u32 = 0;
    let mut payload: Vec<u8> = Vec::new();
    let mut expected: usize = 0;
    let mut done = false;
    proof {
        assert(max_scan as int == limit || (start_offset > len && limit == len));
    }
    while !done && off < stop_at
        invariant
            d == data@,
            len == d.len(),
            len <= isize::MAX,
            limit == scan_limit(len as int, start_offset as int),
            limit <= len,
            stop_at as int == if limit >= 4 { limit - 4 } else { 0 },
            expected < 65536,
            target == unit_scan(d, start_offset as int),
            scan(d, limit, ScanState { off: off as int, pts, payload: payload@, expected: expected as int, done })
                == target,
        decreases (if off < stop_at { stop_at - off } else { 0int }) + (if done { 0int } else { 1int }),
    {
        let ghost cur = ScanState { off: off as int, pts, payload: payload@, expected: expected as int, done };
        let (noff, npts, nexp, ndone) = scan_step_exec(data, off, pts, &mut payload, expected);
        let ghost next = scan_step(d, cur);
        if ndone {
            off = noff;
            pts = npts;
            expected = nexp;
            done = true;
        } else if noff <= off {
            pts = npts;
            expected = nexp;
            done = true;
        } else {
            off = noff;
            pts = npts;
            expected = nexp;
        }
    }
    proof {
        if !done {
            assert(off >= stop_at);
        }
    }
    if payload.len() < 4 {
        return None;
    }
    match parse_subtitle_data(payload.as_slice(), pts) {
        Some(p) => Some((p, off)),
        None => None,
    }
}

} // verus!
