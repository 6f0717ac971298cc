//! The PGS run-length code for palette-indexed bitmaps.
//!
//! A non-zero byte is one pixel of that palette index. A zero byte starts a
//! control code whose second byte selects, by its top two bits, a short or a
//! 14-bit run length and whether a colour byte follows (else colour 0). A run
//! of length 0 is an end of line and yields no pixel.
use vstd::prelude::*;

verus! {

/// `n` pixels of index `v`.
pub open spec fn run_of(n: int, v: u8) -> Seq<u8> {
    Seq::new(n as nat, |_i: int| v)
}

/// The byte at `i`, or 0 past the end (a code cut short reads zeros).
pub open spec fn byte_or_zero(d: Seq<u8>, i: int) -> u8 {
    if 0 <= i < d.len() {
        d[i]
    } else {
        0
    }
}

/// A zero byte with nothing after it ends the stream.
pub open spec fn code_stops(d: Seq<u8>, pos: int) -> bool {
    d[pos] == 0 && pos + 1 >= d.len()
}

/// The run length of the code at `pos`.
pub open spec fn code_len(d: Seq<u8>, pos: int) -> int {
    let b1 = d[pos];
    let b2 = d[pos + 1];
    if b1 != 0 {
        1
    } else if b2 / 64 == 0 || b2 / 64 == 2 {
        (b2 % 64) as int
    } else {
        (b2 % 64) as int * 256 + byte_or_zero(d, pos + 2) as int
    }
}

/// The palette index that the code at `pos` repeats.
pub open spec fn code_value(d: Seq<u8>, pos: int) -> u8 {
    let b1 = d[pos];
    let b2 = d[pos + 1];
    if b1 != 0 {
        b1
    } else if b2 / 64 == 2 {
        byte_or_zero(d, pos + 2)
    } else if b2 / 64 == 3 {
        byte_or_zero(d, pos + 3)
    } else {
        0
    }
}

/// Where the code after the one at `pos` starts.
pub open spec fn code_next(d: Seq<u8>, pos: int) -> int {
    let b1 = d[pos];
    let b2 = d[pos + 1];
    if b1 != 0 {
        pos + 1
    } else if b2 / 64 == 0 {
        pos + 2
    } else if b2 / 64 == 3 {
        pos + 4
    } else {
        pos + 3
    }
}

/// The pixels that the codes from `pos` on decode to, without any bound on
/// their number.
pub open spec fn rle_pixels_from(d: Seq<u8>, pos: int) -> Seq<u8>
    decreases d.len() - pos,
{
    if pos < 0 || pos >= d.len() || code_stops(d, pos) {
        Seq::empty()
    } else {
        let next = code_next(d, pos);
        let rest = if next <= pos || next >= d.len() {
            Seq::empty()
        } else {
            rle_pixels_from(d, next)
        };
        run_of(code_len(d, pos), code_value(d, pos)) + rest
    }
}

/// The palette indices that a whole PGS run-length stream decodes to.
pub open spec fn rle_pixels(d: Seq<u8>) -> Seq<u8> {
    rle_pixels_from(d, 0)
}

/// The colour of palette index `i`: transparent (0) when the palette has no such entry.
pub open spec fn palette_color(pal: Seq<u32>, i: u8) -> u32 {
    if (i as int) < pal.len() {
        pal[i as int]
    } else {
        0
    }
}

/// Each index replaced by its palette colour.
pub open spec fn colors_of(ix: Seq<u8>, pal: Seq<u32>) -> Seq<u32> {
    ix.map_values(|i: u8| palette_color(pal, i))
}

/// The smaller of two integers.
pub open spec fn min_int(a: int, b: int) -> int {
    if a <= b {
        a
    } else {
        b
    }
}

/// How many pixels a decode writes into a buffer of `cap` pixels.
pub open spec fn decoded_count(d: Seq<u8>, cap: int) -> int {
    min_int(rle_pixels(d).len() as int, cap)
}

/// A buffer of indices after decoding `d` into it.
pub open spec fn indexed_outcome(d: Seq<u8>, before: Seq<u8>) -> Seq<u8> {
    rle_pixels(d).take(decoded_count(d, before.len() as int)) + before.skip(decoded_count(d, before.len() as int))
}

/// A buffer of colours after decoding `d` into it through `pal`.
pub open spec fn rgba_outcome(d: Seq<u8>, pal: Seq<u32>, before: Seq<u32>) -> Seq<u32> {
    colors_of(rle_pixels(d).take(decoded_count(d, before.len() as int)), pal) + before.skip(
        decoded_count(d, before.len() as int),
    )
}

/// A buffer of colours after applying `pal` to the indices `ix`.
pub open spec fn palette_outcome(ix: Seq<u8>, pal: Seq<u32>, before: Seq<u32>) -> Seq<u32> {
    colors_of(ix.take(min_int(ix.len() as int, before.len() as int)), pal) + before.skip(
        min_int(ix.len() as int, before.len() as int),
    )
}

/// The `(length, value, next position)` of the code at `pos`; `None` where the
/// stream stops there.
fn read_code(data: &[u8], pos: usize) -> (r: Option<(usize, u8, usize)>)
    requires
        pos < data@.len(),
    ensures
        code_stops(data@, pos as int) <==> r.is_none(),
        r matches Some((n, v, next)) ==> n as int == code_len(data@, pos as int) && v == code_value(
            data@,
            pos as int,
        ) && n <= 16383 && pos < next <= data@.len() && rle_pixels_from(data@, next as int)
            == rle_pixels_from(data@, code_next(data@, pos as int)),
{
    let len = data.len();
    let b1 = data[pos];
    if b1 != 0 {
        return Some((1, b1, pos + 1));
    }
    if pos + 1 >= len {
        return None;
    }
    let b2 = data[pos + 1];
    let top = b2 / 64;
    let low = (b2 % 64) as usize;
    let third: u8 = if len - pos > 2 { data[pos + 2] } else { 0 };
    let after3: usize = if len - pos > 2 { pos + 3 } else { len };
    if top == 0 {
        Some((low, 0, pos + 2))
    } else if top == 1 {
        Some((low * 256 + third as usize, 0, after3))
    } else if top == 2 {
        Some((low, third, after3))
    } else {
        let fourth: u8 = if len - pos > 3 { data[pos + 3] } else { 0 };
        let after4: usize = if len - pos > 3 { pos + 4 } else { len };
        Some((low * 256 + third as usize, fourth, after4))
    }
}

/// Decodes a PGS run-length stream into palette indices.
///
/// Fills `target` from its start with the decoded pixels, stops when it is
/// full or the stream ends, and returns how many pixels were written.
pub fn decode_rle_to_indexed(data: &[u8], target: &mut [u8]) -> (count: usize)
    ensures
        count as int == decoded_count(data@, old(target)@.len() as int),
        final(target)@ == indexed_outcome(data@, old(target)@),
{
    let len = data.len();
    let tl = target.len();
    let mut pos: usize = 0;
    let mut idx: usize = 0;
    let ghost full = rle_pixels(data@);
    let mut done = false;
    while !done && pos < len && idx < tl
        invariant
            done ==> rle_pixels_from(data@, pos as int).len() == 0,
            len == data@.len(),
            tl == target@.len(),
            tl == old(target)@.len(),
            idx <= tl,
            idx <= full.len(),
            full == rle_pixels(data@),
            forall|k: int| 0 <= k < idx ==> target@[k] == full[k],
            forall|k: int| idx <= k < tl ==> target@[k] == old(target)@[k],
            idx < tl ==> full == full.take(idx as int) + rle_pixels_from(data@, pos as int),
        decreases len - pos + (if done { 0int } else { 1int }),
    {
        let ghost rest = rle_pixels_from(data@, pos as int);
        match read_code(data, pos) {
            None => {
                done = true;
            },
            Some((count, value, next)) => {
                let ghost px = run_of(count as int, value);
                assert(rest == px + rle_pixels_from(data@, next as int));
                let start = idx;
                let end = if count <= tl - idx {
                    idx + count
                } else {
                    tl
                };
                while idx < end
                    invariant
                        start <= idx <= end <= tl,
                        tl == target@.len(),
                        end - start <= count,
                        start <= full.len(),
                        forall|k: int| 0 <= k < start ==> target@[k] == full[k],
                        forall|k: int| start <= k < idx ==> target@[k] == value,
                        forall|k: int| end <= k < tl ==> target@[k] == old(target)@[k],
                    decreases end - idx,
                {
                    target[idx] = value;
                    idx = idx + 1;
                }
                proof {
                    assert(full == full.take(start as int) + px + rle_pixels_from(data@, next as int));
                    assert forall|k: int| start <= k < idx implies target@[k] == full[k] by {
                        assert(full[k] == px[k - start]);
                    }
                    if idx < tl {
                        assert(full.take(idx as int) =~= full.take(start as int) + px);
                        assert(full == full.take(idx as int) + rle_pixels_from(data@, next as int));
                    }
                }
                pos = next;
            },
        }
    }
    proof {
        if idx < tl {
            assert(rle_pixels_from(data@, pos as int).len() == 0);
        }
        assert(target@ =~= full.take(idx as int) + old(target)@.skip(idx as int));
    }
    idx
}

fn lookup(palette: &[u32], i: u8) -> (c: u32)
    ensures
        c == palette_color(palette@, i),
{
    if (i as usize) < palette.len() {
        palette[i as usize]
    } else {
        0
    }
}

/// Decodes a PGS run-length stream straight to colours through `palette`.
///
/// Writes the same pixels as `decode_rle_to_indexed`, each replaced by its
/// palette colour (0 where the palette has no entry), and returns their number.
pub fn decode_rle_to_rgba(data: &[u8], palette: &[u32], target: &mut [u32]) -> (count: usize)
    ensures
        count as int == decoded_count(data@, old(target)@.len() as int),
        final(target)@ == rgba_outcome(data@, palette@, old(target)@),
{
    let len = data.len();
    let tl = target.len();
    let transparent = lookup(palette, 0);
    let mut pos: usize = 0;
    let mut idx: usize = 0;
    let ghost full = rle_pixels(data@);
    let mut done = false;
    while !done && pos < len && idx < tl
        invariant
            done ==> rle_pixels_from(data@, pos as int).len() == 0,
            len == data@.len(),
            tl == target@.len(),
            tl == old(target)@.len(),
            transparent == palette_color(palette@, 0),
            idx <= tl,
            idx <= full.len(),
            full == rle_pixels(data@),
            forall|k: int| 0 <= k < idx ==> target@[k] == palette_color(palette@, full[k]),
            forall|k: int| idx <= k < tl ==> target@[k] == old(target)@[k],
            idx < tl ==> full == full.take(idx as int) + rle_pixels_from(data@, pos as int),
        decreases len - pos + (if done { 0int } else { 1int }),
    {
        let ghost rest = rle_pixels_from(data@, pos as int);
        match read_code(data, pos) {
            None => {
                done = true;
            },
            Some((count, value, next)) => {
                let ghost px = run_of(count as int, value);
                assert(rest == px + rle_pixels_from(data@, next as int));
                let color = if value == 0 {
                    transparent
                } else {
                    lookup(palette, value)
                };
                let start = idx;
                let end = if count <= tl - idx {
                    idx + count
                } else {
                    tl
                };
                while idx < end
                    invariant
                        start <= idx <= end <= tl,
                        tl == target@.len(),
                        end - start <= count,
                        start <= full.len(),
                        forall|k: int| 0 <= k < start ==> target@[k] == palette_color(palette@, full[k]),
                        forall|k: int| start <= k < idx ==> target@[k] == color,
                        forall|k: int| end <= k < tl ==> target@[k] == old(target)@[k],
                    decreases end - idx,
                {
                    target[idx] = color;
                    idx = idx + 1;
                }
                proof {
                    assert(full == full.take(start as int) + px + rle_pixels_from(data@, next as int));
                    assert forall|k: int| start <= k < idx implies target@[k] == palette_color(
                        palette@,
                        full[k],
                    ) by {
                        assert(full[k] == px[k - start]);
                    }
                    if idx < tl {
                        assert(full.take(idx as int) =~= full.take(start as int) + px);
                        assert(full == full.take(idx as int) + rle_pixels_from(data@, next as int));
                    }
                }
                pos = next;
            },
        }
    }
    proof {
        if idx < tl {
            assert(rle_pixels_from(data@, pos as int).len() == 0);
        }
        assert(target@ =~= colors_of(full.take(idx as int), palette@) + old(target)@.skip(idx as int));
    }
    idx
}

/// Replaces each palette index by its colour (0 where the palette has no
/// entry), over as many pixels as both buffers hold.
pub fn apply_palette(indexed: &[u8], palette: &[u32], target: &mut [u32])
    ensures
        final(target)@ == palette_outcome(indexed@, palette@, old(target)@),
{
    let n = if indexed.len() <= target.len() {
        indexed.len()
    } else {
        target.len()
    };
    let mut i: usize = 0;
    while i < n
        invariant
            n <= indexed@.len(),
            n <= target@.len(),
            target@.len() == old(target)@.len(),
            i <= n,
            forall|k: int| 0 <= k < i ==> target@[k] == palette_color(palette@, indexed@[k]),
            forall|k: int| i <= k < target@.len() ==> target@[k] == old(target)@[k],
        decreases n - i,
    {
        let c = lookup(palette, indexed[i]);
        target[i] = c;
        i = i + 1;
    }
    assert(target@ =~= colors_of(indexed@.take(n as int), palette@) + old(target)@.skip(n as int));
}

/// Decoding straight to colours equals decoding to indices into a scratch
/// buffer of the same size and then applying the palette: whenever the stream
/// fits the buffer, the decoded pixels agree.
pub proof fn lemma_rgba_decode_is_palette_of_indexed(
    data: Seq<u8>,
    palette: Seq<u32>,
    scratch: Seq<u8>,
    dst: Seq<u32>,
)
    requires
        scratch.len() == dst.len(),
        rle_pixels(data).len() <= dst.len(),
    ensures
        rgba_outcome(data, palette, dst).take(decoded_count(data, dst.len() as int)) == palette_outcome(
            indexed_outcome(data, scratch),
            palette,
            dst,
        ).take(decoded_count(data, dst.len() as int)),
{
    let n = decoded_count(data, dst.len() as int);
    let ix = indexed_outcome(data, scratch);
    assert(ix.len() == dst.len());
    assert(rgba_outcome(data, palette, dst).take(n) =~= palette_outcome(ix, palette, dst).take(n));
}

} // verus!
