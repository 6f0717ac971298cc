//! The 2-bit interlaced run-length code of DVD subtitle bitmaps.
//!
//! Each field (even lines, odd lines) is a stream of nibbles. A code is read
//! nibble by nibble until it is long enough: its value over 4 gives the run
//! length and its two low bits the colour. A run of 0 ends the line, and every
//! line starts on a byte boundary.
use vstd::prelude::*;
use crate::pgs::rle::run_of;
use crate::vobsub::idx_parser::VobSubPalette;
use crate::vobsub::sub_parser::SubtitlePacket;

verus! {

/// The nibble at nibble position `q` (high nibble first), or 0 past the end.
pub open spec fn nibble_at(d: Seq<u8>, q: int) -> int {
    if 0 <= q && q / 2 < d.len() {
        if q % 2 == 0 {
            d[q / 2] as int / 16
        } else {
            d[q / 2] as int % 16
        }
    } else {
        0
    }
}

/// The value of the `k` nibbles starting at `q`, `1 <= k <= 4`.
pub open spec fn nibbles(d: Seq<u8>, q: int, k: int) -> int
    decreases k,
{
    if k <= 1 {
        nibble_at(d, q)
    } else {
        nibbles(d, q, k - 1) * 16 + nibble_at(d, q + k - 1)
    }
}

/// How many nibbles the code at `q` takes.
pub open spec fn code_width(d: Seq<u8>, q: int) -> int {
    if nibbles(d, q, 1) >= 4 {
        1
    } else if nibbles(d, q, 2) >= 16 {
        2
    } else if nibbles(d, q, 3) >= 64 {
        3
    } else {
        4
    }
}

/// The value of the code at `q`.
pub open spec fn code_word(d: Seq<u8>, q: int) -> int {
    nibbles(d, q, code_width(d, q))
}

/// The run length of the code at `q`.
pub open spec fn code_run(d: Seq<u8>, q: int) -> int {
    code_word(d, q) / 4
}

/// The colour (0 to 3) of the code at `q`.
pub open spec fn code_color(d: Seq<u8>, q: int) -> int {
    code_word(d, q) % 4
}

/// The colour indices of one line from pixel `x` on, decoding from nibble `q`.
/// A run of 0, or the end of the data, fills the rest of the line with colour 0.
pub open spec fn line_from(d: Seq<u8>, q: int, x: int, w: int) -> Seq<u8>
    decreases w - x,
{
    if x >= w {
        Seq::empty()
    } else if q / 2 >= d.len() || code_run(d, q) == 0 {
        run_of(w - x, 0)
    } else {
        let m = if code_run(d, q) <= w - x {
            code_run(d, q)
        } else {
            w - x
        };
        run_of(m, code_color(d, q) as u8) + line_from(d, q + code_width(d, q), x + m, w)
    }
}

/// The nibble position after decoding one line from pixel `x` at nibble `q`.
pub open spec fn line_end(d: Seq<u8>, q: int, x: int, w: int) -> int
    decreases w - x,
{
    if x >= w || q / 2 >= d.len() {
        q
    } else if code_run(d, q) == 0 {
        q + code_width(d, q)
    } else {
        let m = if code_run(d, q) <= w - x {
            code_run(d, q)
        } else {
            w - x
        };
        line_end(d, q + code_width(d, q), x + m, w)
    }
}

/// `q` moved up to a byte boundary.
pub open spec fn align(q: int) -> int {
    q + q % 2
}

/// The nibble position at which line `k` of a field starts.
pub open spec fn field_line_start(d: Seq<u8>, k: int, w: int) -> int
    decreases k,
{
    if k <= 0 {
        0
    } else {
        align(line_end(d, field_line_start(d, k - 1, w), 0, w))
    }
}

/// The colour indices of line `k` of a field of width `w`.
pub open spec fn field_line(d: Seq<u8>, k: int, w: int) -> Seq<u8> {
    line_from(d, field_line_start(d, k, w), 0, w)
}

fn read_nibble(data: &[u8], byte_pos: usize, nibble_pos: usize) -> (r: (usize, usize, usize))
    requires
        nibble_pos <= 1,
        byte_pos <= data@.len() + 2,
        data@.len() <= isize::MAX,
    ensures
        r.0 as int == nibble_at(data@, 2 * byte_pos + nibble_pos),
        2 * r.1 + r.2 == 2 * byte_pos + nibble_pos + 1,
        r.2 <= 1,
{
    let n: usize = if byte_pos >= data.len() {
        0
    } else if nibble_pos == 0 {
        (data[byte_pos] / 16) as usize
    } else {
        (data[byte_pos] % 16) as usize
    };
    if nibble_pos == 0 {
        (n, byte_pos, 1)
    } else {
        (n, byte_pos + 1, 0)
    }
}

/// Reads the code at byte `byte_pos`, nibble `nibble_pos` (0 high, 1 low).
///
/// Returns `(colour, run length, byte position, nibble position)`, the last
/// two just past the code.
pub fn read_rle_code(data: &[u8], byte_pos: usize, nibble_pos: usize) -> (r: (usize, usize, usize, usize))
    requires
        nibble_pos <= 1,
        byte_pos <= data@.len(),
        data@.len() <= isize::MAX,
    ensures
        r.0 as int == code_color(data@, 2 * byte_pos + nibble_pos),
        r.1 as int == code_run(data@, 2 * byte_pos + nibble_pos),
        2 * r.2 + r.3 == 2 * byte_pos + nibble_pos + code_width(data@, 2 * byte_pos + nibble_pos),
        r.3 <= 1,
        r.1 < 16384,
{
    let ghost q = 2 * byte_pos + nibble_pos;
    let (n0, bp, np) = read_nibble(data, byte_pos, nibble_pos);
    if n0 >= 4 {
        return (n0 % 4, n0 / 4, bp, np);
    }
    let (n1, bp, np) = read_nibble(data, bp, np);
    let v8 = n0 * 16 + n1;
    if v8 >= 16 {
        return (v8 % 4, v8 / 4, bp, np);
    }
    let (n2, bp, np) = read_nibble(data, bp, np);
    let v12 = v8 * 16 + n2;
    if v12 >= 64 {
        return (v12 % 4, v12 / 4, bp, np);
    }
    let (n3, bp, np) = read_nibble(data, bp, np);
    let v16 = v12 * 16 + n3;
    (v16 % 4, v16 / 4, bp, np)
}

/// Decodes one line of `w` pixels starting at byte `byte_pos`.
///
/// Returns the colour indices and the byte and nibble position after the line.
fn decode_line(data: &[u8], byte_pos: usize, w: usize) -> (r: (Vec<u8>, usize, usize))
    requires
        byte_pos <= data@.len() + 3,
        data@.len() <= isize::MAX,
    ensures
        r.0@ == line_from(data@, 2 * byte_pos, 0, w as int),
        2 * r.1 + r.2 == line_end(data@, 2 * byte_pos, 0, w as int),
        r.2 <= 1,
        byte_pos >= data@.len() ==> r.1 == byte_pos && r.2 == 0,
        byte_pos < data@.len() ==> r.1 <= data@.len() + 1,
{
    let ghost d = data@;
    let ghost q0 = 2 * byte_pos;
    let len = data.len();
    let mut line: Vec<u8> = Vec::new();
    let mut x: usize = 0;
    let mut bp = byte_pos;
    let mut np: usize = 0;
    let mut ended = false;
    while !ended && x < w && bp < len
        invariant
            len == d.len(),
            d == data@,
            d.len() <= isize::MAX,
            x <= w,
            np <= 1,
            bp <= d.len() + 3,
            byte_pos >= d.len() ==> bp == byte_pos && np == 0,
            byte_pos < d.len() ==> bp <= d.len() + 1,
            line@.len() == x,
            !ended ==> line@ + line_from(d, 2 * bp + np, x as int, w as int) == line_from(d, q0, 0, w as int),
            !ended ==> line_end(d, 2 * bp + np, x as int, w as int) == line_end(d, q0, 0, w as int),
            ended ==> line@ == line_from(d, q0, 0, w as int),
            ended ==> 2 * bp + np == line_end(d, q0, 0, w as int),
            ended ==> x == w,
        decreases w - x + (if ended { 0int } else { 1int }),
    {
        let (color, run, nbp, nnp) = read_rle_code(data, bp, np);
        if run == 0 {
            let ghost before = line@;
            while x < w
                invariant
                    x <= w,
                    line@.len() == x,
                    line@.subrange(0, before.len() as int) == before,
                    before.len() <= x,
                    forall|k: int| before.len() <= k < x ==> line@[k] == 0,
                decreases w - x,
            {
                line.push(0);
                x = x + 1;
            }
            assert(line@ =~= before + run_of(w - before.len(), 0));
            bp = nbp;
            np = nnp;
            ended = true;
        } else {
            let m = if run <= w - x {
                run
            } else {
                w - x
            };
            let ghost before = line@;
            let end = x + m;
            while x < end
                invariant
                    x <= end <= w,
                    line@.len() == x,
                    line@.subrange(0, before.len() as int) == before,
                    before.len() <= x,
                    forall|k: int| before.len() <= k < x ==> line@[k] == color as u8,
                decreases end - x,
            {
                line.push(color as u8);
                x = x + 1;
            }
            assert(line@ =~= before + run_of(m as int, color as u8));
            bp = nbp;
            np = nnp;
        }
    }
    if !ended {
        let ghost before = line@;
        while x < w
            invariant
                x <= w,
                line@.len() == x,
                line@.subrange(0, before.len() as int) == before,
                before.len() <= x,
                forall|k: int| before.len() <= k < x ==> line@[k] == 0,
            decreases w - x,
        {
            line.push(0);
            x = x + 1;
        }
        assert(line@ =~= before + run_of(w - before.len(), 0));
    }
    (line, bp, np)
}

/// The byte offset of channel `c` of pixel `(x, y)` in an RGBA image of width `w`.
pub open spec fn pixel_byte(w: int, y: int, x: int, c: int) -> int {
    (y * w + x) * 4 + c
}

/// Line `y` of the image belongs to the field that starts at `start`.
pub open spec fn in_field(y: int, start: int) -> bool {
    y >= start && (y - start) % 2 == 0
}

proof fn lemma_pixel_in_row(w: int, y: int, yy: int, xx: int, cc: int)
    requires
        0 <= xx < w,
        0 <= cc < 4,
        0 <= y,
        0 <= yy,
        0 <= xx,
    ensures
        yy == y ==> pixel_byte(w, yy, xx, cc) - y * w * 4 == 4 * xx + cc,
        yy < y ==> pixel_byte(w, yy, xx, cc) < y * w * 4,
        yy > y ==> pixel_byte(w, yy, xx, cc) >= y * w * 4 + 4 * w,
{
    if yy < y {
        assert(yy * w + xx < y * w) by (nonlinear_arith)
            requires
                yy < y,
                xx < w,
                0 <= yy,
                0 <= xx,
        ;
    }
    if yy > y {
        assert(yy * w >= y * w + w) by (nonlinear_arith)
            requires
                yy > y,
                0 <= y,
                0 < w,
        ;
    }
    assert(pixel_byte(w, yy, xx, cc) == yy * w * 4 + 4 * xx + cc) by (nonlinear_arith);
}

proof fn lemma_pixel_in_image(w: int, h: int, yy: int, xx: int, cc: int)
    requires
        0 <= xx < w,
        0 <= cc < 4,
        0 <= yy < h,
    ensures
        0 <= pixel_byte(w, yy, xx, cc) < w * h * 4,
{
    assert(0 <= yy * w + xx < h * w) by (nonlinear_arith)
        requires
            0 <= xx < w,
            0 <= yy < h,
    ;
    assert(w * h == h * w) by (nonlinear_arith);
}

proof fn lemma_image_bound(w: int, h: int, y: int)
    requires
        0 <= y < h,
        0 <= w,
    ensures
        y * w * 4 + 4 * w <= w * h * 4,
        0 <= y * w * 4,
{
    assert(y * w + w <= h * w) by (nonlinear_arith)
        requires
            y < h,
            0 <= w,
    ;
    assert(0 <= y * w) by (nonlinear_arith)
        requires
            0 <= y,
            0 <= w,
    ;
    assert(w * h == h * w) by (nonlinear_arith);
}

/// Writes the colours of `line` as RGBA from byte `base` on.
fn write_line(rgba: &mut Vec<u8>, base: usize, line: &Vec<u8>, colors: &[[u8; 4]; 4])
    requires
        base + 4 * line@.len() <= old(rgba)@.len(),
        forall|k: int| 0 <= k < line@.len() ==> line@[k] < 4,
    ensures
        final(rgba)@.len() == old(rgba)@.len(),
        forall|i: int|
            base <= i < base + 4 * line@.len() ==> final(rgba)@[i] == colors@[line@[(i - base) / 4] as int]@[(i
                - base) % 4],
        forall|i: int|
            0 <= i < old(rgba)@.len() && !(base <= i < base + 4 * line@.len()) ==> final(rgba)@[i] == old(
                rgba,
            )@[i],
{
    let n = line.len();
    let total = rgba.len();
    let mut x: usize = 0;
    while x < n
        invariant
            total == rgba@.len(),
            n == line@.len(),
            x <= n,
            base + 4 * n <= rgba@.len(),
            rgba@.len() == old(rgba)@.len(),
            forall|k: int| 0 <= k < line@.len() ==> line@[k] < 4,
            forall|i: int|
                base <= i < base + 4 * x ==> rgba@[i] == colors@[line@[(i - base) / 4] as int]@[(i - base)
                    % 4],
            forall|i: int|
                0 <= i < old(rgba)@.len() && !(base <= i < base + 4 * x) ==> rgba@[i] == old(rgba)@[i],
        decreases n - x,
    {
        let color = colors[line[x] as usize];
        let off = base + 4 * x;
        let mut c: usize = 0;
        while c < 4
            invariant
                off == base + 4 * x,
                total == rgba@.len(),
                x < n,
                c <= 4,
                base + 4 * n <= rgba@.len(),
                rgba@.len() == old(rgba)@.len(),
                color == colors@[line@[x as int] as int],
                forall|i: int|
                    base <= i < base + 4 * x ==> rgba@[i] == colors@[line@[(i - base) / 4] as int]@[(i
                        - base) % 4],
                forall|i: int| off <= i < off + c ==> rgba@[i] == color@[i - off],
                forall|i: int|
                    0 <= i < old(rgba)@.len() && !(base <= i < off + c) ==> rgba@[i] == old(rgba)@[i],
            decreases 4 - c,
        {
            rgba.set(off + c, color[c]);
            c = c + 1;
        }
        assert forall|i: int| base <= i < base + 4 * (x + 1) implies rgba@[i] == colors@[line@[(i - base)
            / 4] as int]@[(i - base) % 4] by {
            if i >= off {
                assert((i - base) / 4 == x as int);
                assert((i - base) % 4 == i - off);
            }
        }
        x = x + 1;
    }
}

#[verifier::rlimit(60)]
/// Decodes one field of the bitmap into `rgba`: lines `start_line`,
/// `start_line + 2`, ... below `height`, each `width` pixels, coloured through
/// `colors`. Bytes of other lines are left as they were.
fn decode_field(
    field_data: &[u8],
    rgba: &mut Vec<u8>,
    width: usize,
    height: usize,
    start_line: usize,
    colors: &[[u8; 4]; 4],
)
    requires
        old(rgba)@.len() == width * height * 4,
        field_data@.len() <= isize::MAX,
        start_line <= 1,
        width > 0,
    ensures
        final(rgba)@.len() == old(rgba)@.len(),
        forall|yy: int, xx: int, cc: int|
            0 <= yy < height && 0 <= xx < width && 0 <= cc < 4 ==> #[trigger] final(rgba)@[pixel_byte(
                width as int,
                yy,
                xx,
                cc,
            )] == if in_field(yy, start_line as int) {
                colors@[field_line(field_data@, (yy - start_line) / 2, width as int)[xx] as int]@[cc]
            } else {
                old(rgba)@[pixel_byte(width as int, yy, xx, cc)]
            },
{
    let ghost d = field_data@;
    let ghost w = width as int;
    let ghost start = start_line as int;
    let mut bp: usize = 0;
    let mut np: usize = 0;
    let mut y = start_line;
    let ghost mut k: int = 0;
    proof {
        assert(height <= width * height) by (nonlinear_arith)
            requires
                width > 0,
        ;
    }
    while y < height
        invariant
            4 * height <= rgba@.len(),
            y <= height + 1,
            d == field_data@,
            d.len() <= isize::MAX,
            w == width,
            start == start_line,
            start_line <= 1,
            y == start + 2 * k,
            0 <= k,
            rgba@.len() == width * height * 4,
            np <= 1,
            bp <= d.len() + 2,
            np == 1 ==> bp <= d.len() + 1,
            align(2 * bp + np) == field_line_start(d, k, w),
            forall|yy: int, xx: int, cc: int|
                0 <= yy < height && 0 <= xx < width && 0 <= cc < 4 ==> #[trigger] rgba@[pixel_byte(
                    w,
                    yy,
                    xx,
                    cc,
                )] == if in_field(yy, start) && yy < y {
                    colors@[field_line(d, (yy - start) / 2, w)[xx] as int]@[cc]
                } else {
                    old(rgba)@[pixel_byte(w, yy, xx, cc)]
                },
        decreases height + 1 - y,
    {
        if np != 0 {
            bp = bp + 1;
            np = 0;
        }
        let (line, nbp, nnp) = decode_line(field_data, bp, width);
        proof {
            lemma_line_colors(d, field_line_start(d, k, w), 0, w);
            lemma_image_bound(w, height as int, y as int);
        }
        let total = rgba.len();
        assert(y * width * 4 + 4 * width <= total);
        let base = y * width * 4;
        let ghost before = rgba@;
        write_line(rgba, base, &line, colors);
        proof {
            assert forall|yy: int, xx: int, cc: int|
                0 <= yy < height && 0 <= xx < width && 0 <= cc < 4 implies #[trigger] rgba@[pixel_byte(
                w,
                yy,
                xx,
                cc,
            )] == if in_field(yy, start) && yy < y + 2 {
                colors@[field_line(d, (yy - start) / 2, w)[xx] as int]@[cc]
            } else {
                old(rgba)@[pixel_byte(w, yy, xx, cc)]
            } by {
                lemma_pixel_in_row(w, y as int, yy, xx, cc);
                lemma_pixel_in_image(w, height as int, yy, xx, cc);
                if yy == y {
                    assert((yy - start) / 2 == k);
                    let i = pixel_byte(w, yy, xx, cc);
                    assert((i - base) / 4 == xx);
                    assert((i - base) % 4 == cc);
                } else {
                    assert(before[pixel_byte(w, yy, xx, cc)] == rgba@[pixel_byte(w, yy, xx, cc)]);
                }
            }
        }
        bp = nbp;
        np = nnp;
        y = y + 2;
        proof {
            k = k + 1;
        }
    }
}

proof fn lemma_line_colors(d: Seq<u8>, q: int, x: int, w: int)
    ensures
        line_from(d, q, x, w).len() == if x >= w { 0 } else { w - x },
        forall|i: int| 0 <= i < line_from(d, q, x, w).len() ==> line_from(d, q, x, w)[i] < 4,
    decreases w - x,
{
    if x < w && !(q / 2 >= d.len() || code_run(d, q) == 0) {
        let m = if code_run(d, q) <= w - x {
            code_run(d, q)
        } else {
            w - x
        };
        lemma_line_colors(d, q + code_width(d, q), x + m, w);
    }
}

/// The RGBA bytes that 2-bit code `i` of `p` stands for: the palette colour
/// that it selects, with its alpha scaled from 0..15 to 0..255.
pub open spec fn code_rgba(p: SubtitlePacket, pal: VobSubPalette, i: int) -> Seq<u8> {
    let c = pal.rgba@[p.color_indices@[i] as int] as int;
    seq![
        (c % 256) as u8,
        (c / 256 % 256) as u8,
        (c / 65536 % 256) as u8,
        (p.alpha_values@[i] as int * 255 / 15) as u8,
    ]
}

/// The 2-bit code of pixel `(x, y)` of `p`'s bitmap: even lines come from the
/// even field, odd lines from the odd field.
pub open spec fn packet_pixel(p: SubtitlePacket, y: int, x: int) -> u8 {
    if y % 2 == 0 {
        field_line(p.even_field_data@, y / 2, p.width as int)[x]
    } else {
        field_line(p.odd_field_data@, (y - 1) / 2, p.width as int)[x]
    }
}

impl SubtitlePacket {
    /// Palette indices and alpha values fit in four bits.
    pub open spec fn wf(&self) -> bool {
        forall|i: int| 0 <= i < 4 ==> self.color_indices@[i] < 16 && self.alpha_values@[i] < 16
    }
}

fn code_color_entry(palette: &VobSubPalette, index: u8, alpha: u8) -> (r: [u8; 4])
    requires
        index < 16,
        alpha < 16,
    ensures
        r@ == seq![
            (palette.rgba@[index as int] as int % 256) as u8,
            (palette.rgba@[index as int] as int / 256 % 256) as u8,
            (palette.rgba@[index as int] as int / 65536 % 256) as u8,
            (alpha as int * 255 / 15) as u8,
        ],
{
    let c = palette.rgba[index as usize];
    let r = [(c % 256) as u8, (c / 256 % 256) as u8, (c / 65536 % 256) as u8, ((alpha as u32 * 255) / 15) as u8];
    assert(r@ =~= seq![
        (palette.rgba@[index as int] as int % 256) as u8,
        (palette.rgba@[index as int] as int / 256 % 256) as u8,
        (palette.rgba@[index as int] as int / 65536 % 256) as u8,
        (alpha as int * 255 / 15) as u8,
    ]);
    r
}

/// Decodes a sub-picture unit's bitmap to RGBA bytes, `4 * width * height`
/// of them (none for an empty bitmap), row by row.
pub fn decode_vobsub_rle(packet: &SubtitlePacket, palette: &VobSubPalette) -> (r: Vec<u8>)
    requires
        packet.wf(),
        packet.width as int * packet.height as int * 4 <= usize::MAX,
        packet.even_field_data@.len() <= isize::MAX,
        packet.odd_field_data@.len() <= isize::MAX,
    ensures
        packet.width == 0 || packet.height == 0 ==> r@.len() == 0,
        packet.width > 0 && packet.height > 0 ==> r@.len() == packet.width as int * packet.height as int * 4,
        forall|y: int, x: int, c: int|
            0 <= y < packet.height && 0 <= x < packet.width && 0 <= c < 4 ==> #[trigger] r@[pixel_byte(
                packet.width as int,
                y,
                x,
                c,
            )] == code_rgba(*packet, *palette, packet_pixel(*packet, y, x) as int)[c],
{
    let width = packet.width as usize;
    let height = packet.height as usize;
    if width == 0 || height == 0 {
        return Vec::new();
    }
    let mut rgba: Vec<u8> = vec![0u8; width * height * 4];
    let colors: [[u8; 4]; 4] = [
        code_color_entry(palette, packet.color_indices[0], packet.alpha_values[0]),
        code_color_entry(palette, packet.color_indices[1], packet.alpha_values[1]),
        code_color_entry(palette, packet.color_indices[2], packet.alpha_values[2]),
        code_color_entry(palette, packet.color_indices[3], packet.alpha_values[3]),
    ];
    assert forall|i: int| 0 <= i < 4 implies colors@[i]@ == code_rgba(*packet, *palette, i) by {
    }
    decode_field(packet.even_field_data.as_slice(), &mut rgba, width, height, 0, &colors);
    decode_field(packet.odd_field_data.as_slice(), &mut rgba, width, height, 1, &colors);
    proof {
        assert forall|y: int, x: int, c: int|
            0 <= y < packet.height && 0 <= x < packet.width && 0 <= c < 4 implies #[trigger] rgba@[pixel_byte(
            packet.width as int,
            y,
            x,
            c,
        )] == code_rgba(*packet, *palette, packet_pixel(*packet, y, x) as int)[c] by {
            if y % 2 == 0 {
                assert(in_field(y, 0));
                lemma_line_colors(packet.even_field_data@, field_line_start(packet.even_field_data@, y / 2, width as int), 0, width as int);
            } else {
                assert(in_field(y, 1));
                lemma_line_colors(packet.odd_field_data@, field_line_start(packet.odd_field_data@, (y - 1) / 2, width as int), 0, width as int);
            }
        }
    }
    rgba
}

/// Once a field's data runs out, the line where it ran out and every later
/// line of the field are fully transparent (colour 0).
pub proof fn lemma_exhausted_field_is_transparent(d: Seq<u8>, k0: int, k: int, w: int)
    requires
        0 <= k0 <= k,
        0 <= w,
        field_line_start(d, k0, w) / 2 >= d.len(),
    ensures
        field_line_start(d, k, w) / 2 >= d.len(),
        field_line(d, k, w) == run_of(w, 0),
    decreases k - k0,
{
    if k > k0 {
        lemma_exhausted_field_is_transparent(d, k0, k - 1, w);
        let q = field_line_start(d, k - 1, w);
        assert(line_end(d, q, 0, w) == q);
    }
    if w == 0 {
        assert(field_line(d, k, w) =~= run_of(w, 0));
    }
}

/// A line whose data runs out part way is filled with colour 0 from there to
/// its end.
pub proof fn lemma_exhausted_line_is_transparent(d: Seq<u8>, q: int, x: int, w: int)
    requires
        q / 2 >= d.len(),
        x < w,
    ensures
        line_from(d, q, x, w) == run_of(w - x, 0),
{
}

} // verus!
