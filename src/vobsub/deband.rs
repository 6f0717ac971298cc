//! The integer part of the deband filter: where each pixel samples its
//! neighbours, and reading and writing RGBA pixels.
use vstd::prelude::*;
use crate::utils::{clamp, clip};

verus! {

/// The per-pixel hash of the sampling offsets, modulo 2^32.
pub open spec fn deband_hash(seed: u32, x: u32, y: u32) -> int {
    (seed as int * 0x9E3779B9 + x as int * 0x85EBCA6B + y as int * 0xC2B2AE35) % 0x1_0000_0000
}

/// One sampling offset from 16 bits of the hash: in `[-range, range]`, then
/// raised to at least 1.
pub open spec fn offset_from(bits: int, range: int) -> int {
    let o = bits % (range * 2 + 1) - range;
    if o < 1 {
        1
    } else {
        o
    }
}

/// The horizontal and vertical sampling offsets of pixel `(x, y)`: the same
/// for the same seed, position and range.
pub fn sample_offset(seed: u32, x: u32, y: u32, range: i32) -> (r: (i32, i32))
    requires
        0 <= range <= 0x3FFF_FFFF,
    ensures
        r.0 as int == offset_from(deband_hash(seed, x, y) % 65536, range as int),
        r.1 as int == offset_from(deband_hash(seed, x, y) / 65536, range as int),
{
    let s1: u64 = ((seed as u64) * 0x9E3779B9 % 0x1_0000_0000 + (x as u64) * 0x85EBCA6B % 0x1_0000_0000)
        % 0x1_0000_0000;
    let h: u64 = (s1 + (y as u64) * 0xC2B2AE35 % 0x1_0000_0000) % 0x1_0000_0000;
    proof {
        let a = seed as int * 0x9E3779B9;
        let b = x as int * 0x85EBCA6B;
        let c = y as int * 0xC2B2AE35;
        vstd::arithmetic::div_mod::lemma_add_mod_noop(a, b, 0x1_0000_0000);
        vstd::arithmetic::div_mod::lemma_add_mod_noop(a + b, c, 0x1_0000_0000);
    }
    let m = (range as i64) * 2 + 1;
    let lo = (h % 65536) as i64;
    let hi = (h / 65536) as i64;
    let ox = lo % m - range as i64;
    let oy = hi % m - range as i64;
    let ox = if ox < 1 { 1 } else { ox };
    let oy = if oy < 1 { 1 } else { oy };
    (ox as i32, oy as i32)
}

/// The four bytes at `idx`.
pub fn read_pixel(rgba: &[u8], idx: usize) -> (r: [u8; 4])
    requires
        idx + 4 <= rgba@.len(),
    ensures
        r@ == rgba@.subrange(idx as int, idx + 4),
{
    let r = [rgba[idx], rgba[idx + 1], rgba[idx + 2], rgba[idx + 3]];
    assert(r@ =~= rgba@.subrange(idx as int, idx + 4));
    r
}

/// Writes four bytes at `idx`.
pub fn write_pixel(output: &mut [u8], idx: usize, pixel: [u8; 4])
    requires
        idx + 4 <= old(output)@.len(),
    ensures
        final(output)@ == old(output)@.subrange(0, idx as int) + pixel@ + old(output)@.subrange(
            idx + 4,
            old(output)@.len() as int,
        ),
{
    output[idx] = pixel[0];
    output[idx + 1] = pixel[1];
    output[idx + 2] = pixel[2];
    output[idx + 3] = pixel[3];
    assert(output@ =~= old(output)@.subrange(0, idx as int) + pixel@ + old(output)@.subrange(
        idx + 4,
        old(output)@.len() as int,
    ));
}

/// The byte offset of the pixel at `(x + dx, y + dy)`, each coordinate
/// limited to the image.
pub open spec fn clamped_offset(width: int, height: int, x: int, y: int, dx: int, dy: int) -> int {
    (clip(y + dy, 0, height - 1) * width + clip(x + dx, 0, width - 1)) * 4
}

fn sample_at(rgba: &[u8], width: usize, height: usize, x: usize, y: usize, dx: i32, dy: i32) -> (r: [u8; 4])
    requires
        0 < width <= 0x3FFF_FFFF,
        0 < height <= 0x3FFF_FFFF,
        x < width,
        y < height,
        -0x3FFF_FFFF <= dx <= 0x3FFF_FFFF,
        -0x3FFF_FFFF <= dy <= 0x3FFF_FFFF,
        width * height * 4 <= rgba@.len(),
    ensures
        ({
            let o = clamped_offset(width as int, height as int, x as int, y as int, dx as int, dy as int);
            r@ == rgba@.subrange(o, o + 4)
        }),
{
    let nx = clamp(x as i32 + dx, 0, width as i32 - 1) as usize;
    let ny = clamp(y as i32 + dy, 0, height as i32 - 1) as usize;
    let n = rgba.len();
    proof {
        assert(ny * width + nx < width * height) by (nonlinear_arith)
            requires
                ny < height,
                nx < width,
        ;
        assert(0 <= ny * width) by (nonlinear_arith);
    }
    read_pixel(rgba, (ny * width + nx) * 4)
}

/// The pixels `oy` above, `oy` below, `ox` left and `ox` right of `(x, y)`,
/// each coordinate limited to the image.
pub fn sample_cross(rgba: &[u8], width: usize, height: usize, x: usize, y: usize, ox: i32, oy: i32) -> (r: [[u8; 4]; 4])
    requires
        0 < width <= 0x3FFF_FFFF,
        0 < height <= 0x3FFF_FFFF,
        x < width,
        y < height,
        -0x3FFF_FFFF <= ox <= 0x3FFF_FFFF,
        -0x3FFF_FFFF <= oy <= 0x3FFF_FFFF,
        width * height * 4 <= rgba@.len(),
    ensures
        ({
            let (w, h, xx, yy) = (width as int, height as int, x as int, y as int);
            &&& r@[0]@ == rgba@.subrange(clamped_offset(w, h, xx, yy, 0, -oy), clamped_offset(w, h, xx, yy, 0, -oy) + 4)
            &&& r@[1]@ == rgba@.subrange(clamped_offset(w, h, xx, yy, 0, oy as int), clamped_offset(w, h, xx, yy, 0, oy as int) + 4)
            &&& r@[2]@ == rgba@.subrange(clamped_offset(w, h, xx, yy, -ox, 0), clamped_offset(w, h, xx, yy, -ox, 0) + 4)
            &&& r@[3]@ == rgba@.subrange(clamped_offset(w, h, xx, yy, ox as int, 0), clamped_offset(w, h, xx, yy, ox as int, 0) + 4)
        }),
{
    [
        sample_at(rgba, width, height, x, y, 0, -oy),
        sample_at(rgba, width, height, x, y, 0, oy),
        sample_at(rgba, width, height, x, y, -ox, 0),
        sample_at(rgba, width, height, x, y, ox, 0),
    ]
}

} // verus!
