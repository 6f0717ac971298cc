//! Big-endian byte reading, colour conversion and timestamp search.
use vstd::prelude::*;

verus! {

/// The 16-bit big-endian value of `d[i]`, `d[i + 1]`.
pub open spec fn be16(d: Seq<u8>, i: int) -> int {
    d[i] as int * 256 + d[i + 1] as int
}

/// The 24-bit big-endian value of `d[i..i + 3]`.
pub open spec fn be24(d: Seq<u8>, i: int) -> int {
    d[i] as int * 65536 + d[i + 1] as int * 256 + d[i + 2] as int
}

/// The 32-bit big-endian value of `d[i..i + 4]`.
pub open spec fn be32(d: Seq<u8>, i: int) -> int {
    d[i] as int * 16777216 + d[i + 1] as int * 65536 + d[i + 2] as int * 256 + d[i + 3] as int
}

/// Relies on byteorder's `BigEndian::read_u16`: the two bytes at `pos`, most
/// significant first (it panics on fewer than two bytes, which `requires` excludes).
#[verifier::external_body]
fn read_be_u16_at(buf: &[u8], pos: usize) -> (r: u16)
    requires
        pos + 2 <= buf@.len(),
    ensures
        r as int == be16(buf@, pos as int),
{
    <byteorder::BigEndian as byteorder::ByteOrder>::read_u16(&buf[pos..])
}

/// Relies on byteorder's `BigEndian::read_u32`: the four bytes at `pos`, most
/// significant first (it panics on fewer than four bytes, which `requires` excludes).
#[verifier::external_body]
fn read_be_u32_at(buf: &[u8], pos: usize) -> (r: u32)
    requires
        pos + 4 <= buf@.len(),
    ensures
        r as int == be32(buf@, pos as int),
{
    <byteorder::BigEndian as byteorder::ByteOrder>::read_u32(&buf[pos..])
}

/// A cursor over an in-memory buffer that reads big-endian integers.
///
/// A read that would run past the end of the buffer fails and leaves the
/// cursor where it was.
pub struct BigEndianReader<'a> {
    data: &'a [u8],
    pos: usize,
}

impl<'a> BigEndianReader<'a> {
    /// The whole buffer.
    pub closed spec fn bytes(&self) -> Seq<u8> {
        self.data@
    }

    /// The current read position.
    pub closed spec fn pos(&self) -> int {
        self.pos as int
    }

    /// The position lies within the buffer.
    pub open spec fn wf(&self) -> bool {
        &&& 0 <= self.pos() <= self.bytes().len()
        &&& self.bytes().len() <= usize::MAX
    }

    /// The reader has moved from `old` to `self` by `n` bytes over the same buffer.
    pub open spec fn advanced(&self, old: &Self, n: int) -> bool {
        &&& self.bytes() == old.bytes()
        &&& self.pos() == old.pos() + n
    }

    pub fn new(data: &'a [u8]) -> (r: Self)
        ensures
            r.bytes() == data@,
            r.pos() == 0,
            r.wf(),
    {
        let _n = data.len();
        BigEndianReader { data, pos: 0 }
    }

    pub fn position(&self) -> (r: usize)
        ensures
            r as int == self.pos(),
    {
        self.pos
    }

    pub fn set_position(&mut self, pos: usize)
        requires
            pos <= old(self).bytes().len(),
        ensures
            final(self).bytes() == old(self).bytes(),
            final(self).pos() == pos as int,
            final(self).wf(),
    {
        let _n = self.data.len();
        self.pos = pos;
    }

    pub fn remaining(&self) -> (r: usize)
        requires
            self.wf(),
        ensures
            r as int == self.bytes().len() - self.pos(),
    {
        self.data.len() - self.pos
    }

    pub fn read_u8(&mut self) -> (r: Option<u8>)
        requires
            old(self).wf(),
        ensures
            final(self).wf(),
            old(self).pos() + 1 <= old(self).bytes().len() ==> r == Some(old(self).bytes()[old(self).pos()])
                && final(self).advanced(old(self), 1),
            old(self).pos() + 1 > old(self).bytes().len() ==> r.is_none() && final(self).advanced(old(self), 0),
    {
        if self.pos < self.data.len() {
            let b = self.data[self.pos];
            self.pos = self.pos + 1;
            Some(b)
        } else {
            None
        }
    }

    pub fn read_u16(&mut self) -> (r: Option<u16>)
        requires
            old(self).wf(),
        ensures
            final(self).wf(),
            old(self).pos() + 2 <= old(self).bytes().len() ==> r == Some(be16(old(self).bytes(), old(self).pos()) as u16)
                && final(self).advanced(old(self), 2),
            old(self).pos() + 2 > old(self).bytes().len() ==> r.is_none() && final(self).advanced(old(self), 0),
    {
        if self.data.len() >= 2 && self.pos <= self.data.len() - 2 {
            let v = read_be_u16_at(self.data, self.pos);
            self.pos = self.pos + 2;
            Some(v)
        } else {
            None
        }
    }

    pub fn read_u24(&mut self) -> (r: Option<u32>)
        requires
            old(self).wf(),
        ensures
            final(self).wf(),
            old(self).pos() + 3 <= old(self).bytes().len() ==> r == Some(be24(old(self).bytes(), old(self).pos()) as u32)
                && final(self).advanced(old(self), 3),
            old(self).pos() + 3 > old(self).bytes().len() ==> r.is_none() && final(self).advanced(old(self), 0),
    {
        if self.data.len() >= 3 && self.pos <= self.data.len() - 3 {
            let p = self.pos;
            let v = (self.data[p] as u32) * 65536 + (self.data[p + 1] as u32) * 256 + (self.data[p + 2] as u32);
            self.pos = p + 3;
            Some(v)
        } else {
            None
        }
    }

    pub fn read_u32(&mut self) -> (r: Option<u32>)
        requires
            old(self).wf(),
        ensures
            final(self).wf(),
            old(self).pos() + 4 <= old(self).bytes().len() ==> r == Some(be32(old(self).bytes(), old(self).pos()) as u32)
                && final(self).advanced(old(self), 4),
            old(self).pos() + 4 > old(self).bytes().len() ==> r.is_none() && final(self).advanced(old(self), 0),
    {
        if self.data.len() >= 4 && self.pos <= self.data.len() - 4 {
            let v = read_be_u32_at(self.data, self.pos);
            self.pos = self.pos + 4;
            Some(v)
        } else {
            None
        }
    }

    pub fn read_bytes(&mut self, len: usize) -> (r: Option<Vec<u8>>)
        requires
            old(self).wf(),
        ensures
            final(self).wf(),
            old(self).pos() + len <= old(self).bytes().len() ==> r.is_some()
                && r.unwrap()@ == old(self).bytes().subrange(old(self).pos(), old(self).pos() + len)
                && final(self).advanced(old(self), len as int),
            old(self).pos() + len > old(self).bytes().len() ==> r.is_none() && final(self).advanced(old(self), 0),
    {
        if len <= self.data.len() - self.pos {
            let start = self.pos;
            let n = self.data.len();
            let mut out: Vec<u8> = Vec::with_capacity(len);
            let mut i: usize = 0;
            while i < len
                invariant
                    self.wf(),
                    self.pos == start,
                    start + len <= n,
                    n == self.data@.len(),
                    i <= len,
                    out@ == self.data@.subrange(start as int, start + i),
                decreases len - i,
            {
                out.push(self.data[start + i]);
                i = i + 1;
                assert(out@ =~= self.data@.subrange(start as int, start + i));
            }
            self.pos = start + len;
            Some(out)
        } else {
            None
        }
    }

    /// Moves forward by `len` bytes when that stays within the buffer.
    pub fn skip(&mut self, len: usize) -> (r: bool)
        requires
            old(self).wf(),
        ensures
            final(self).wf(),
            r == (old(self).pos() + len <= old(self).bytes().len()),
            r ==> final(self).advanced(old(self), len as int),
            !r ==> final(self).advanced(old(self), 0),
    {
        if len <= self.data.len() - self.pos {
            self.pos = self.pos + len;
            true
        } else {
            false
        }
    }
}

/// The packed colour whose bytes, lowest first, are `r`, `g`, `b`, `a`.
pub open spec fn pack_rgba(r: int, g: int, b: int, a: int) -> int {
    r + g * 256 + b * 65536 + a * 16777216
}

/// `n / d` rounded to the nearest integer, halves away from zero.
pub open spec fn round_div(n: int, d: int) -> int {
    if n >= 0 {
        (2 * n + d) / (2 * d)
    } else {
        -((-2 * n + d) / (2 * d))
    }
}

/// `v` limited to `[lo, hi]`.
pub open spec fn clip(v: int, lo: int, hi: int) -> int {
    if v < lo {
        lo
    } else if v > hi {
        hi
    } else {
        v
    }
}

/// Red, scaled by 100000: `Y + 1.402 (Cr - 128)`.
pub open spec fn red_scaled(y: u8, cb: u8, cr: u8) -> int {
    100000 * y + 140200 * (cr - 128)
}

/// Green, scaled by 100000: `Y - 0.34414 (Cb - 128) - 0.71414 (Cr - 128)`.
pub open spec fn green_scaled(y: u8, cb: u8, cr: u8) -> int {
    100000 * y - 34414 * (cb - 128) - 71414 * (cr - 128)
}

/// Blue, scaled by 100000: `Y + 1.772 (Cb - 128)`.
pub open spec fn blue_scaled(y: u8, cb: u8, cr: u8) -> int {
    100000 * y + 177200 * (cb - 128)
}

/// A scaled channel value rounded to the nearest integer and limited to a byte.
pub open spec fn channel(scaled: int) -> int {
    clip(round_div(scaled, 100000), 0, 255)
}

/// The packed RGBA colour of a BT.601 YCbCr colour with alpha `a`.
pub open spec fn ycbcr_rgba(y: u8, cb: u8, cr: u8, a: u8) -> int {
    pack_rgba(
        channel(red_scaled(y, cb, cr)),
        channel(green_scaled(y, cb, cr)),
        channel(blue_scaled(y, cb, cr)),
        a as int,
    )
}

fn scaled_to_channel(n: i64) -> (r: u8)
    requires
        -100000000 <= n <= 100000000,
    ensures
        r as int == channel(n as int),
{
    proof {
        lemma_round_div_bounds(n as int);
    }
    let rounded: i64 = if n >= 0 {
        (2 * n + 100000) / 200000
    } else {
        -((-2 * n + 100000) / 200000)
    };
    clamp(rounded as i32, 0, 255) as u8
}

/// Converts a BT.601 YCbCr colour to packed RGBA, byte order R, G, B, A.
pub fn ycbcr_to_rgba(y: u8, cb: u8, cr: u8, a: u8) -> (r: u32)
    ensures
        r as int == ycbcr_rgba(y, cb, cr, a),
{
    let yy = y as i64;
    let cbb = cb as i64 - 128;
    let crr = cr as i64 - 128;
    let red = scaled_to_channel(100000 * yy + 140200 * crr);
    let green = scaled_to_channel(100000 * yy - 34414 * cbb - 71414 * crr);
    let blue = scaled_to_channel(100000 * yy + 177200 * cbb);
    rgb_to_rgba(red, green, blue, a)
}

/// Packs four bytes into one colour, byte order R, G, B, A.
pub fn rgb_to_rgba(r: u8, g: u8, b: u8, a: u8) -> (c: u32)
    ensures
        c as int == pack_rgba(r as int, g as int, b as int, a as int),
{
    r as u32 + (g as u32) * 256 + (b as u32) * 65536 + (a as u32) * 16777216
}

/// `value` limited to `[min, max]`.
pub fn clamp(value: i32, min: i32, max: i32) -> (r: i32)
    requires
        min <= max,
    ensures
        r as int == clip(value as int, min as int, max as int),
{
    if value < min {
        min
    } else if value > max {
        max
    } else {
        value
    }
}

/// With neutral chroma the colour is the grey of its luma: black and white
/// map to themselves, and alpha is kept.
pub proof fn lemma_ycbcr_neutral_is_grey(y: u8, a: u8)
    ensures
        ycbcr_rgba(y, 128, 128, a) == pack_rgba(y as int, y as int, y as int, a as int),
        ycbcr_rgba(255, 128, 128, a) == pack_rgba(255, 255, 255, a as int),
        ycbcr_rgba(0, 128, 128, a) == pack_rgba(0, 0, 0, a as int),
{
}

/// Each channel lies within half a step of the exact BT.601 value limited to
/// `[0, 255]`, so within one of it.
pub proof fn lemma_ycbcr_within_rounding(y: u8, cb: u8, cr: u8)
    ensures
        -50000 <= 100000 * channel(red_scaled(y, cb, cr)) - clip(red_scaled(y, cb, cr), 0, 25500000) <= 50000,
        -50000 <= 100000 * channel(green_scaled(y, cb, cr)) - clip(green_scaled(y, cb, cr), 0, 25500000) <= 50000,
        -50000 <= 100000 * channel(blue_scaled(y, cb, cr)) - clip(blue_scaled(y, cb, cr), 0, 25500000) <= 50000,
{
    lemma_channel_rounding(red_scaled(y, cb, cr));
    lemma_channel_rounding(green_scaled(y, cb, cr));
    lemma_channel_rounding(blue_scaled(y, cb, cr));
}

proof fn lemma_round_div_bounds(n: int)
    ensures
        n >= 0 ==> 200000 * ((2 * n + 100000) / 200000) <= 2 * n + 100000 < 200000 * ((2 * n + 100000) / 200000) + 200000,
        n < 0 ==> 200000 * ((-2 * n + 100000) / 200000) <= -2 * n + 100000 < 200000 * ((-2 * n + 100000) / 200000) + 200000,
        -100000000 <= n <= 100000000 ==> -1000 <= round_div(n, 100000) <= 1000,
{
    if n >= 0 {
        vstd::arithmetic::div_mod::lemma_fundamental_div_mod(2 * n + 100000, 200000);
    } else {
        vstd::arithmetic::div_mod::lemma_fundamental_div_mod(-2 * n + 100000, 200000);
    }
}

proof fn lemma_channel_rounding(n: int)
    ensures
        -50000 <= 100000 * channel(n) - clip(n, 0, 25500000) <= 50000,
{
    lemma_round_div_bounds(n);
}

/// Timestamps never decrease.
pub open spec fn is_sorted(t: Seq<u32>) -> bool {
    forall|i: int, j: int| 0 <= i <= j < t.len() ==> t[i] <= t[j]
}

/// `r` is the greatest index whose timestamp is at or before `q`, or 0 when
/// there is none.
pub open spec fn is_latest_at_or_before(t: Seq<u32>, q: u32, r: int) -> bool {
    if exists|i: int| 0 <= i < t.len() && t[i] <= q {
        &&& 0 <= r < t.len()
        &&& t[r] <= q
        &&& forall|i: int| 0 <= i < t.len() && t[i] <= q ==> i <= r
    } else {
        r == 0
    }
}

/// `is_latest_at_or_before` fixes one index.
pub proof fn lemma_latest_unique(t: Seq<u32>, q: u32, r: int)
    requires
        is_latest_at_or_before(t, q, r),
    ensures
        forall|i: int| is_latest_at_or_before(t, q, i) ==> i == r,
{
}

/// Binary search over ascending timestamps for the last one at or before `target`.
pub fn binary_search_timestamp(timestamps: &[u32], target: u32) -> (r: usize)
    ensures
        r == 0 || r < timestamps@.len(),
        is_sorted(timestamps@) ==> is_latest_at_or_before(timestamps@, target, r as int),
{
    if timestamps.len() == 0 {
        return 0;
    }
    let mut low: usize = 0;
    let mut high: usize = timestamps.len();
    while low < high
        invariant
            low <= high <= timestamps@.len(),
            is_sorted(timestamps@) ==> forall|i: int| 0 <= i < low ==> timestamps@[i] <= target,
            is_sorted(timestamps@) ==> forall|i: int| high <= i < timestamps@.len() ==> timestamps@[i] > target,
        decreases high - low,
    {
        let mid = low + (high - low) / 2;
        if timestamps[mid] <= target {
            low = mid + 1;
        } else {
            high = mid;
        }
    }
    proof {
        if is_sorted(timestamps@) {
            if low > 0 {
                assert(timestamps@[low - 1] <= target);
            } else {
                assert(!exists|i: int| 0 <= i < timestamps@.len() && timestamps@[i] <= target);
            }
        }
    }
    if low > 0 {
        low - 1
    } else {
        0
    }
}

} // verus!
