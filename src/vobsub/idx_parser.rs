//! The VobSub `.idx` index: palette, screen size, language and timestamps.
//!
//! The index is line-oriented text. Blank lines and lines starting with `#`
//! are skipped; `size:`, `palette:`, `id:` and `timestamp:` lines are read;
//! anything else, and any line that does not parse, is ignored.
use vstd::prelude::*;
use crate::utils::pack_rgba;
use vstd::string::StringSliceAdditionalSpecFns;

verus! {

/// The 16 colours of a VobSub palette, each packed with byte order R, G, B, A.
#[derive(Debug, Clone, Copy)]
pub struct VobSubPalette {
    pub rgba: [u32; 16],
}

/// The grey-scale palette used when the index gives none.
pub open spec fn default_palette() -> Seq<u32> {
    seq![
        0x00000000u32, 0xFFFFFFFF, 0xFF000000, 0xFF808080, 0xFF000000, 0xFF000000, 0xFF000000, 0xFF000000,
        0xFF000000, 0xFF000000, 0xFF000000, 0xFF000000, 0xFF000000, 0xFF000000, 0xFF000000, 0xFF000000,
    ]
}

impl VobSubPalette {
    /// Transparent, white, black, grey, then black.
    pub fn default_palette() -> (r: Self)
        ensures
            r.rgba@ == default_palette(),
    {
        let r = VobSubPalette {
            rgba: [
                0x00000000, 0xFFFFFFFF, 0xFF000000, 0xFF808080, 0xFF000000, 0xFF000000, 0xFF000000, 0xFF000000,
                0xFF000000, 0xFF000000, 0xFF000000, 0xFF000000, 0xFF000000, 0xFF000000, 0xFF000000, 0xFF000000,
            ],
        };
        assert(r.rgba@ =~= default_palette());
        r
    }
}

impl Default for VobSubPalette {
    fn default() -> (r: Self)
        ensures
            r.rgba@ == default_palette(),
    {
        VobSubPalette::default_palette()
    }
}

/// One subtitle of the index: when it starts and where its packet lies.
#[derive(Debug, Clone, Copy)]
pub struct VobSubTimestamp {
    pub timestamp_ms: u32,
    /// Byte offset of the packet in the `.sub` stream.
    pub file_position: u64,
}

/// Screen size and track of the index.
#[derive(Debug, Clone)]
pub struct VobSubMetadata {
    pub width: u16,
    pub height: u16,
    pub language: Option<String>,
    pub id: Option<String>,
}

impl VobSubMetadata {
    /// 720 x 480, with no language or track.
    pub fn default_metadata() -> (r: Self)
        ensures
            r.width == 720,
            r.height == 480,
            r.language.is_none(),
            r.id.is_none(),
    {
        VobSubMetadata { width: 720, height: 480, language: None, id: None }
    }
}

impl Default for VobSubMetadata {
    fn default() -> (r: Self)
        ensures
            r.width == 720,
            r.height == 480,
            r.language.is_none(),
            r.id.is_none(),
    {
        VobSubMetadata::default_metadata()
    }
}

/// Everything an index holds.
#[derive(Debug, Clone)]
pub struct IdxParseResult {
    pub palette: VobSubPalette,
    pub timestamps: Vec<VobSubTimestamp>,
    pub metadata: VobSubMetadata,
}

/// Relies on `String::from_utf8_lossy`: the text of a run of bytes, which
/// depends on the bytes alone.
pub uninterp spec fn text_of(b: Seq<u8>) -> Seq<char>;

/// Relies on `String::from_utf8_lossy` (then `into_owned`) to turn a run of
/// the index's bytes into text.
#[verifier::external_body]
fn text_from_bytes(d: &[u8], start: usize, end: usize) -> (r: String)
    requires
        start <= end <= d@.len(),
    ensures
        r@ == text_of(d@.subrange(start as int, end as int)),
{
    String::from_utf8_lossy(&d[start..end]).into_owned()
}

/// ASCII white space, as `trim` removes it.
pub open spec fn is_space(b: u8) -> bool {
    b == 32 || (9 <= b <= 13)
}

/// `s` without leading white space.
pub open spec fn trim_start(s: Seq<u8>) -> Seq<u8>
    decreases s.len(),
{
    if s.len() > 0 && is_space(s[0]) {
        trim_start(s.drop_first())
    } else {
        s
    }
}

/// `s` without trailing white space.
pub open spec fn trim_end(s: Seq<u8>) -> Seq<u8>
    decreases s.len(),
{
    if s.len() > 0 && is_space(s.last()) {
        trim_end(s.drop_last())
    } else {
        s
    }
}

/// `s` without white space at either end.
pub open spec fn trim(s: Seq<u8>) -> Seq<u8> {
    trim_end(trim_start(s))
}

/// `s` without leading `#`.
pub open spec fn trim_hashes(s: Seq<u8>) -> Seq<u8>
    decreases s.len(),
{
    if s.len() > 0 && s[0] == 35 {
        trim_hashes(s.drop_first())
    } else {
        s
    }
}

/// `s` begins with `p`.
pub open spec fn has_prefix(s: Seq<u8>, p: Seq<u8>) -> bool {
    s.len() >= p.len() && s.subrange(0, p.len() as int) == p
}

/// The first index of `b` in `s`, if any.
pub open spec fn find_byte(s: Seq<u8>, b: u8) -> Option<int>
    decreases s.len(),
{
    if s.len() == 0 {
        None
    } else if s[0] == b {
        Some(0)
    } else {
        match find_byte(s.drop_first(), b) {
            Some(k) => Some(k + 1),
            None => None,
        }
    }
}

/// The value of a decimal digit.
pub open spec fn dec_digit(b: u8) -> Option<int> {
    if 48 <= b <= 57 {
        Some(b - 48)
    } else {
        None
    }
}

/// The value of a hexadecimal digit, either case.
pub open spec fn hex_digit(b: u8) -> Option<int> {
    if 48 <= b <= 57 {
        Some(b - 48)
    } else if 97 <= b <= 102 {
        Some(b - 87)
    } else if 65 <= b <= 70 {
        Some(b - 55)
    } else {
        None
    }
}

/// The value of a run of digits in base `radix` (10 or 16); `None` when a
/// byte is no digit.
pub open spec fn digits_value(s: Seq<u8>, radix: int) -> Option<int>
    decreases s.len(),
{
    if s.len() == 0 {
        Some(0)
    } else {
        let d = if radix == 16 {
            hex_digit(s.last())
        } else {
            dec_digit(s.last())
        };
        match (digits_value(s.drop_last(), radix), d) {
            (Some(v), Some(x)) => Some(v * radix + x),
            _ => None,
        }
    }
}

/// An unsigned number as Rust's integer parsing reads it: an optional `+`,
/// then at least one digit; `None` when malformed or above `max`.
pub open spec fn parse_unsigned(s: Seq<u8>, radix: int, max: int) -> Option<int> {
    let body = if s.len() > 0 && s[0] == 43 {
        s.drop_first()
    } else {
        s
    };
    if body.len() == 0 {
        None
    } else {
        match digits_value(body, radix) {
            Some(v) => if v <= max {
                Some(v)
            } else {
                None
            },
            None => None,
        }
    }
}

/// The pieces of `s` between the bytes `sep`.
pub open spec fn split_on(s: Seq<u8>, sep: u8) -> Seq<Seq<u8>>
    decreases s.len(),
{
    match find_byte(s, sep) {
        Some(k) => if 0 <= k < s.len() {
            seq![s.subrange(0, k)] + split_on(s.subrange(k + 1, s.len() as int), sep)
        } else {
            seq![s]
        },
        None => seq![s],
    }
}

/// What the lines of an index read so far have set.
pub struct IdxModel {
    pub width: u16,
    pub height: u16,
    pub palette: Seq<u32>,
    pub language: Option<Seq<u8>>,
    pub id: Option<Seq<u8>>,
    pub timestamps: Seq<(u32, u64)>,
}

/// Before any line: 720 x 480, the grey-scale palette, nothing else.
pub open spec fn initial_model() -> IdxModel {
    IdxModel {
        width: 720,
        height: 480,
        palette: default_palette(),
        language: None,
        id: None,
        timestamps: Seq::empty(),
    }
}

/// The text `size:`.
pub open spec fn key_size() -> Seq<u8> {
    seq![115u8, 105, 122, 101, 58]
}

/// The text `palette:`.
pub open spec fn key_palette() -> Seq<u8> {
    seq![112u8, 97, 108, 101, 116, 116, 101, 58]
}

/// The text `id:`.
pub open spec fn key_id() -> Seq<u8> {
    seq![105u8, 100, 58]
}

/// The text `index:`.
pub open spec fn key_index() -> Seq<u8> {
    seq![105u8, 110, 100, 101, 120, 58]
}

/// The text `timestamp:`.
pub open spec fn key_timestamp() -> Seq<u8> {
    seq![116u8, 105, 109, 101, 115, 116, 97, 109, 112, 58]
}

/// The text `filepos:`.
pub open spec fn key_filepos() -> Seq<u8> {
    seq![102u8, 105, 108, 101, 112, 111, 115, 58]
}

/// `WxH` after `size:`.
pub open spec fn size_value(rest: Seq<u8>) -> Option<(u16, u16)> {
    let r = trim(rest);
    match find_byte(r, 120) {
        Some(k) => match (
            parse_unsigned(trim(r.subrange(0, k)), 10, 65535),
            parse_unsigned(trim(r.subrange(k + 1, r.len() as int)), 10, 65535),
        ) {
            (Some(w), Some(h)) => Some((w as u16, h as u16)),
            _ => None,
        },
        None => None,
    }
}

/// A palette entry: six hexadecimal digits of RGB after any `#`, made opaque.
pub open spec fn palette_entry(piece: Seq<u8>) -> Option<u32> {
    let hex = trim_hashes(trim(piece));
    if hex.len() == 6 {
        match parse_unsigned(hex, 16, 0xFFFFFFFF) {
            Some(rgb) => Some(pack_rgba(rgb / 65536 % 256, rgb / 256 % 256, rgb % 256, 255) as u32),
            None => None,
        }
    } else {
        None
    }
}

/// The palette after a `palette:` line whose entries are `pieces`: the first
/// 16 that parse replace the colours at their positions.
pub open spec fn palette_after(pal: Seq<u32>, pieces: Seq<Seq<u8>>) -> Seq<u32> {
    Seq::new(
        pal.len(),
        |i: int|
            if i < pieces.len() && i < 16 {
                match palette_entry(pieces[i]) {
                    Some(c) => c,
                    None => pal[i],
                }
            } else {
                pal[i]
            },
    )
}

/// `HH:MM:SS:mmm` in milliseconds, when it fits in 32 bits.
pub open spec fn time_value(t: Seq<u8>) -> Option<u32> {
    let parts = split_on(t, 58);
    if parts.len() != 4 {
        None
    } else {
        match (
            parse_unsigned(parts[0], 10, 0xFFFFFFFF),
            parse_unsigned(parts[1], 10, 0xFFFFFFFF),
            parse_unsigned(parts[2], 10, 0xFFFFFFFF),
            parse_unsigned(parts[3], 10, 0xFFFFFFFF),
        ) {
            (Some(h), Some(m), Some(s), Some(ms)) => {
                let total = h * 3600000 + m * 60000 + s * 1000 + ms;
                if total <= 0xFFFFFFFF {
                    Some(total as u32)
                } else {
                    None
                }
            },
            _ => None,
        }
    }
}

/// `HH:MM:SS:mmm, filepos: HEX` after `timestamp:`.
pub open spec fn timestamp_value(rest: Seq<u8>) -> Option<(u32, u64)> {
    match find_byte(rest, 44) {
        Some(k) => {
            let time = trim(rest.subrange(0, k));
            let fp = trim(rest.subrange(k + 1, rest.len() as int));
            if has_prefix(fp, key_filepos()) {
                match (
                    time_value(time),
                    parse_unsigned(trim(fp.subrange(8, fp.len() as int)), 16, 0xFFFF_FFFF_FFFF_FFFF),
                ) {
                    (Some(ms), Some(pos)) => Some((ms, pos as u64)),
                    _ => None,
                }
            } else {
                None
            }
        },
        None => None,
    }
}

/// The model after one trimmed line.
pub open spec fn apply_line(m: IdxModel, t: Seq<u8>) -> IdxModel {
    if t.len() == 0 || t[0] == 35 {
        m
    } else if has_prefix(t, key_size()) {
        match size_value(t.subrange(5, t.len() as int)) {
            Some((w, h)) => IdxModel { width: w, height: h, ..m },
            None => m,
        }
    } else if has_prefix(t, key_palette()) {
        IdxModel { palette: palette_after(m.palette, split_on(t.subrange(8, t.len() as int), 44)), ..m }
    } else if has_prefix(t, key_id()) {
        let parts = split_on(t.subrange(3, t.len() as int), 44);
        let second = if parts.len() > 1 {
            trim(parts[1])
        } else {
            Seq::empty()
        };
        IdxModel {
            language: Some(trim(parts[0])),
            id: if parts.len() > 1 && has_prefix(second, key_index()) {
                Some(trim(second.subrange(6, second.len() as int)))
            } else {
                m.id
            },
            ..m
        }
    } else if has_prefix(t, key_timestamp()) {
        match timestamp_value(t.subrange(10, t.len() as int)) {
            Some(e) => IdxModel { timestamps: m.timestamps.push(e), ..m },
            None => m,
        }
    } else {
        m
    }
}

/// Where the line starting at `pos` ends: its newline, or the end of the text.
pub open spec fn line_end(d: Seq<u8>, pos: int) -> int {
    match find_byte(d.subrange(pos, d.len() as int), 10) {
        Some(k) => pos + k,
        None => d.len() as int,
    }
}

/// The model after the lines from `pos` on.
pub open spec fn lines_from(d: Seq<u8>, pos: int, m: IdxModel) -> IdxModel
    decreases d.len() - pos,
{
    if pos < 0 || pos >= d.len() {
        m
    } else {
        let e = line_end(d, pos);
        let m2 = apply_line(m, trim(d.subrange(pos, e)));
        if e + 1 <= pos || e >= d.len() {
            m2
        } else {
            lines_from(d, e + 1, m2)
        }
    }
}

/// The model of a whole index.
pub open spec fn idx_model(d: Seq<u8>) -> IdxModel {
    lines_from(d, 0, initial_model())
}

proof fn lemma_find_byte_bound(s: Seq<u8>, b: u8)
    ensures
        find_byte(s, b) matches Some(k) ==> 0 <= k < s.len() && s[k] == b,
    decreases s.len(),
{
    if s.len() > 0 && s[0] != b {
        lemma_find_byte_bound(s.drop_first(), b);
    }
}

/// The first `b` in `d[start..end)`, as an index of `d`.
fn find_in(d: &[u8], start: usize, end: usize, b: u8) -> (r: Option<usize>)
    requires
        start <= end <= d@.len(),
    ensures
        r matches Some(i) ==> find_byte(d@.subrange(start as int, end as int), b) == Some(i - start) && start <= i
            < end,
        r.is_none() ==> find_byte(d@.subrange(start as int, end as int), b).is_none(),
{
    let mut i = start;
    while i < end
        invariant
            start <= i <= end <= d@.len(),
            find_byte(d@.subrange(start as int, end as int), b) == match find_byte(d@.subrange(i as int, end as int), b) {
                Some(k) => Some(k + (i - start)),
                None => None::<int>,
            },
        decreases end - i,
    {
        assert(d@.subrange(i as int, end as int).drop_first() =~= d@.subrange(i + 1, end as int));
        if d[i] == b {
            return Some(i);
        }
        i = i + 1;
    }
    None
}

/// `d[start..end)` without white space at either end, as a range of `d`.
fn trim_range(d: &[u8], start: usize, end: usize) -> (r: (usize, usize))
    requires
        start <= end <= d@.len(),
    ensures
        start <= r.0 <= r.1 <= end,
        d@.subrange(r.0 as int, r.1 as int) == trim(d@.subrange(start as int, end as int)),
{
    let mut a = start;
    while a < end && (d[a] == 32 || (9 <= d[a] && d[a] <= 13))
        invariant
            start <= a <= end <= d@.len(),
            trim_start(d@.subrange(start as int, end as int)) == trim_start(d@.subrange(a as int, end as int)),
        decreases end - a,
    {
        assert(d@.subrange(a as int, end as int).drop_first() =~= d@.subrange(a + 1, end as int));
        a = a + 1;
    }
    let mut b = end;
    while b > a && (d[b - 1] == 32 || (9 <= d[b - 1] && d[b - 1] <= 13))
        invariant
            start <= a <= b <= end <= d@.len(),
            trim_start(d@.subrange(start as int, end as int)) == d@.subrange(a as int, end as int),
            trim_end(d@.subrange(a as int, end as int)) == trim_end(d@.subrange(a as int, b as int)),
        decreases b - a,
    {
        assert(d@.subrange(a as int, b as int).drop_last() =~= d@.subrange(a as int, b - 1));
        b = b - 1;
    }
    (a, b)
}

/// `d[start..end)` without leading `#`, as a start index.
fn trim_hashes_range(d: &[u8], start: usize, end: usize) -> (r: usize)
    requires
        start <= end <= d@.len(),
    ensures
        start <= r <= end,
        d@.subrange(r as int, end as int) == trim_hashes(d@.subrange(start as int, end as int)),
{
    let mut a = start;
    while a < end && d[a] == 35
        invariant
            start <= a <= end <= d@.len(),
            trim_hashes(d@.subrange(start as int, end as int)) == trim_hashes(d@.subrange(a as int, end as int)),
        decreases end - a,
    {
        assert(d@.subrange(a as int, end as int).drop_first() =~= d@.subrange(a + 1, end as int));
        a = a + 1;
    }
    a
}

/// `d[start..end)` begins with `key`.
fn starts_with_at(d: &[u8], start: usize, end: usize, key: &[u8]) -> (r: bool)
    requires
        start <= end <= d@.len(),
    ensures
        r == has_prefix(d@.subrange(start as int, end as int), key@),
{
    let n = key.len();
    if end - start < n {
        return false;
    }
    let mut i: usize = 0;
    while i < n
        invariant
            n == key@.len(),
            start + n <= end <= d@.len(),
            i <= n,
            forall|j: int| 0 <= j < i ==> d@[start + j] == key@[j],
        decreases n - i,
    {
        if d[start + i] != key[i] {
            assert(d@.subrange(start as int, end as int).subrange(0, n as int)[i as int] != key@[i as int]);
            return false;
        }
        i = i + 1;
    }
    assert(d@.subrange(start as int, end as int).subrange(0, n as int) =~= key@);
    true
}

proof fn lemma_digits_grow(s: Seq<u8>, t: Seq<u8>, radix: int)
    requires
        radix == 10 || radix == 16,
        t.len() <= s.len(),
        t == s.subrange(0, t.len() as int),
        digits_value(t, radix).is_some(),
        digits_value(s, radix).is_some(),
    ensures
        digits_value(s, radix).unwrap() >= digits_value(t, radix).unwrap(),
        digits_value(s, radix).unwrap() >= 0,
    decreases s.len(),
{
    if s.len() > t.len() {
        assert(s.drop_last().subrange(0, t.len() as int) =~= t);
        lemma_digits_grow(s.drop_last(), t, radix);
    } else {
        assert(s =~= t);
        lemma_digits_nonneg(s, radix);
    }
}

proof fn lemma_digits_nonneg(s: Seq<u8>, radix: int)
    requires
        radix == 10 || radix == 16,
    ensures
        digits_value(s, radix) matches Some(v) ==> v >= 0,
    decreases s.len(),
{
    if s.len() > 0 {
        lemma_digits_nonneg(s.drop_last(), radix);
    }
}

proof fn lemma_digits_none_extends(s: Seq<u8>, t: Seq<u8>, radix: int)
    requires
        t.len() <= s.len(),
        t == s.subrange(0, t.len() as int),
        digits_value(t, radix).is_none(),
    ensures
        digits_value(s, radix).is_none(),
    decreases s.len(),
{
    if s.len() > t.len() {
        assert(s.drop_last().subrange(0, t.len() as int) =~= t);
        lemma_digits_none_extends(s.drop_last(), t, radix);
    } else {
        assert(s =~= t);
    }
}

/// Reads `d[start..end)` as an unsigned number in base `radix` (10 or 16), as
/// Rust's integer parsing does; `None` when malformed or above `max`.
fn parse_unsigned_range(d: &[u8], start: usize, end: usize, radix: u64, max: u64) -> (r: Option<u64>)
    requires
        start <= end <= d@.len(),
        radix == 10 || radix == 16,
    ensures
        r matches Some(v) ==> parse_unsigned(d@.subrange(start as int, end as int), radix as int, max as int)
            == Some(v as int),
        r.is_none() ==> parse_unsigned(d@.subrange(start as int, end as int), radix as int, max as int).is_none(),
{
    let ghost s = d@.subrange(start as int, end as int);
    let a = if start < end && d[start] == 43 {
        start + 1
    } else {
        start
    };
    let ghost body = d@.subrange(a as int, end as int);
    assert(body =~= (if s.len() > 0 && s[0] == 43 { s.drop_first() } else { s }));
    if a == end {
        return None;
    }
    let mut v: u64 = 0;
    let mut i = a;
    while i < end
        invariant
            a <= i <= end <= d@.len(),
            body == d@.subrange(a as int, end as int),
            s == d@.subrange(start as int, end as int),
            body == (if s.len() > 0 && s[0] == 43 { s.drop_first() } else { s }),
            body.len() > 0,
            radix == 10 || radix == 16,
            v <= max,
            digits_value(d@.subrange(a as int, i as int), radix as int) == Some(v as int),
        decreases end - i,
    {
        let c = d[i];
        let ghost pre = d@.subrange(a as int, i + 1);
        assert(pre.drop_last() =~= d@.subrange(a as int, i as int));
        assert(pre =~= body.subrange(0, pre.len() as int));
        let x: u64 = if 48 <= c && c <= 57 {
            (c - 48) as u64
        } else if radix == 16 && 97 <= c && c <= 102 {
            (c - 87) as u64
        } else if radix == 16 && 65 <= c && c <= 70 {
            (c - 55) as u64
        } else {
            proof {
                assert(pre.last() == c);
                assert(digits_value(pre, radix as int).is_none());
                lemma_digits_none_extends(body, pre, radix as int);
            }
            return None;
        };
        proof {
            assert(pre.last() == c);
            assert(digits_value(pre, radix as int) == Some(v * radix + x));
        }
        if x > max {
            proof {
                if digits_value(body, radix as int).is_some() {
                    lemma_digits_nonneg(d@.subrange(a as int, i as int), radix as int);
                    lemma_digits_grow(body, pre, radix as int);
                }
            }
            return None;
        }
        let lim = (max - x) / radix;
        proof {
            vstd::arithmetic::div_mod::lemma_fundamental_div_mod((max - x) as int, radix as int);
            vstd::arithmetic::div_mod::lemma_mod_bound((max - x) as int, radix as int);
        }
        if v > lim {
            proof {
                assert(v * radix >= lim * radix + radix) by (nonlinear_arith)
                    requires
                        v >= lim + 1,
                        radix > 0,
                ;
                if digits_value(body, radix as int).is_some() {
                    lemma_digits_grow(body, pre, radix as int);
                }
            }
            return None;
        }
        proof {
            assert(v * radix <= lim * radix) by (nonlinear_arith)
                requires
                    v <= lim,
                    radix > 0,
            ;
        }
        v = v * radix + x;
        i = i + 1;
    }
    assert(d@.subrange(a as int, end as int) =~= body);
    Some(v)
}

/// `text` holds the text of `model`'s bytes, or both are absent.
pub open spec fn text_matches(text: Option<String>, model: Option<Seq<u8>>) -> bool {
    match (text, model) {
        (None, None) => true,
        (Some(t), Some(b)) => t@ == text_of(b),
        _ => false,
    }
}

/// `r` holds what the model `m` describes.
pub open spec fn result_matches(r: IdxParseResult, m: IdxModel) -> bool {
    &&& r.metadata.width == m.width
    &&& r.metadata.height == m.height
    &&& r.palette.rgba@ == m.palette
    &&& text_matches(r.metadata.language, m.language)
    &&& text_matches(r.metadata.id, m.id)
    &&& r.timestamps@.len() == m.timestamps.len()
    &&& forall|i: int|
        0 <= i < m.timestamps.len() ==> r.timestamps@[i].timestamp_ms == m.timestamps[i].0
            && r.timestamps@[i].file_position == m.timestamps[i].1
}

fn size_line(d: &[u8], a: usize, b: usize) -> (r: Option<(u16, u16)>)
    requires
        a <= b <= d@.len(),
    ensures
        r == size_value(d@.subrange(a as int, b as int)),
{
    let (ra, rb) = trim_range(d, a, b);
    let ghost t = d@.subrange(ra as int, rb as int);
    match find_in(d, ra, rb, 120) {
        Some(k) => {
            assert(t.subrange(0, k - ra) =~= d@.subrange(ra as int, k as int));
            assert(t.subrange(k - ra + 1, t.len() as int) =~= d@.subrange(k + 1, rb as int));
            let (wa, wb) = trim_range(d, ra, k);
            let (ha, hb) = trim_range(d, k + 1, rb);
            match (parse_unsigned_range(d, wa, wb, 10, 65535), parse_unsigned_range(d, ha, hb, 10, 65535)) {
                (Some(w), Some(h)) => Some((w as u16, h as u16)),
                _ => None,
            }
        },
        None => None,
    }
}

fn palette_line(d: &[u8], a: usize, b: usize, palette: &mut VobSubPalette)
    requires
        a <= b <= d@.len(),
    ensures
        final(palette).rgba@ == palette_after(old(palette).rgba@, split_on(d@.subrange(a as int, b as int), 44)),
{
    let ghost full = split_on(d@.subrange(a as int, b as int), 44);
    let ghost old_pal = palette.rgba@;
    let mut p = a;
    let mut i: usize = 0;
    let mut done = false;
    while !done && i < 16
        invariant
            a <= p <= b <= d@.len(),
            i <= 16,
            old_pal == old(palette).rgba@,
            full == split_on(d@.subrange(a as int, b as int), 44),
            !done ==> full.len() == i + split_on(d@.subrange(p as int, b as int), 44).len(),
            !done ==> forall|j: int|
                i <= j < full.len() ==> full[j] == split_on(d@.subrange(p as int, b as int), 44)[j - i],
            done ==> full.len() == i,
            palette.rgba@.len() == 16,
            forall|j: int|
                0 <= j < 16 ==> palette.rgba@[j] == if j < i {
                    match palette_entry(full[j]) {
                        Some(c) => c,
                        None => old_pal[j],
                    }
                } else {
                    old_pal[j]
                },
        decreases 16 - i + (if done { 0int } else { 1int }),
    {
        let ghost rest = d@.subrange(p as int, b as int);
        let found = find_in(d, p, b, 44);
        let e = match found {
            Some(k) => k,
            None => b,
        };
        proof {
            lemma_find_byte_bound(rest, 44);
            match found {
                Some(k) => {
                    assert(rest.subrange(0, k - p) =~= d@.subrange(p as int, k as int));
                    assert(rest.subrange(k - p + 1, rest.len() as int) =~= d@.subrange(k + 1, b as int));
                },
                None => {
                    assert(rest =~= d@.subrange(p as int, e as int));
                },
            }
            assert(full[i as int] == d@.subrange(p as int, e as int));
        }
        let (pa, pb) = trim_range(d, p, e);
        let h = trim_hashes_range(d, pa, pb);
        if pb - h == 6 {
            match parse_unsigned_range(d, h, pb, 16, 0xFFFFFFFF) {
                Some(rgb) => {
                    let c = crate::utils::rgb_to_rgba(
                        (rgb / 65536 % 256) as u8,
                        (rgb / 256 % 256) as u8,
                        (rgb % 256) as u8,
                        255,
                    );
                    palette.rgba[i] = c;
                },
                None => {},
            }
        }
        match found {
            Some(k) => {
                p = k + 1;
            },
            None => {
                done = true;
            },
        }
        i = i + 1;
    }
    assert(palette.rgba@ =~= palette_after(old_pal, full));
}

/// The first piece of `d[a..b)` split on `sep`, and where the rest starts.
fn first_piece(d: &[u8], a: usize, b: usize, sep: u8) -> (r: (usize, Option<usize>))
    requires
        a <= b <= d@.len(),
    ensures
        a <= r.0 <= b,
        split_on(d@.subrange(a as int, b as int), sep)[0] == d@.subrange(a as int, r.0 as int),
        r.1 matches Some(n) ==> n == r.0 + 1 && n <= b && split_on(d@.subrange(a as int, b as int), sep) == seq![
            d@.subrange(a as int, r.0 as int),
        ] + split_on(d@.subrange(n as int, b as int), sep),
        r.1.is_none() ==> split_on(d@.subrange(a as int, b as int), sep) == seq![d@.subrange(a as int, b as int)]
            && r.0 == b,
{
    let ghost s = d@.subrange(a as int, b as int);
    proof {
        lemma_find_byte_bound(s, sep);
    }
    match find_in(d, a, b, sep) {
        Some(k) => {
            assert(s.subrange(0, k - a) =~= d@.subrange(a as int, k as int));
            assert(s.subrange(k - a + 1, s.len() as int) =~= d@.subrange(k + 1, b as int));
            (k, Some(k + 1))
        },
        None => {
            assert(s =~= d@.subrange(a as int, b as int));
            (b, None)
        },
    }
}

fn id_line(d: &[u8], a: usize, b: usize, result: &mut IdxParseResult, Ghost(m): Ghost<IdxModel>)
    requires
        a <= b <= d@.len(),
        result_matches(*old(result), m),
    ensures
        ({
            let parts = split_on(d@.subrange(a as int, b as int), 44);
            let second = if parts.len() > 1 {
                trim(parts[1])
            } else {
                Seq::empty()
            };
            result_matches(
                *final(result),
                IdxModel {
                    language: Some(trim(parts[0])),
                    id: if parts.len() > 1 && has_prefix(second, key_index()) {
                        Some(trim(second.subrange(6, second.len() as int)))
                    } else {
                        m.id
                    },
                    ..m
                },
            )
        }),
{
    let (e0, next) = first_piece(d, a, b, 44);
    let (la, lb) = trim_range(d, a, e0);
    result.metadata.language = Some(text_from_bytes(d, la, lb));
    match next {
        Some(n) => {
            let (e1, _) = first_piece(d, n, b, 44);
            let (ia, ib) = trim_range(d, n, e1);
            if starts_with_at(d, ia, ib, &[105u8, 110, 100, 101, 120, 58]) {
                assert(d@.subrange(ia as int, ib as int).subrange(6, ib - ia) =~= d@.subrange(ia + 6, ib as int));
                let (xa, xb) = trim_range(d, ia + 6, ib);
                result.metadata.id = Some(text_from_bytes(d, xa, xb));
            }
        },
        None => {},
    }
}

fn time_line(d: &[u8], a: usize, b: usize) -> (r: Option<u32>)
    requires
        a <= b <= d@.len(),
    ensures
        r == time_value(d@.subrange(a as int, b as int)),
{
    let (e0, n0) = first_piece(d, a, b, 58);
    let n0 = match n0 {
        Some(n) => n,
        None => return None,
    };
    let (e1, n1) = first_piece(d, n0, b, 58);
    let n1 = match n1 {
        Some(n) => n,
        None => return None,
    };
    let (e2, n2) = first_piece(d, n1, b, 58);
    let n2 = match n2 {
        Some(n) => n,
        None => return None,
    };
    let (e3, n3) = first_piece(d, n2, b, 58);
    if n3.is_some() {
        return None;
    }
    let ghost parts = split_on(d@.subrange(a as int, b as int), 58);
    assert(parts.len() == 4);
    assert(parts[0] == d@.subrange(a as int, e0 as int));
    assert(parts[1] == d@.subrange(n0 as int, e1 as int));
    assert(parts[2] == d@.subrange(n1 as int, e2 as int));
    assert(parts[3] == d@.subrange(n2 as int, e3 as int));
    match (
        parse_unsigned_range(d, a, e0, 10, 0xFFFFFFFF),
        parse_unsigned_range(d, n0, e1, 10, 0xFFFFFFFF),
        parse_unsigned_range(d, n1, e2, 10, 0xFFFFFFFF),
        parse_unsigned_range(d, n2, e3, 10, 0xFFFFFFFF),
    ) {
        (Some(h), Some(m), Some(s), Some(ms)) => {
            let total: u64 = h * 3600000 + m * 60000 + s * 1000 + ms;
            if total <= 0xFFFFFFFF {
                Some(total as u32)
            } else {
                None
            }
        },
        _ => None,
    }
}

fn timestamp_line(d: &[u8], a: usize, b: usize) -> (r: Option<(u32, u64)>)
    requires
        a <= b <= d@.len(),
    ensures
        r == timestamp_value(d@.subrange(a as int, b as int)),
{
    let ghost rest = d@.subrange(a as int, b as int);
    proof {
        lemma_find_byte_bound(rest, 44);
    }
    match find_in(d, a, b, 44) {
        Some(k) => {
            assert(rest.subrange(0, k - a) =~= d@.subrange(a as int, k as int));
            assert(rest.subrange(k - a + 1, rest.len() as int) =~= d@.subrange(k + 1, b as int));
            let (ta, tb) = trim_range(d, a, k);
            let (fa, fb) = trim_range(d, k + 1, b);
            if !starts_with_at(d, fa, fb, &[102u8, 105, 108, 101, 112, 111, 115, 58]) {
                return None;
            }
            assert(d@.subrange(fa as int, fb as int).subrange(8, fb - fa) =~= d@.subrange(fa + 8, fb as int));
            let (pa, pb) = trim_range(d, fa + 8, fb);
            match (time_line(d, ta, tb), parse_unsigned_range(d, pa, pb, 16, 0xFFFF_FFFF_FFFF_FFFF)) {
                (Some(ms), Some(pos)) => Some((ms, pos)),
                _ => None,
            }
        },
        None => None,
    }
}

fn apply_line_exec(d: &[u8], a: usize, b: usize, result: &mut IdxParseResult, Ghost(m): Ghost<IdxModel>)
    requires
        a <= b <= d@.len(),
        result_matches(*old(result), m),
    ensures
        result_matches(*final(result), apply_line(m, d@.subrange(a as int, b as int))),
{
    let ghost t = d@.subrange(a as int, b as int);
    if a == b || d[a] == 35 {
        return;
    }
    if starts_with_at(d, a, b, &[115u8, 105, 122, 101, 58]) {
        assert(t.subrange(5, t.len() as int) =~= d@.subrange(a + 5, b as int));
        match size_line(d, a + 5, b) {
            Some((w, h)) => {
                result.metadata.width = w;
                result.metadata.height = h;
            },
            None => {},
        }
    } else if starts_with_at(d, a, b, &[112u8, 97, 108, 101, 116, 116, 101, 58]) {
        assert(t.subrange(8, t.len() as int) =~= d@.subrange(a + 8, b as int));
        palette_line(d, a + 8, b, &mut result.palette);
    } else if starts_with_at(d, a, b, &[105u8, 100, 58]) {
        assert(t.subrange(3, t.len() as int) =~= d@.subrange(a + 3, b as int));
        id_line(d, a + 3, b, result, Ghost(m));
    } else if starts_with_at(d, a, b, &[116u8, 105, 109, 101, 115, 116, 97, 109, 112, 58]) {
        assert(t.subrange(10, t.len() as int) =~= d@.subrange(a + 10, b as int));
        match timestamp_line(d, a + 10, b) {
            Some((ms, pos)) => {
                result.timestamps.push(VobSubTimestamp { timestamp_ms: ms, file_position: pos });
                assert(result_matches(*result, IdxModel { timestamps: m.timestamps.push((ms, pos)), ..m }));
            },
            None => {},
        }
    }
}

/// Reads a VobSub index. Lines that do not parse are skipped; the defaults
/// (720 x 480, the grey-scale palette) stand where no line sets a value.
/// Timestamps are kept in the order of the text.
pub fn parse_idx(idx_content: &str) -> (r: IdxParseResult)
    ensures
        result_matches(r, idx_model(idx_content.spec_bytes())),
{
    let d = idx_content.as_bytes();
    let len = d.len();
    let mut result = IdxParseResult {
        palette: VobSubPalette::default_palette(),
        timestamps: Vec::new(),
        metadata: VobSubMetadata::default_metadata(),
    };
    let ghost mut m = initial_model();
    let ghost target = idx_model(d@);
    let mut pos: usize = 0;
    while pos < len
        invariant
            len == d@.len(),
            pos <= len,
            target == idx_model(d@),
            result_matches(result, m),
            lines_from(d@, pos as int, m) == target,
        decreases len - pos,
    {
        let ghost rest = d@.subrange(pos as int, len as int);
        let e = match find_in(d, pos, len, 10) {
            Some(k) => k,
            None => len,
        };
        proof {
            lemma_find_byte_bound(rest, 10);
        }
        let (ta, tb) = trim_range(d, pos, e);
        apply_line_exec(d, ta, tb, &mut result, Ghost(m));
        proof {
            m = apply_line(m, d@.subrange(ta as int, tb as int));
        }
        if e >= len {
            pos = len;
        } else {
            pos = e + 1;
        }
    }
    result
}

} // verus!
