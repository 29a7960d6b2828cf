//! The bespoke "lossless" bitmap format: zlib-compressed raw pixel data in
//! several (version, layout) variants, decoded to RGBA.

use vstd::prelude::*;

use crate::bitmap::{Bitmap, BitmapFormat, Color};
use crate::error::DecodeError;
use crate::zlib::{decompress_zlib, inflated};

verus! {

/// The per-pixel byte layout of a lossless bitmap payload.
#[derive(Debug, Copy, Clone, PartialEq, Eq, Structural)]
pub enum LosslessFormat {
    /// Big-endian 16-bit words holding 5-bit R/G/B fields; rows padded to an
    /// even pixel count.
    Rgb15,
    /// Four bytes per pixel: `[pad, R, G, B]` in version 1, `[A, R, G, B]` in
    /// version 2.
    Rgb32,
    /// One palette index byte per pixel; rows padded to a multiple of four.
    /// The stored count is one less than the true entry count.
    ColorMap8 { num_colors: u8 },
}

/// The descriptor of a lossless bitmap tag: its version, pixel layout,
/// declared dimensions and zlib-compressed payload.
pub struct LosslessDescriptor {
    pub version: u8,
    pub format: LosslessFormat,
    pub width: u16,
    pub height: u16,
    pub data: Vec<u8>,
}

/// The five implemented (version, layout) combinations.
pub open spec fn supported_lossless(version: u8, format: LosslessFormat) -> bool {
    ||| (version == 1 && format matches LosslessFormat::Rgb15)
    ||| ((version == 1 || version == 2) && format matches LosslessFormat::Rgb32)
    ||| ((version == 1 || version == 2) && format matches LosslessFormat::ColorMap8 { .. })
}

/// A 5-bit channel expanded to 8 bits.
pub open spec fn expand5(c: int) -> int {
    (c * 255 + 15) / 31
}

/// A pixel width padded to an even pixel count.
pub open spec fn padded2(w: int) -> int {
    w + w % 2
}

/// A pixel width padded to a multiple of four.
pub open spec fn padded4(w: int) -> int {
    w + (4 - w % 4) % 4
}

/// The big-endian 16-bit word at byte offset `off`.
pub open spec fn word_be(b: Seq<u8>, off: int) -> int {
    (b[off] as int) * 256 + (b[off + 1] as int)
}

/// The RGBA color of the 15-bit pixel at byte offset `off`: 5-bit fields at
/// bit offsets 10/5/0, each expanded to 8 bits, alpha fixed opaque.
pub open spec fn rgb15_color(b: Seq<u8>, off: int) -> Color {
    Color {
        r: expand5(word_be(b, off) / 1024 % 32) as u8,
        g: expand5(word_be(b, off) / 32 % 32) as u8,
        b: expand5(word_be(b, off) % 32) as u8,
        a: 255,
    }
}

/// The first `x` pixels of the 15-bit row starting at byte offset `row_off`.
pub open spec fn rgb15_row(b: Seq<u8>, row_off: int, x: int) -> Seq<u8>
    decreases x,
{
    if x <= 0 {
        Seq::empty()
    } else {
        let c = rgb15_color(b, row_off + 2 * (x - 1));
        rgb15_row(b, row_off, x - 1).push(c.r).push(c.g).push(c.b).push(c.a)
    }
}

/// The first `y` rows of a 15-bit image of width `w`, rows padded to an even
/// pixel count.
pub open spec fn rgb15_rows(b: Seq<u8>, w: int, y: int) -> Seq<u8>
    decreases y,
{
    if y <= 0 {
        Seq::empty()
    } else {
        rgb15_rows(b, w, y - 1) + rgb15_row(b, 2 * padded2(w) * (y - 1), w)
    }
}

/// How many decompressed bytes a 15-bit image reads: trailing padding of the
/// last row is never touched.
pub open spec fn rgb15_needed(w: int, h: int) -> int {
    if w <= 0 || h <= 0 {
        0
    } else {
        2 * padded2(w) * (h - 1) + 2 * w
    }
}

/// The RGBA color of 32-bit pixel `p`: the stored leading byte is the real
/// alpha in version 2 and padding (alpha forced opaque) in version 1.
pub open spec fn rgb32_color(b: Seq<u8>, v2: bool, p: int) -> Color {
    Color {
        r: b[4 * p + 1],
        g: b[4 * p + 2],
        b: b[4 * p + 3],
        a: if v2 {
            b[4 * p]
        } else {
            255u8
        },
    }
}

/// The first `p` pixels of a 32-bit image.
pub open spec fn rgb32_pixels(b: Seq<u8>, v2: bool, p: int) -> Seq<u8>
    decreases p,
{
    if p <= 0 {
        Seq::empty()
    } else {
        let c = rgb32_color(b, v2, p - 1);
        rgb32_pixels(b, v2, p - 1).push(c.r).push(c.g).push(c.b).push(c.a)
    }
}

/// Palette entry `e`: 3 stored bytes with alpha forced opaque in version 1,
/// 4 stored bytes in version 2.
pub open spec fn cm_entry(b: Seq<u8>, v2: bool, e: int) -> Color {
    if v2 {
        Color { r: b[4 * e], g: b[4 * e + 1], b: b[4 * e + 2], a: b[4 * e + 3] }
    } else {
        Color { r: b[3 * e], g: b[3 * e + 1], b: b[3 * e + 2], a: 255 }
    }
}

/// The color of the indexed pixel whose index byte sits at `idx_off`.
/// Out-of-range indices map to opaque black in version 1 and transparent
/// black in version 2.
pub open spec fn cm_color(b: Seq<u8>, v2: bool, n_entries: int, idx_off: int) -> Color {
    if (b[idx_off] as int) < n_entries {
        cm_entry(b, v2, b[idx_off] as int)
    } else {
        Color { r: 0, g: 0, b: 0, a: if v2 { 0u8 } else { 255u8 } }
    }
}

/// The first `x` indexed pixels of the row whose index bytes start at
/// `row_off`.
pub open spec fn cm_row(b: Seq<u8>, v2: bool, n_entries: int, row_off: int, x: int) -> Seq<u8>
    decreases x,
{
    if x <= 0 {
        Seq::empty()
    } else {
        let c = cm_color(b, v2, n_entries, row_off + (x - 1));
        cm_row(b, v2, n_entries, row_off, x - 1).push(c.r).push(c.g).push(c.b).push(c.a)
    }
}

/// The byte length of the palette.
pub open spec fn cm_palette_bytes(v2: bool, n_entries: int) -> int {
    if v2 {
        4 * n_entries
    } else {
        3 * n_entries
    }
}

/// The first `y` rows of an indexed image: index bytes follow the palette
/// immediately, rows padded to a multiple of four index bytes.
pub open spec fn cm_rows(b: Seq<u8>, v2: bool, n_entries: int, w: int, y: int) -> Seq<u8>
    decreases y,
{
    if y <= 0 {
        Seq::empty()
    } else {
        cm_rows(b, v2, n_entries, w, y - 1) + cm_row(
            b,
            v2,
            n_entries,
            cm_palette_bytes(v2, n_entries) + padded4(w) * (y - 1),
            w,
        )
    }
}

/// How many decompressed bytes an indexed image reads: the whole palette,
/// then the index bytes up to the last pixel of the last row.
pub open spec fn cm_needed(v2: bool, n_entries: int, w: int, h: int) -> int {
    cm_palette_bytes(v2, n_entries) + if w <= 0 || h <= 0 {
        0
    } else {
        padded4(w) * (h - 1) + w
    }
}

/// What a supported lossless payload decodes to once decompressed: `None`
/// when the decompressed bytes are too few for the declared dimensions (or,
/// for the 32-bit layout, not exactly one 4-byte word per pixel).
pub open spec fn lossless_pixels(
    version: u8,
    format: LosslessFormat,
    w: int,
    h: int,
    b: Seq<u8>,
) -> Option<Seq<u8>> {
    match format {
        LosslessFormat::Rgb15 => if b.len() >= rgb15_needed(w, h) {
            Some(rgb15_rows(b, w, h))
        } else {
            None
        },
        LosslessFormat::Rgb32 => if b.len() == 4 * w * h {
            Some(rgb32_pixels(b, version == 2, w * h))
        } else {
            None
        },
        LosslessFormat::ColorMap8 { num_colors } => if b.len() >= cm_needed(
            version == 2,
            num_colors as int + 1,
            w,
            h,
        ) {
            Some(cm_rows(b, version == 2, num_colors as int + 1, w, h))
        } else {
            None
        },
    }
}

pub proof fn lemma_rgb15_row_len(b: Seq<u8>, row_off: int, x: int)
    requires
        x >= 0,
    ensures
        rgb15_row(b, row_off, x).len() == 4 * x,
    decreases x,
{
    if x > 0 {
        lemma_rgb15_row_len(b, row_off, x - 1);
    }
}

pub proof fn lemma_rgb15_rows_len(b: Seq<u8>, w: int, y: int)
    requires
        w >= 0,
        y >= 0,
    ensures
        rgb15_rows(b, w, y).len() == 4 * w * y,
    decreases y,
{
    if y > 0 {
        lemma_rgb15_rows_len(b, w, y - 1);
        lemma_rgb15_row_len(b, 2 * padded2(w) * (y - 1), w);
        assert(rgb15_rows(b, w, y) == rgb15_rows(b, w, y - 1) + rgb15_row(
            b,
            2 * padded2(w) * (y - 1),
            w,
        ));
        assert(rgb15_rows(b, w, y).len() == 4 * w * (y - 1) + 4 * w);
        assert(4 * w * y == 4 * w * (y - 1) + 4 * w) by (nonlinear_arith);
    } else {
        assert(4 * w * y == 0) by (nonlinear_arith)
            requires
                y == 0,
        ;
    }
}

pub proof fn lemma_cm_row_len(b: Seq<u8>, v2: bool, n_entries: int, row_off: int, x: int)
    requires
        x >= 0,
    ensures
        cm_row(b, v2, n_entries, row_off, x).len() == 4 * x,
    decreases x,
{
    if x > 0 {
        lemma_cm_row_len(b, v2, n_entries, row_off, x - 1);
    }
}

pub proof fn lemma_cm_rows_len(b: Seq<u8>, v2: bool, n_entries: int, w: int, y: int)
    requires
        w >= 0,
        y >= 0,
    ensures
        cm_rows(b, v2, n_entries, w, y).len() == 4 * w * y,
    decreases y,
{
    if y > 0 {
        lemma_cm_rows_len(b, v2, n_entries, w, y - 1);
        lemma_cm_row_len(
            b,
            v2,
            n_entries,
            cm_palette_bytes(v2, n_entries) + padded4(w) * (y - 1),
            w,
        );
        assert(cm_rows(b, v2, n_entries, w, y) == cm_rows(b, v2, n_entries, w, y - 1) + cm_row(
            b,
            v2,
            n_entries,
            cm_palette_bytes(v2, n_entries) + padded4(w) * (y - 1),
            w,
        ));
        assert(cm_rows(b, v2, n_entries, w, y).len() == 4 * w * (y - 1) + 4 * w);
        assert(4 * w * y == 4 * w * (y - 1) + 4 * w) by (nonlinear_arith);
    } else {
        assert(4 * w * y == 0) by (nonlinear_arith)
            requires
                y == 0,
        ;
    }
}

/// Decodes the pixel data of a lossless bitmap tag into RGBA. Unsupported
/// (version, layout) pairs are a typed error; decompressed data too short for
/// the declared dimensions is reported as invalid compressed data rather
/// than read out of bounds.
pub fn decode_define_bits_lossless(tag: &LosslessDescriptor) -> (r: Result<Bitmap, DecodeError>)
    ensures
        !supported_lossless(tag.version, tag.format) ==> (r matches Err(
            DecodeError::UnsupportedLosslessFormat(v, f),
        ) && v == tag.version && f == tag.format),
        supported_lossless(tag.version, tag.format) && inflated(tag.data@) is None
            ==> r matches Err(DecodeError::InvalidZlibCompression),
        supported_lossless(tag.version, tag.format) ==> (inflated(tag.data@) matches Some(b)
            ==> match lossless_pixels(
            tag.version,
            tag.format,
            tag.width as int,
            tag.height as int,
            b,
        ) {
            Some(px) => {
                &&& r matches Ok(bm)
                &&& bm.width == tag.width
                &&& bm.height == tag.height
                &&& bm.format matches BitmapFormat::Rgba
                &&& bm.pixels@ == px
            },
            None => r matches Err(DecodeError::InvalidZlibCompression),
        }),
        r matches Ok(bm) ==> bm.wf(),
{
    let ok = match tag.format {
        LosslessFormat::Rgb15 => tag.version == 1,
        LosslessFormat::Rgb32 => tag.version == 1 || tag.version == 2,
        LosslessFormat::ColorMap8 { .. } => tag.version == 1 || tag.version == 2,
    };
    if !ok {
        return Err(DecodeError::UnsupportedLosslessFormat(tag.version, tag.format));
    }
    let decoded = match decompress_zlib(tag.data.as_slice()) {
        Ok(d) => d,
        Err(e) => {
            return Err(e);
        },
    };
    let px = match tag.format {
        LosslessFormat::Rgb15 => decode_rgb15(&decoded, tag.width, tag.height),
        LosslessFormat::Rgb32 => decode_rgb32(&decoded, tag.version == 2, tag.width, tag.height),
        LosslessFormat::ColorMap8 { num_colors } => decode_colormap8(
            &decoded,
            tag.version == 2,
            num_colors,
            tag.width,
            tag.height,
        ),
    };
    proof {
        assert(4 * (tag.width as int) * (tag.height as int) == (tag.width as int) * (
        tag.height as int) * 4) by (nonlinear_arith);
    }
    match px {
        Some(p) => Ok(Bitmap::new(tag.width as u32, tag.height as u32, BitmapFormat::Rgba, p)),
        None => Err(DecodeError::InvalidZlibCompression),
    }
}

/// Decodes 15-bit pixels, or `None` when `b` is shorter than the declared
/// dimensions require.
fn decode_rgb15(b: &Vec<u8>, width: u16, height: u16) -> (r: Option<Vec<u8>>)
    ensures
        r matches Some(px) ==> (b@.len() >= rgb15_needed(width as int, height as int) && px@
            == rgb15_rows(b@, width as int, height as int) && px@.len() == 4 * (width as int) * (
        height as int)),
        r is None ==> b@.len() < rgb15_needed(width as int, height as int),
{
    let w = width as usize;
    let h = height as usize;
    let stride: usize = 2 * (w + (w % 2));
    proof {
        assert(stride as int == 2 * padded2(width as int));
    }
    let needed: u64;
    if w == 0 || h == 0 {
        needed = 0;
    } else {
        proof {
            assert((stride as int) * (h as int - 1) <= 0x20002 * 0x10000) by (nonlinear_arith)
                requires
                    0 <= stride as int <= 0x20002,
                    0 <= h as int - 1 <= 0x10000,
            ;
        }
        needed = (stride as u64) * (h as u64 - 1) + 2 * (w as u64);
    }
    if (b.len() as u64) < needed {
        return None;
    }
    let mut out: Vec<u8> = Vec::new();
    let mut y: usize = 0;
    while y < h
        invariant
            y <= h,
            out@ == rgb15_rows(b@, width as int, y as int),
        decreases h - y,
    {
        proof {
            vstd::arithmetic::mul::lemma_mul_inequality(y as int, h as int - 1, stride as int);
            vstd::arithmetic::mul::lemma_mul_is_commutative(y as int, stride as int);
            vstd::arithmetic::mul::lemma_mul_is_commutative(h as int - 1, stride as int);
            vstd::arithmetic::mul::lemma_mul_basics(y as int);
        }
        let row_off: usize = stride * y;
        let mut x: usize = 0;
        proof {
            assert(out@ =~= out@ + rgb15_row(b@, row_off as int, 0));
        }
        while x < w
            invariant
                x <= w,
                y < h,
                row_off == (stride as int) * (y as int),
                row_off + 2 * (w as int) <= b@.len(),
                out@ == rgb15_rows(b@, width as int, y as int) + rgb15_row(
                    b@,
                    row_off as int,
                    x as int,
                ),
            decreases w - x,
        {
            let i = row_off + 2 * x;
            let word: u16 = (b[i] as u16) * 256 + (b[i + 1] as u16);
            out.push(expand5_exec(word / 1024 % 32));
            out.push(expand5_exec(word / 32 % 32));
            out.push(expand5_exec(word % 32));
            out.push(255);
            proof {
                lemma_rgb15_rows_len(b@, width as int, y as int);
                lemma_rgb15_row_len(b@, row_off as int, x as int);
                assert(word as int == word_be(b@, i as int));
                assert(out@ =~= rgb15_rows(b@, width as int, y as int) + rgb15_row(
                    b@,
                    row_off as int,
                    x as int + 1,
                ));
            }
            x += 1;
        }
        y += 1;
    }
    proof {
        lemma_rgb15_rows_len(b@, width as int, h as int);
    }
    Some(out)
}

fn expand5_exec(c: u16) -> (r: u8)
    requires
        c < 32,
    ensures
        r == expand5(c as int) as u8,
{
    ((c * 255 + 15) / 31) as u8
}

/// Decodes 32-bit pixels, or `None` when `b` is not exactly one 4-byte word
/// per declared pixel.
fn decode_rgb32(b: &Vec<u8>, v2: bool, width: u16, height: u16) -> (r: Option<Vec<u8>>)
    ensures
        r matches Some(px) ==> (b@.len() == 4 * (width as int) * (height as int) && px@
            == rgb32_pixels(b@, v2, (width as int) * (height as int)) && px@.len() == b@.len()),
        r is None ==> b@.len() != 4 * (width as int) * (height as int),
{
    let w4: u64 = 4 * (width as u64);
    proof {
        assert((w4 as int) * (height as int) <= 0x40000 * 0x10000) by (nonlinear_arith)
            requires
                0 <= w4 as int <= 0x40000,
                0 <= height as int <= 0x10000,
        ;
        assert(4 * ((width as int) * (height as int)) == (4 * (width as int)) * (height as int))
            by (nonlinear_arith);
    }
    let total: u64 = w4 * (height as u64);
    if (b.len() as u64) != total {
        return None;
    }
    let mut out: Vec<u8> = Vec::new();
    let mut i: usize = 0;
    while i < b.len()
        invariant
            i <= b@.len(),
            i % 4 == 0,
            b@.len() % 4 == 0,
            out@ == rgb32_pixels(b@, v2, i as int / 4),
            out@.len() == i,
        decreases b@.len() - i,
    {
        proof {
            assert(i + 4 <= b@.len());
        }
        out.push(b[i + 1]);
        out.push(b[i + 2]);
        out.push(b[i + 3]);
        if v2 {
            out.push(b[i]);
        } else {
            out.push(255);
        }
        i += 4;
    }
    Some(out)
}

/// Decodes 8-bit indexed pixels through their palette, or `None` when `b` is
/// shorter than the palette and the declared dimensions require.
fn decode_colormap8(b: &Vec<u8>, v2: bool, num_colors: u8, width: u16, height: u16) -> (r: Option<
    Vec<u8>,
>)
    ensures
        r matches Some(px) ==> (b@.len() >= cm_needed(
            v2,
            num_colors as int + 1,
            width as int,
            height as int,
        ) && px@ == cm_rows(b@, v2, num_colors as int + 1, width as int, height as int)
            && px@.len() == 4 * (width as int) * (height as int)),
        r is None ==> b@.len() < cm_needed(v2, num_colors as int + 1, width as int, height as int),
{
    let w = width as usize;
    let h = height as usize;
    let n_entries: usize = num_colors as usize + 1;
    let pal_bytes: usize = if v2 {
        4 * n_entries
    } else {
        3 * n_entries
    };
    let pw: usize = w + (4 - w % 4) % 4;
    proof {
        assert(pw as int == padded4(width as int));
    }
    let needed: u64;
    if w == 0 || h == 0 {
        needed = pal_bytes as u64;
    } else {
        proof {
            assert((pw as int) * (h as int - 1) <= 0x10004 * 0x10000) by (nonlinear_arith)
                requires
                    0 <= pw as int <= 0x10004,
                    0 <= h as int - 1 <= 0x10000,
            ;
        }
        needed = pal_bytes as u64 + ((pw as u64) * (h as u64 - 1) + w as u64);
    }
    if (b.len() as u64) < needed {
        return None;
    }
    let mut palette: Vec<Color> = Vec::new();
    let mut e: usize = 0;
    while e < n_entries
        invariant
            e <= n_entries,
            palette@.len() == e,
            forall|j: int| 0 <= j < e ==> palette@[j] == cm_entry(b@, v2, j),
        decreases n_entries - e,
    {
        if v2 {
            palette.push(Color { r: b[4 * e], g: b[4 * e + 1], b: b[4 * e + 2], a: b[4 * e + 3] });
        } else {
            palette.push(Color { r: b[3 * e], g: b[3 * e + 1], b: b[3 * e + 2], a: 255 });
        }
        e += 1;
    }
    let mut out: Vec<u8> = Vec::new();
    let mut y: usize = 0;
    while y < h
        invariant
            y <= h,
            palette@.len() == n_entries,
            forall|j: int| 0 <= j < n_entries ==> palette@[j] == cm_entry(b@, v2, j),
            out@ == cm_rows(b@, v2, n_entries as int, width as int, y as int),
        decreases h - y,
    {
        proof {
            vstd::arithmetic::mul::lemma_mul_inequality(y as int, h as int - 1, pw as int);
            vstd::arithmetic::mul::lemma_mul_is_commutative(y as int, pw as int);
            vstd::arithmetic::mul::lemma_mul_is_commutative(h as int - 1, pw as int);
            vstd::arithmetic::mul::lemma_mul_basics(y as int);
        }
        let row_off: usize = pal_bytes + pw * y;
        let mut x: usize = 0;
        proof {
            assert(out@ =~= out@ + cm_row(b@, v2, n_entries as int, row_off as int, 0));
        }
        while x < w
            invariant
                x <= w,
                y < h,
                row_off == pal_bytes + (pw as int) * (y as int),
                row_off + (w as int) <= b@.len(),
                palette@.len() == n_entries,
                forall|j: int| 0 <= j < n_entries ==> palette@[j] == cm_entry(b@, v2, j),
                out@ == cm_rows(b@, v2, n_entries as int, width as int, y as int) + cm_row(
                    b@,
                    v2,
                    n_entries as int,
                    row_off as int,
                    x as int,
                ),
            decreases w - x,
        {
            let entry = b[row_off + x] as usize;
            if entry < palette.len() {
                let color = palette[entry];
                out.push(color.r);
                out.push(color.g);
                out.push(color.b);
                out.push(color.a);
            } else {
                out.push(0);
                out.push(0);
                out.push(0);
                if v2 {
                    out.push(0);
                } else {
                    out.push(255);
                }
            }
            proof {
                lemma_cm_rows_len(b@, v2, n_entries as int, width as int, y as int);
                lemma_cm_row_len(b@, v2, n_entries as int, row_off as int, x as int);
                assert(out@ =~= cm_rows(b@, v2, n_entries as int, width as int, y as int) + cm_row(
                    b@,
                    v2,
                    n_entries as int,
                    row_off as int,
                    x as int + 1,
                ));
            }
            x += 1;
        }
        y += 1;
    }
    proof {
        lemma_cm_rows_len(b@, v2, n_entries as int, width as int, h as int);
    }
    Some(out)
}

} // verus!
