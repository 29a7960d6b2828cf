//! The JPEG pipeline: gluing shared encoding tables to a body, stripping a
//! known corrupt legacy marker sequence, normalizing the external decoder's
//! pixel layout to RGB, and merging a separately compressed alpha plane.

use vstd::prelude::*;

use crate::alpha::{premultiplied_full, premultiplied_valid};
use crate::bitmap::{Bitmap, BitmapFormat};
use crate::error::DecodeError;
use crate::png_gif::{
    decode_gif, decode_png, gif_decoded, gray_alpha_pixels, png_decoded, PngColor,
};
use crate::sniff::{determine_jpeg_tag_format, sniffed_format, JpegTagFormat};
use crate::zlib::{decompress_zlib, inflated};

verus! {

/// What the glued stream holds: the tables buffer without its trailing
/// end-of-image marker, then the body without its leading start-of-image
/// marker. Without a usable tables buffer the body passes through unchanged.
pub open spec fn glued(body: Seq<u8>, tables: Option<Seq<u8>>) -> Seq<u8> {
    match tables {
        Some(t) => if t.len() >= 2 {
            t.take(t.len() as int - 2) + if body.len() >= 2 {
                body.skip(2)
            } else {
                Seq::empty()
            }
        } else {
            body
        },
        None => body,
    }
}

/// Glues the JPEG encoding tables from a shared tables tag to the JPEG data
/// of an image tag, producing complete JPEG data suitable for a decoder.
pub fn glue_tables_to_jpeg(jpeg_data: &[u8], jpeg_tables: Option<&[u8]>) -> (r: Vec<u8>)
    ensures
        jpeg_tables is None ==> r@ == jpeg_data@,
        jpeg_tables matches Some(t) ==> r@ == glued(jpeg_data@, Some(t@)),
        jpeg_tables matches Some(t) ==> (t@.len() >= 2 ==> r@.len() == t@.len() - 2 + if jpeg_data@.len() >= 2 {
            jpeg_data@.len() - 2
        } else {
            0
        }),
{
    match jpeg_tables {
        Some(t) => {
            if t.len() >= 2 {
                let mut out = copy_range(t, 0, t.len() - 2);
                if jpeg_data.len() >= 2 {
                    append_range(&mut out, jpeg_data, 2, jpeg_data.len());
                } else {
                    proof {
                        assert(out@ =~= t@.take(t@.len() as int - 2) + Seq::<u8>::empty());
                    }
                }
                out
            } else {
                copy_range(jpeg_data, 0, jpeg_data.len())
            }
        },
        None => copy_range(jpeg_data, 0, jpeg_data.len()),
    }
}

/// True when the corrupt legacy marker sequence `FF D9 FF D8` sits at `i`.
pub open spec fn marker_at(s: Seq<u8>, i: int) -> bool {
    &&& 0 <= i
    &&& i + 4 <= s.len()
    &&& s[i] == 0xffu8
    &&& s[i + 1] == 0xd9u8
    &&& s[i + 2] == 0xffu8
    &&& s[i + 3] == 0xd8u8
}

/// The first position at or after `i` where the marker sequence occurs.
pub open spec fn find_marker(s: Seq<u8>, i: int) -> Option<int>
    decreases s.len() - i,
{
    if i + 4 > s.len() {
        None
    } else if marker_at(s, i) {
        Some(i)
    } else {
        find_marker(s, i + 1)
    }
}

/// The result of stripping invalid legacy marker data: a leading marker
/// sequence is dropped, then at most one further occurrence is excised.
pub open spec fn without_invalid(s: Seq<u8>) -> Seq<u8> {
    let t = if marker_at(s, 0) {
        s.skip(4)
    } else {
        s
    };
    match find_marker(t, 0) {
        Some(p) => t.take(p) + t.skip(p + 4),
        None => t,
    }
}

/// Removes potentially invalid data from legacy JPEG tags: before version 8
/// of the container format, files could hold an erroneous header of
/// `FF D9 FF D8` before the JPEG start-of-image marker, and these bytes must
/// be removed for the JPEG to decode properly.
pub fn remove_invalid_jpeg_data(data: &[u8]) -> (r: Vec<u8>)
    ensures
        r@ == without_invalid(data@),
{
    let n = data.len();
    let start: usize = if n >= 4 && data[0] == 0xff && data[1] == 0xd9 && data[2] == 0xff
        && data[3] == 0xd8 {
        4
    } else {
        0
    };
    let ghost t = data@.skip(start as int);
    proof {
        if !marker_at(data@, 0) {
            assert(t =~= data@);
        }
    }
    let mut j: usize = start;
    while n >= 4 && j <= n - 4 && !(data[j] == 0xff && data[j + 1] == 0xd9 && data[j + 2] == 0xff
        && data[j + 3] == 0xd8)
        invariant
            start <= j <= n,
            find_marker(t, 0) == find_marker(t, j as int - start as int),
        decreases n - j,
    {
        proof {
            assert(!marker_at(t, j as int - start as int));
        }
        j += 1;
    }
    let found = n >= 4 && j <= n - 4;
    if found {
        proof {
            assert(marker_at(t, j as int - start as int));
            assert(find_marker(t, j as int - start as int) == Some(j as int - start as int));
        }
        let mut out = copy_range(data, start, j);
        append_range(&mut out, data, j + 4, n);
        proof {
            let p = j as int - start as int;
            assert(out@ =~= t.take(p) + t.skip(p + 4));
        }
        out
    } else {
        let out = copy_range(data, start, n);
        proof {
            assert(find_marker(t, j as int - start as int) is None);
            assert(out@ =~= t);
        }
        out
    }
}

/// A buffer holding the marker sequence nowhere passes through the stripper
/// unchanged.
pub proof fn lemma_remove_invalid_without_marker_is_identity(s: Seq<u8>)
    requires
        forall|i: int| 0 <= i ==> !(#[trigger] marker_at(s, i)),
    ensures
        without_invalid(s) == s,
{
    assert(!marker_at(s, 0));
    lemma_find_marker_none(s, 0);
}

proof fn lemma_find_marker_none(s: Seq<u8>, i: int)
    requires
        0 <= i,
        forall|j: int| 0 <= j ==> !(#[trigger] marker_at(s, j)),
    ensures
        find_marker(s, i) is None,
    decreases s.len() - i,
{
    if i + 4 <= s.len() {
        assert(!marker_at(s, i));
        lemma_find_marker_none(s, i + 1);
    }
}

/// The pixel layout the external JPEG decoder reports for its output.
#[derive(Debug, Copy, Clone, PartialEq, Eq, Structural)]
pub enum JpegPixelFormat {
    Rgb24,
    Cmyk32,
    L8,
    L16,
}

/// One CMYK channel mapped to its additive counterpart: the standard naive
/// conversion `(255 - v) * (256 - K) / 255` with truncating division, taken
/// modulo 256 as the byte it is stored in.
pub open spec fn cmyk_component(v: u8, k: int) -> u8 {
    (((255 - (v as int)) * k / 255) % 256) as u8
}

/// The first `n` CMYK quads of `s` converted to RGB triples.
pub open spec fn cmyk_pixels(s: Seq<u8>, n: int) -> Seq<u8>
    decreases n,
{
    if n <= 0 {
        Seq::empty()
    } else {
        let k = 256 - (s[4 * (n - 1) + 3] as int);
        cmyk_pixels(s, n - 1).push(cmyk_component(s[4 * (n - 1)], k)).push(
            cmyk_component(s[4 * (n - 1) + 1], k),
        ).push(cmyk_component(s[4 * (n - 1) + 2], k))
    }
}

/// The first `n` gray samples of `s`, each expanded to three identical RGB
/// bytes.
pub open spec fn gray_pixels(s: Seq<u8>, n: int) -> Seq<u8>
    decreases n,
{
    if n <= 0 {
        Seq::empty()
    } else {
        gray_pixels(s, n - 1).push(s[n - 1]).push(s[n - 1]).push(s[n - 1])
    }
}

/// What the color normalizer produces for each reported layout: RGB passes
/// through, CMYK quads become RGB triples (a trailing fragment of fewer than
/// four bytes is dropped), 8-bit gray expands to three bytes per sample, and
/// unsupported 16-bit gray passes through raw as a known gap.
pub open spec fn normalized_jpeg(format: JpegPixelFormat, s: Seq<u8>) -> Seq<u8> {
    match format {
        JpegPixelFormat::Rgb24 => s,
        JpegPixelFormat::Cmyk32 => cmyk_pixels(s, s.len() as int / 4),
        JpegPixelFormat::L8 => gray_pixels(s, s.len() as int),
        JpegPixelFormat::L16 => s,
    }
}

/// Maps the external JPEG decoder's reported pixel layout into 3-byte-per-
/// pixel RGB (16-bit gray excepted, which passes through raw).
pub fn normalize_jpeg_color(format: JpegPixelFormat, data: Vec<u8>) -> (r: Vec<u8>)
    ensures
        r@ == normalized_jpeg(format, data@),
{
    match format {
        JpegPixelFormat::Rgb24 => data,
        JpegPixelFormat::Cmyk32 => {
            let n = data.len() / 4;
            let mut out: Vec<u8> = Vec::new();
            let mut p: usize = 0;
            while p < n
                invariant
                    p <= n,
                    out@ == cmyk_pixels(data@, p as int),
                decreases n - p,
            {
                let i = 4 * p;
                let kb = data[i + 3];
                out.push(cmyk_component_exec(data[i], kb));
                out.push(cmyk_component_exec(data[i + 1], kb));
                out.push(cmyk_component_exec(data[i + 2], kb));
                p += 1;
            }
            out
        },
        JpegPixelFormat::L8 => expand_gray3(&data),
        JpegPixelFormat::L16 => data,
    }
}

fn cmyk_component_exec(v: u8, kb: u8) -> (r: u8)
    ensures
        r == cmyk_component(v, 256 - (kb as int)),
{
    let c: u16 = 255 - (v as u16);
    let k: u16 = 256 - (kb as u16);
    proof {
        vstd::arithmetic::mul::lemma_mul_upper_bound(c as int, 255, k as int, 256);
        assert((c as int) * (k as int) == (255 - (v as int)) * (256 - (kb as int)))
            by (nonlinear_arith)
            requires
                c as int == 255 - (v as int),
                k as int == 256 - (kb as int),
        ;
    }
    let x: u16 = (c * k) / 255;
    (x % 256) as u8
}

/// Expands each gray sample to three identical RGB bytes.
pub(crate) fn expand_gray3(data: &Vec<u8>) -> (r: Vec<u8>)
    ensures
        r@ == gray_pixels(data@, data@.len() as int),
        r@.len() == 3 * data@.len(),
{
    let mut out: Vec<u8> = Vec::new();
    let mut p: usize = 0;
    while p < data.len()
        invariant
            p <= data@.len(),
            out@ == gray_pixels(data@, p as int),
            out@.len() == 3 * p,
        decreases data@.len() - p,
    {
        let v = data[p];
        out.push(v);
        out.push(v);
        out.push(v);
        p += 1;
    }
    out
}

/// The smaller of a color channel and the pixel's alpha: the clamp the
/// reference player applies to compensate for encoders that fail to
/// premultiply correctly.
pub open spec fn min_clamp(c: u8, a: u8) -> u8 {
    if c < a {
        c
    } else {
        a
    }
}

/// The first `n` pixels of RGB data merged with their alpha bytes: each
/// channel clamped to the alpha, then the alpha appended.
pub open spec fn merged_pixels(rgb: Seq<u8>, alpha: Seq<u8>, n: int) -> Seq<u8>
    decreases n,
{
    if n <= 0 {
        Seq::empty()
    } else {
        let a = alpha[n - 1];
        merged_pixels(rgb, alpha, n - 1).push(min_clamp(rgb[3 * (n - 1)], a)).push(
            min_clamp(rgb[3 * (n - 1) + 1], a),
        ).push(min_clamp(rgb[3 * (n - 1) + 2], a)).push(a)
    }
}

pub proof fn lemma_merged_pixels_len(rgb: Seq<u8>, alpha: Seq<u8>, n: int)
    requires
        n >= 0,
    ensures
        merged_pixels(rgb, alpha, n).len() == 4 * n,
    decreases n,
{
    if n > 0 {
        lemma_merged_pixels_len(rgb, alpha, n - 1);
    }
}

/// Merged pixels have the premultiplied shape: the clamp bounds every color
/// channel by its pixel's alpha byte.
pub proof fn lemma_merged_pixels_valid(rgb: Seq<u8>, alpha: Seq<u8>, n: int)
    requires
        n >= 0,
    ensures
        premultiplied_valid(merged_pixels(rgb, alpha, n)),
    decreases n,
{
    if n > 0 {
        lemma_merged_pixels_valid(rgb, alpha, n - 1);
        lemma_merged_pixels_len(rgb, alpha, n - 1);
        let t0 = merged_pixels(rgb, alpha, n - 1);
        let t = merged_pixels(rgb, alpha, n);
        let a = alpha[n - 1];
        assert forall|i: int|
            0 <= i < t.len() && i % 4 != 3 && 4 * (i / 4) + 3 < t.len() implies #[trigger] t[i] <= t[4 * (i
            / 4) + 3] by {
            if i < 4 * (n - 1) {
                assert(4 * (i / 4) + 3 < 4 * (n - 1));
                assert(t[i] == t0[i]);
                assert(t[4 * (i / 4) + 3] == t0[4 * (i / 4) + 3]);
            } else {
                assert(i / 4 == n - 1);
                assert(t[4 * (n - 1) + 3] == a);
            }
        }
    }
}

/// Combines normalized RGB with a decompressed alpha plane into RGBA, with
/// each channel clamped to the alpha. When the sizes disagree the alpha
/// plane is dropped and the RGB data returned as is: an explicit degrade,
/// not a failure.
pub fn merge_jpeg_alpha(width: u16, height: u16, rgb: Vec<u8>, alpha: Vec<u8>) -> (r: Bitmap)
    ensures
        r.width == width as u32,
        r.height == height as u32,
        3 * alpha@.len() == rgb@.len() ==> (r.format matches BitmapFormat::Rgba && r.pixels@
            == merged_pixels(rgb@, alpha@, alpha@.len() as int)),
        3 * alpha@.len() != rgb@.len() ==> (r.format matches BitmapFormat::Rgb && r.pixels@
            == rgb@),
        r.format matches BitmapFormat::Rgba ==> premultiplied_valid(r.pixels@),
{
    if rgb.len() % 3 == 0 && alpha.len() == rgb.len() / 3 {
        let n = alpha.len();
        let mut out: Vec<u8> = Vec::new();
        let mut p: usize = 0;
        while p < n
            invariant
                p <= n,
                3 * n == rgb@.len(),
                n == alpha@.len(),
                out@ == merged_pixels(rgb@, alpha@, p as int),
            decreases n - p,
        {
            let i = 3 * p;
            let a = alpha[p];
            out.push(min_clamp_exec(rgb[i], a));
            out.push(min_clamp_exec(rgb[i + 1], a));
            out.push(min_clamp_exec(rgb[i + 2], a));
            out.push(a);
            p += 1;
        }
        proof {
            lemma_merged_pixels_valid(rgb@, alpha@, n as int);
        }
        Bitmap::new(width as u32, height as u32, BitmapFormat::Rgba, out)
    } else {
        Bitmap::new(width as u32, height as u32, BitmapFormat::Rgb, rgb)
    }
}

fn min_clamp_exec(c: u8, a: u8) -> (r: u8)
    ensures
        r == min_clamp(c, a),
{
    if c < a {
        c
    } else {
        a
    }
}

/// What the external JPEG decoder reports for a stream: its dimensions, its
/// pixel layout, and the decoded bytes.
pub struct DecodedJpeg {
    pub width: u16,
    pub height: u16,
    pub format: JpegPixelFormat,
    pub data: Vec<u8>,
}

/// What a JPEG stream decodes to — `(width, height, pixel layout, bytes)` on
/// success, `None` when the stream is rejected. Decoding is a pure function
/// of the input bytes alone.
pub uninterp spec fn jpeg_decoded(s: Seq<u8>) -> Option<(u16, u16, JpegPixelFormat, Seq<u8>)>;

/// Relies on `jpeg_decoder::Decoder` (`read_info`, `info`, `decode`):
/// decoding is deterministic in the input bytes; on success the decoded
/// buffer holds one sample row-set per reported pixel, 3 bytes for RGB24,
/// 4 for CMYK32 and 1 for L8 (nothing is assumed of the unsupported L16
/// layout).
#[verifier::external_body]
fn decode_jpeg_raw(data: &[u8]) -> (r: Result<DecodedJpeg, jpeg_decoder::Error>)
    ensures
        r matches Ok(d) ==> jpeg_decoded(data@) == Some((d.width, d.height, d.format, d.data@)),
        r is Err ==> jpeg_decoded(data@) is None,
        r matches Ok(d) ==> (d.format matches JpegPixelFormat::Rgb24 ==> d.data@.len() == 3 * (
        d.width as int) * (d.height as int)),
        r matches Ok(d) ==> (d.format matches JpegPixelFormat::Cmyk32 ==> d.data@.len() == 4 * (
        d.width as int) * (d.height as int)),
        r matches Ok(d) ==> (d.format matches JpegPixelFormat::L8 ==> d.data@.len() == 1 * (
        d.width as int) * (d.height as int)),
{
    let mut decoder = jpeg_decoder::Decoder::new(data);
    decoder.read_info()?;
    let info = decoder.info().expect("info is available after read_info");
    let data = decoder.decode()?;
    let format = match info.pixel_format {
        jpeg_decoder::PixelFormat::RGB24 => JpegPixelFormat::Rgb24,
        jpeg_decoder::PixelFormat::CMYK32 => JpegPixelFormat::Cmyk32,
        jpeg_decoder::PixelFormat::L8 => JpegPixelFormat::L8,
        jpeg_decoder::PixelFormat::L16 => JpegPixelFormat::L16,
    };
    Ok(DecodedJpeg { width: info.width, height: info.height, format, data })
}

/// Decodes a JPEG stream with an optional zlib-compressed alpha plane,
/// after stripping invalid legacy marker data.
fn decode_jpeg(data: &[u8], alpha_data: Option<&[u8]>) -> (r: Result<Bitmap, DecodeError>)
    ensures
        jpeg_decoded(without_invalid(data@)) is None <==> r matches Err(
            DecodeError::JpegDecode(_),
        ),
        alpha_data is None ==> (jpeg_decoded(without_invalid(data@)) matches Some(d) ==> {
            &&& r matches Ok(bm)
            &&& bm.width == d.0 as u32
            &&& bm.height == d.1 as u32
            &&& bm.format matches BitmapFormat::Rgb
            &&& bm.pixels@ == normalized_jpeg(d.2, d.3)
        }),
        alpha_data matches Some(ad) ==> (jpeg_decoded(without_invalid(data@)) matches Some(d)
            ==> match inflated(ad@) {
            Some(al) => {
                &&& r matches Ok(bm)
                &&& bm.width == d.0 as u32
                &&& bm.height == d.1 as u32
                &&& (3 * al.len() == normalized_jpeg(d.2, d.3).len() ==> (bm.format matches
                    BitmapFormat::Rgba && bm.pixels@ == merged_pixels(
                    normalized_jpeg(d.2, d.3),
                    al,
                    al.len() as int,
                )))
                &&& (3 * al.len() != normalized_jpeg(d.2, d.3).len() ==> (bm.format matches
                    BitmapFormat::Rgb && bm.pixels@ == normalized_jpeg(d.2, d.3)))
            },
            None => r matches Err(DecodeError::InvalidZlibCompression),
        }),
        r matches Err(e) ==> (e matches DecodeError::JpegDecode(_) || e matches
            DecodeError::InvalidZlibCompression),
        r matches Err(DecodeError::InvalidZlibCompression) ==> (alpha_data matches Some(ad2)
            && inflated(ad2@) is None),
        r matches Ok(bm) ==> (bm.format matches BitmapFormat::Rgba ==> premultiplied_valid(
            bm.pixels@,
        )),
{
    let cleaned = remove_invalid_jpeg_data(data);
    let decoded = match decode_jpeg_raw(cleaned.as_slice()) {
        Ok(d) => d,
        Err(e) => {
            return Err(DecodeError::JpegDecode(e));
        },
    };
    let DecodedJpeg { width, height, format, data: raw } = decoded;
    let rgb = normalize_jpeg_color(format, raw);
    match alpha_data {
        Some(ad) => {
            let alpha = match decompress_zlib(ad) {
                Ok(a) => a,
                Err(e) => {
                    return Err(e);
                },
            };
            Ok(merge_jpeg_alpha(width, height, rgb, alpha))
        },
        None => Ok(Bitmap::new(width as u32, height as u32, BitmapFormat::Rgb, rgb)),
    }
}

/// Decodes the bitmap data of an image tag, whose payload may be JPEG, PNG
/// or GIF, selected by sniffing the magic prefix. JPEG data may carry a
/// separately compressed alpha plane.
pub fn decode_define_bits_jpeg(data: &[u8], alpha_data: Option<&[u8]>) -> (r: Result<
    Bitmap,
    DecodeError,
>)
    ensures
        sniffed_format(data@) matches JpegTagFormat::Unknown <==> r matches Err(
            DecodeError::UnknownType,
        ),
        sniffed_format(data@) matches JpegTagFormat::Jpeg ==> {
            &&& (jpeg_decoded(without_invalid(data@)) is None <==> r matches Err(
                DecodeError::JpegDecode(_),
            ))
            &&& (alpha_data is None ==> (jpeg_decoded(without_invalid(data@)) matches Some(d)
                ==> {
                &&& r matches Ok(bm)
                &&& bm.width == d.0 as u32
                &&& bm.height == d.1 as u32
                &&& bm.format matches BitmapFormat::Rgb
                &&& bm.pixels@ == normalized_jpeg(d.2, d.3)
            }))
            &&& (alpha_data matches Some(ad) ==> (jpeg_decoded(without_invalid(data@))
                matches Some(d) ==> match inflated(ad@) {
                Some(al) => {
                    &&& r matches Ok(bm)
                    &&& bm.width == d.0 as u32
                    &&& bm.height == d.1 as u32
                    &&& (3 * al.len() == normalized_jpeg(d.2, d.3).len() ==> (bm.format matches
                        BitmapFormat::Rgba && bm.pixels@ == merged_pixels(
                        normalized_jpeg(d.2, d.3),
                        al,
                        al.len() as int,
                    )))
                    &&& (3 * al.len() != normalized_jpeg(d.2, d.3).len() ==> (bm.format matches
                        BitmapFormat::Rgb && bm.pixels@ == normalized_jpeg(d.2, d.3)))
                },
                None => r matches Err(DecodeError::InvalidZlibCompression),
            }))
            &&& (r matches Err(e) ==> (e matches DecodeError::JpegDecode(_) || e matches
                DecodeError::InvalidZlibCompression))
        },
        sniffed_format(data@) matches JpegTagFormat::Png ==> {
            &&& (png_decoded(data@) is None <==> r matches Err(DecodeError::PngDecode(_)))
            &&& (r matches Err(e) ==> e matches DecodeError::PngDecode(_))
            &&& (png_decoded(data@) matches Some(p) ==> {
                &&& r matches Ok(bm)
                &&& bm.width == p.0
                &&& bm.height == p.1
                &&& match p.2 {
                    PngColor::Rgb => {
                        &&& bm.format matches BitmapFormat::Rgb
                        &&& bm.pixels@ == p.3
                    },
                    PngColor::Rgba => {
                        &&& bm.format matches BitmapFormat::Rgba
                        &&& bm.pixels@ == premultiplied_full(p.3)
                    },
                    PngColor::Grayscale => {
                        &&& bm.format matches BitmapFormat::Rgb
                        &&& bm.pixels@ == gray_pixels(p.3, p.3.len() as int)
                    },
                    PngColor::GrayscaleAlpha => {
                        &&& bm.format matches BitmapFormat::Rgba
                        &&& bm.pixels@ == gray_alpha_pixels(p.3, p.3.len() as int / 2)
                    },
                    PngColor::Indexed => true,
                }
            })
            &&& (r matches Ok(bm) ==> bm.wf())
        },
        sniffed_format(data@) matches JpegTagFormat::Gif ==> {
            &&& (gif_decoded(data@) is None <==> r matches Err(DecodeError::GifDecode(_)))
            &&& (gif_decoded(data@) matches Some(None) <==> r matches Err(DecodeError::EmptyGif))
            &&& (gif_decoded(data@) matches Some(Some(f)) ==> {
                &&& r matches Ok(bm)
                &&& bm.width == f.0 as u32
                &&& bm.height == f.1 as u32
                &&& bm.format matches BitmapFormat::Rgba
                &&& bm.pixels@ == premultiplied_full(f.2)
            })
            &&& (r matches Ok(bm) ==> (bm.wf() && bm.format matches BitmapFormat::Rgba))
        },
        r matches Err(DecodeError::InvalidZlibCompression) ==> (alpha_data matches Some(ad)
            && inflated(ad@) is None),
        r matches Ok(bm) ==> (bm.format matches BitmapFormat::Rgba ==> premultiplied_valid(
            bm.pixels@,
        )),
{
    let format = determine_jpeg_tag_format(data);
    match format {
        JpegTagFormat::Jpeg => decode_jpeg(data, alpha_data),
        JpegTagFormat::Png => decode_png(data),
        JpegTagFormat::Gif => decode_gif(data),
        JpegTagFormat::Unknown => Err(DecodeError::UnknownType),
    }
}

/// Copies `src[start..end]` into a fresh buffer.
fn copy_range(src: &[u8], start: usize, end: usize) -> (r: Vec<u8>)
    requires
        start <= end <= src@.len(),
    ensures
        r@ == src@.subrange(start as int, end as int),
{
    let mut out: Vec<u8> = Vec::new();
    let mut j: usize = start;
    proof {
        assert(out@ =~= src@.subrange(start as int, start as int));
    }
    while j < end
        invariant
            start <= j <= end,
            out@ == src@.subrange(start as int, j as int),
        decreases end - j,
    {
        out.push(src[j]);
        proof {
            assert(out@ =~= src@.subrange(start as int, j as int + 1));
        }
        j += 1;
    }
    out
}

/// Appends `src[start..end]` to `dst`.
fn append_range(dst: &mut Vec<u8>, src: &[u8], start: usize, end: usize)
    requires
        start <= end <= src@.len(),
    ensures
        final(dst)@ == old(dst)@ + src@.subrange(start as int, end as int),
{
    let mut j: usize = start;
    proof {
        assert(dst@ =~= dst@ + src@.subrange(start as int, start as int));
    }
    while j < end
        invariant
            start <= j <= end,
            dst@ == old(dst)@ + src@.subrange(start as int, j as int),
        decreases end - j,
    {
        dst.push(src[j]);
        proof {
            assert(dst@ =~= old(dst)@ + src@.subrange(start as int, j as int + 1));
        }
        j += 1;
    }
}

} // verus!
