//! Adapters for embedded PNG and GIF payloads: the external decoders do the
//! entropy decoding, and their color types are normalized to RGB/RGBA with
//! premultiplication applied (these payloads never arrive premultiplied).

use vstd::prelude::*;

use crate::alpha::{
    lemma_premultiplied_full_valid, premul_channel, premultiplied_full, premultiplied_valid,
    premultiply_alpha_rgba,
};
use crate::bitmap::{Bitmap, BitmapFormat};
use crate::error::DecodeError;
use crate::jpeg::{expand_gray3, gray_pixels};

verus! {

/// The color type the external PNG decoder reports for its output.
#[derive(Debug, Copy, Clone, PartialEq, Eq, Structural)]
pub enum PngColor {
    Rgb,
    Rgba,
    Grayscale,
    GrayscaleAlpha,
    Indexed,
}

/// Samples per pixel of a reported PNG color type.
pub open spec fn png_samples(color: PngColor) -> int {
    match color {
        PngColor::Rgb => 3,
        PngColor::Rgba => 4,
        PngColor::Grayscale => 1,
        PngColor::GrayscaleAlpha => 2,
        PngColor::Indexed => 1,
    }
}

/// What the external PNG decoder reports for a stream: the frame dimensions,
/// the normalized color type, and the decoded bytes.
pub struct DecodedPng {
    pub width: u32,
    pub height: u32,
    pub color: PngColor,
    pub data: Vec<u8>,
}

/// What a PNG stream decodes to under the 8-bit normalizing transformation —
/// `(width, height, color type, bytes)` on success, `None` when the stream
/// is rejected. Decoding is a pure function of the input bytes alone.
pub uninterp spec fn png_decoded(s: Seq<u8>) -> Option<(u32, u32, PngColor, Seq<u8>)>;

/// Relies on `png::Decoder` with `Transformations::normalize_to_color8`
/// (`EXPAND | STRIP_16`): decoding is deterministic in the input bytes; the
/// output is 8-bit, paletted images are expanded so the reported color type
/// is never `Indexed`, and the decoded frame holds
/// `samples * width * height` bytes (`OutputInfo::buffer_size`, with
/// `line_size == samples * width` at 8-bit depth).
#[verifier::external_body]
fn decode_png_raw(data: &[u8]) -> (r: Result<DecodedPng, png::DecodingError>)
    ensures
        r matches Ok(d) ==> png_decoded(data@) == Some((d.width, d.height, d.color, d.data@)),
        r is Err ==> png_decoded(data@) is None,
        r matches Ok(d) ==> !(d.color matches PngColor::Indexed),
        r matches Ok(d) ==> d.data@.len() == png_samples(d.color) * (d.width as int) * (
        d.height as int),
{
    let mut decoder = png::Decoder::new(data);
    decoder.set_transformations(png::Transformations::normalize_to_color8());
    let mut reader = decoder.read_info()?;
    let mut buf = vec![0u8; reader.output_buffer_size()];
    let info = reader.next_frame(&mut buf)?;
    buf.truncate(info.buffer_size());
    let color = match info.color_type {
        png::ColorType::Rgb => PngColor::Rgb,
        png::ColorType::Rgba => PngColor::Rgba,
        png::ColorType::Grayscale => PngColor::Grayscale,
        png::ColorType::GrayscaleAlpha => PngColor::GrayscaleAlpha,
        png::ColorType::Indexed => PngColor::Indexed,
    };
    Ok(DecodedPng { width: info.width, height: info.height, color, data: buf })
}

/// The first `n` gray-alpha pairs of `s` premultiplied and expanded to RGBA.
pub open spec fn gray_alpha_pixels(s: Seq<u8>, n: int) -> Seq<u8>
    decreases n,
{
    if n <= 0 {
        Seq::empty()
    } else {
        let v = premul_channel(s[2 * (n - 1)], s[2 * (n - 1) + 1]);
        gray_alpha_pixels(s, n - 1).push(v).push(v).push(v).push(s[2 * (n - 1) + 1])
    }
}

pub proof fn lemma_gray_alpha_pixels_len(s: Seq<u8>, n: int)
    requires
        n >= 0,
    ensures
        gray_alpha_pixels(s, n).len() == 4 * n,
    decreases n,
{
    if n > 0 {
        lemma_gray_alpha_pixels_len(s, n - 1);
    }
}

/// Premultiplied gray-alpha pixels have the premultiplied shape: each gray
/// channel is bounded by its pixel's alpha byte.
pub proof fn lemma_gray_alpha_pixels_valid(s: Seq<u8>, n: int)
    requires
        n >= 0,
    ensures
        premultiplied_valid(gray_alpha_pixels(s, n)),
    decreases n,
{
    if n > 0 {
        lemma_gray_alpha_pixels_valid(s, n - 1);
        lemma_gray_alpha_pixels_len(s, n - 1);
        let t0 = gray_alpha_pixels(s, n - 1);
        let t = gray_alpha_pixels(s, n);
        let a = s[2 * (n - 1) + 1];
        assert forall|i: int|
            0 <= i < t.len() && i % 4 != 3 && 4 * (i / 4) + 3 < t.len() implies #[trigger] t[i] <= t[4 * (i
            / 4) + 3] by {
            if i < 4 * (n - 1) {
                assert(4 * (i / 4) + 3 < 4 * (n - 1));
                assert(t[i] == t0[i]);
                assert(t[4 * (i / 4) + 3] == t0[4 * (i / 4) + 3]);
            } else {
                assert(i / 4 == n - 1);
                assert(t[4 * (n - 1) + 3] == a);
                crate::alpha::lemma_premul_channel_le_alpha(s[2 * (n - 1)], a);
            }
        }
    }
}

/// Expands each gray-alpha pair to a premultiplied RGBA pixel.
fn expand_gray_alpha(data: &Vec<u8>) -> (r: Vec<u8>)
    ensures
        r@ == gray_alpha_pixels(data@, data@.len() as int / 2),
        r@.len() == 4 * (data@.len() as int / 2),
{
    let n = data.len() / 2;
    let mut out: Vec<u8> = Vec::new();
    let mut p: usize = 0;
    while p < n
        invariant
            p <= n,
            out@ == gray_alpha_pixels(data@, p as int),
            out@.len() == 4 * p,
        decreases n - p,
    {
        let i = 2 * p;
        let a = data[i + 1];
        let v = premul_gray_exec(data[i], a);
        out.push(v);
        out.push(v);
        out.push(v);
        out.push(a);
        p += 1;
    }
    out
}

fn premul_gray_exec(c: u8, a: u8) -> (r: u8)
    ensures
        r == premul_channel(c, a),
{
    proof {
        vstd::arithmetic::mul::lemma_mul_upper_bound(c as int, 255, a as int, 255);
    }
    ((c as u16 * a as u16) / 255) as u8
}

/// Decodes an embedded PNG payload and normalizes the reported color type to
/// RGB or premultiplied RGBA.
pub(crate) fn decode_png(data: &[u8]) -> (r: Result<Bitmap, DecodeError>)
    ensures
        png_decoded(data@) is None <==> r matches Err(DecodeError::PngDecode(_)),
        r matches Err(e) ==> e matches DecodeError::PngDecode(_),
        png_decoded(data@) matches Some(p) ==> !(p.2 matches PngColor::Indexed),
        png_decoded(data@) matches Some(p) ==> {
            &&& r matches Ok(bm)
            &&& bm.width == p.0
            &&& bm.height == p.1
            &&& match p.2 {
                PngColor::Rgb => {
                    &&& bm.format matches BitmapFormat::Rgb
                    &&& bm.pixels@ == p.3
                },
                PngColor::Rgba => {
                    &&& bm.format matches BitmapFormat::Rgba
                    &&& bm.pixels@ == premultiplied_full(p.3)
                },
                PngColor::Grayscale => {
                    &&& bm.format matches BitmapFormat::Rgb
                    &&& bm.pixels@ == gray_pixels(p.3, p.3.len() as int)
                },
                PngColor::GrayscaleAlpha => {
                    &&& bm.format matches BitmapFormat::Rgba
                    &&& bm.pixels@ == gray_alpha_pixels(p.3, p.3.len() as int / 2)
                },
                PngColor::Indexed => true,
            }
        },
        r matches Ok(bm) ==> bm.wf(),
        r matches Ok(bm) ==> (bm.format matches BitmapFormat::Rgba ==> premultiplied_valid(
            bm.pixels@,
        )),
{
    let decoded = match decode_png_raw(data) {
        Ok(d) => d,
        Err(e) => {
            return Err(DecodeError::PngDecode(e));
        },
    };
    let DecodedPng { width, height, color, data: px } = decoded;
    match color {
        PngColor::Rgb => {
            proof {
                assert(3 * (width as int) * (height as int) == (width as int) * (height as int)
                    * 3) by (nonlinear_arith);
            }
            Ok(Bitmap::new(width, height, BitmapFormat::Rgb, px))
        },
        PngColor::Rgba => {
            let mut px = px;
            let ghost orig = px@;
            premultiply_alpha_rgba(&mut px);
            proof {
                assert(4 * (width as int) * (height as int) == (width as int) * (height as int)
                    * 4) by (nonlinear_arith);
                lemma_premultiplied_full_valid(orig);
            }
            Ok(Bitmap::new(width, height, BitmapFormat::Rgba, px))
        },
        PngColor::Grayscale => {
            let rgb = expand_gray3(&px);
            proof {
                assert(3 * (1 * (width as int) * (height as int)) == (width as int) * (
                height as int) * 3) by (nonlinear_arith);
            }
            Ok(Bitmap::new(width, height, BitmapFormat::Rgb, rgb))
        },
        PngColor::GrayscaleAlpha => {
            let rgba = expand_gray_alpha(&px);
            proof {
                assert(4 * ((2 * (width as int) * (height as int)) / 2) == (width as int) * (
                height as int) * 4) by (nonlinear_arith);
                lemma_gray_alpha_pixels_valid(px@, px@.len() as int / 2);
            }
            Ok(Bitmap::new(width, height, BitmapFormat::Rgba, rgba))
        },
        PngColor::Indexed => {
            // The palette-expanding transformation rules this arm out.
            proof {
                assert(false);
            }
            Err(DecodeError::UnknownType)
        },
    }
}

/// The first frame the external GIF decoder produced: its dimensions and its
/// RGBA bytes.
pub struct DecodedGif {
    pub width: u16,
    pub height: u16,
    pub data: Vec<u8>,
}

/// What a GIF stream decodes to with RGBA output — the outer `Option` is
/// `None` when the decoder rejects the stream, the inner one is `None` when
/// the stream holds no frame, else `(width, height, bytes)` of the first
/// frame. Decoding is a pure function of the input bytes alone.
pub uninterp spec fn gif_decoded(s: Seq<u8>) -> Option<Option<(u16, u16, Seq<u8>)>>;

/// Relies on `gif::DecodeOptions` with `ColorOutput::RGBA` and
/// `read_next_frame`: decoding is deterministic in the input bytes; a
/// decoded frame's buffer holds four bytes per pixel of the frame's declared
/// dimensions; `None` means the stream holds no frame.
#[verifier::external_body]
fn decode_gif_raw(data: &[u8]) -> (r: Result<Option<DecodedGif>, gif::DecodingError>)
    ensures
        r matches Ok(f) ==> (f matches Some(d) ==> gif_decoded(data@) == Some(
            Some((d.width, d.height, d.data@)),
        )),
        r matches Ok(f) ==> (f is None ==> gif_decoded(data@) == Some(
            None::<(u16, u16, Seq<u8>)>,
        )),
        r is Err ==> gif_decoded(data@) is None,
        r matches Ok(f) ==> (f matches Some(d) ==> d.data@.len() == 4 * (d.width as int) * (
        d.height as int)),
{
    let mut options = gif::DecodeOptions::new();
    options.set_color_output(gif::ColorOutput::RGBA);
    let mut reader = options.read_info(data)?;
    match reader.read_next_frame()? {
        Some(frame) => Ok(
            Some(
                DecodedGif {
                    width: frame.width,
                    height: frame.height,
                    data: frame.buffer.to_vec(),
                },
            ),
        ),
        None => Ok(None),
    }
}

/// Decodes the first frame of an embedded GIF payload and premultiplies it.
/// A stream with no frame at all is an empty-image error.
pub(crate) fn decode_gif(data: &[u8]) -> (r: Result<Bitmap, DecodeError>)
    ensures
        gif_decoded(data@) is None <==> r matches Err(DecodeError::GifDecode(_)),
        gif_decoded(data@) matches Some(None) <==> r matches Err(DecodeError::EmptyGif),
        gif_decoded(data@) matches Some(Some(f)) ==> {
            &&& r matches Ok(bm)
            &&& bm.width == f.0 as u32
            &&& bm.height == f.1 as u32
            &&& bm.format matches BitmapFormat::Rgba
            &&& bm.pixels@ == premultiplied_full(f.2)
        },
        r matches Ok(bm) ==> {
            &&& bm.wf()
            &&& bm.format matches BitmapFormat::Rgba
            &&& premultiplied_valid(bm.pixels@)
        },
        r matches Err(e) ==> (e matches DecodeError::GifDecode(_) || e matches
            DecodeError::EmptyGif),
{
    let frame = match decode_gif_raw(data) {
        Ok(Some(f)) => f,
        Ok(None) => {
            return Err(DecodeError::EmptyGif);
        },
        Err(e) => {
            return Err(DecodeError::GifDecode(e));
        },
    };
    let DecodedGif { width, height, data: mut px } = frame;
    let ghost orig = px@;
    premultiply_alpha_rgba(&mut px);
    proof {
        assert(4 * (width as int) * (height as int) == (width as int) * (height as int) * 4)
            by (nonlinear_arith);
        lemma_premultiplied_full_valid(orig);
    }
    Ok(Bitmap::new(width as u32, height as u32, BitmapFormat::Rgba, px))
}

} // verus!
