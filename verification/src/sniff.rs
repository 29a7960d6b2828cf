//! Classification of a tag payload as JPEG, PNG or GIF from its magic prefix.

use vstd::prelude::*;

verus! {

/// The format of image data in a bitmap tag. Generally this is JPEG, but
/// these tags can also contain PNG and GIF data.
#[derive(Debug, Copy, Clone, PartialEq, Eq, Structural)]
pub enum JpegTagFormat {
    Jpeg,
    Png,
    Gif,
    Unknown,
}

/// True when `s` begins with the two-byte JPEG start-of-image marker.
pub open spec fn is_jpeg_prefix(s: Seq<u8>) -> bool {
    s.len() >= 2 && s[0] == 0xffu8 && s[1] == 0xd8u8
}

/// True when `s` begins with the erroneous four-byte header that legacy
/// encoders could emit before the JPEG start-of-image marker.
pub open spec fn is_erroneous_jpeg_prefix(s: Seq<u8>) -> bool {
    s.len() >= 4 && s[0] == 0xffu8 && s[1] == 0xd9u8 && s[2] == 0xffu8 && s[3] == 0xd8u8
}

/// True when `s` begins with the eight-byte PNG signature.
pub open spec fn is_png_prefix(s: Seq<u8>) -> bool {
    s.len() >= 8 && s[0] == 0x89u8 && s[1] == 0x50u8 && s[2] == 0x4eu8 && s[3] == 0x47u8
        && s[4] == 0x0du8 && s[5] == 0x0au8 && s[6] == 0x1au8 && s[7] == 0x0au8
}

/// True when `s` begins with the six-byte "GIF89a" signature.
pub open spec fn is_gif_prefix(s: Seq<u8>) -> bool {
    s.len() >= 6 && s[0] == 0x47u8 && s[1] == 0x49u8 && s[2] == 0x46u8 && s[3] == 0x38u8
        && s[4] == 0x39u8 && s[5] == 0x61u8
}

/// The classification of a byte buffer by its magic prefix. Buffers matching
/// no known signature are `Unknown`; that is a valid result, not an error.
pub open spec fn sniffed_format(s: Seq<u8>) -> JpegTagFormat {
    if is_jpeg_prefix(s) || is_erroneous_jpeg_prefix(s) {
        JpegTagFormat::Jpeg
    } else if is_png_prefix(s) {
        JpegTagFormat::Png
    } else if is_gif_prefix(s) {
        JpegTagFormat::Gif
    } else {
        JpegTagFormat::Unknown
    }
}

/// Determines the format of the image data in `data` from its magic prefix.
pub fn determine_jpeg_tag_format(data: &[u8]) -> (r: JpegTagFormat)
    ensures
        r == sniffed_format(data@),
{
    let n = data.len();
    if n >= 2 && data[0] == 0xff && data[1] == 0xd8 {
        JpegTagFormat::Jpeg
    } else if n >= 4 && data[0] == 0xff && data[1] == 0xd9 && data[2] == 0xff && data[3] == 0xd8 {
        JpegTagFormat::Jpeg
    } else if n >= 8 && data[0] == 0x89 && data[1] == 0x50 && data[2] == 0x4e && data[3] == 0x47
        && data[4] == 0x0d && data[5] == 0x0a && data[6] == 0x1a && data[7] == 0x0a {
        JpegTagFormat::Png
    } else if n >= 6 && data[0] == 0x47 && data[1] == 0x49 && data[2] == 0x46 && data[3] == 0x38
        && data[4] == 0x39 && data[5] == 0x61 {
        JpegTagFormat::Gif
    } else {
        JpegTagFormat::Unknown
    }
}

} // verus!
