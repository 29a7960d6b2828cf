use std::io::Write;

use swf_bitmap::bitmap::BitmapFormat;
use swf_bitmap::error::DecodeError;
use swf_bitmap::lossless::{decode_define_bits_lossless, LosslessDescriptor, LosslessFormat};

fn zlib_compress(raw: &[u8]) -> Vec<u8> {
    let mut encoder = flate2::write::ZlibEncoder::new(Vec::new(), flate2::Compression::default());
    encoder.write_all(raw).expect("compression writes");
    encoder.finish().expect("compression finishes")
}

fn descriptor(version: u8, format: LosslessFormat, width: u16, height: u16, raw: &[u8]) -> LosslessDescriptor {
    LosslessDescriptor {
        version,
        format,
        width,
        height,
        data: zlib_compress(raw),
    }
}

#[test]
fn rgb32_version1_forces_opaque_alpha() {
    let tag = descriptor(1, LosslessFormat::Rgb32, 2, 1, &[0, 10, 20, 30, 0, 40, 50, 60]);
    let bitmap = decode_define_bits_lossless(&tag).expect("decodes");
    assert_eq!(bitmap.width, 2);
    assert_eq!(bitmap.height, 1);
    assert_eq!(bitmap.format, BitmapFormat::Rgba);
    assert_eq!(bitmap.pixels, vec![10, 20, 30, 255, 40, 50, 60, 255]);
}

#[test]
fn rgb32_version2_keeps_stored_alpha() {
    let tag = descriptor(2, LosslessFormat::Rgb32, 2, 1, &[9, 10, 20, 30, 0, 40, 50, 60]);
    let bitmap = decode_define_bits_lossless(&tag).expect("decodes");
    assert_eq!(bitmap.pixels, vec![10, 20, 30, 9, 40, 50, 60, 0]);
}

#[test]
fn colormap8_version2_out_of_range_index_is_transparent_black() {
    // num_colors = 1 stores a palette of two 4-byte entries; index 5 is out
    // of range.
    let raw = [10, 20, 30, 40, 50, 60, 70, 80, 1, 5];
    let tag = descriptor(2, LosslessFormat::ColorMap8 { num_colors: 1 }, 2, 1, &raw);
    let bitmap = decode_define_bits_lossless(&tag).expect("decodes");
    assert_eq!(bitmap.format, BitmapFormat::Rgba);
    assert_eq!(bitmap.pixels, vec![50, 60, 70, 80, 0, 0, 0, 0]);
}

#[test]
fn colormap8_version1_out_of_range_index_is_opaque_black() {
    // Two 3-byte entries, alpha forced opaque; index 5 is out of range.
    let raw = [10, 20, 30, 50, 60, 70, 5, 0];
    let tag = descriptor(1, LosslessFormat::ColorMap8 { num_colors: 1 }, 2, 1, &raw);
    let bitmap = decode_define_bits_lossless(&tag).expect("decodes");
    assert_eq!(bitmap.pixels, vec![0, 0, 0, 255, 10, 20, 30, 255]);
}

#[test]
fn colormap8_rows_pad_to_four_index_bytes() {
    // Width 1, height 2: each row of index bytes occupies four bytes; the
    // final row's padding is not required.
    let raw = [10, 20, 30, 50, 60, 70, 0, 99, 99, 99, 1];
    let tag = descriptor(1, LosslessFormat::ColorMap8 { num_colors: 1 }, 1, 2, &raw);
    let bitmap = decode_define_bits_lossless(&tag).expect("decodes");
    assert_eq!(bitmap.pixels, vec![10, 20, 30, 255, 50, 60, 70, 255]);
}

#[test]
fn rgb15_expands_five_bit_channels() {
    // The word 0x7fff holds 31 in each 5-bit field; (31*255+15)/31 == 255.
    let tag = descriptor(1, LosslessFormat::Rgb15, 1, 1, &[0x7f, 0xff]);
    let bitmap = decode_define_bits_lossless(&tag).expect("decodes");
    assert_eq!(bitmap.pixels, vec![255, 255, 255, 255]);
}

#[test]
fn rgb15_rows_pad_to_even_pixels() {
    // Width 1, height 2: rows are padded to two pixels (four bytes); the
    // last row's padding is not required. 0x7c00 is full red.
    let raw = [0x00, 0x00, 0xee, 0xee, 0x7c, 0x00];
    let tag = descriptor(1, LosslessFormat::Rgb15, 1, 2, &raw);
    let bitmap = decode_define_bits_lossless(&tag).expect("decodes");
    assert_eq!(bitmap.pixels, vec![0, 0, 0, 255, 255, 0, 0, 255]);
}

#[test]
fn unsupported_version_is_typed_error() {
    let tag = descriptor(3, LosslessFormat::Rgb32, 1, 1, &[0, 1, 2, 3]);
    let r = decode_define_bits_lossless(&tag);
    assert!(matches!(
        r,
        Err(DecodeError::UnsupportedLosslessFormat(3, LosslessFormat::Rgb32))
    ));
}

#[test]
fn rgb15_under_version2_is_typed_error() {
    let tag = descriptor(2, LosslessFormat::Rgb15, 1, 1, &[0x7f, 0xff]);
    let r = decode_define_bits_lossless(&tag);
    assert!(matches!(
        r,
        Err(DecodeError::UnsupportedLosslessFormat(2, LosslessFormat::Rgb15))
    ));
}

#[test]
fn invalid_zlib_stream_is_error() {
    let tag = LosslessDescriptor {
        version: 1,
        format: LosslessFormat::Rgb32,
        width: 1,
        height: 1,
        data: vec![1, 2, 3],
    };
    let r = decode_define_bits_lossless(&tag);
    assert!(matches!(r, Err(DecodeError::InvalidZlibCompression)));
}

#[test]
fn truncated_pixel_data_is_error() {
    // Three bytes cannot hold the one declared 4-byte pixel.
    let tag = descriptor(1, LosslessFormat::Rgb32, 1, 1, &[0, 1, 2]);
    let r = decode_define_bits_lossless(&tag);
    assert!(matches!(r, Err(DecodeError::InvalidZlibCompression)));
}

#[test]
fn zero_sized_image_decodes_empty() {
    let tag = descriptor(1, LosslessFormat::Rgb32, 0, 7, &[]);
    let bitmap = decode_define_bits_lossless(&tag).expect("decodes");
    assert_eq!(bitmap.pixels, Vec::<u8>::new());
    assert_eq!(bitmap.width, 0);
    assert_eq!(bitmap.height, 7);
}
