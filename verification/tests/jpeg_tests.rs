use std::io::Write;

use swf_bitmap::bitmap::BitmapFormat;
use swf_bitmap::error::DecodeError;
use swf_bitmap::jpeg::{
    decode_define_bits_jpeg, glue_tables_to_jpeg, merge_jpeg_alpha, normalize_jpeg_color,
    remove_invalid_jpeg_data, JpegPixelFormat,
};

#[test]
fn glue_without_tables_returns_body() {
    let body = [0xff, 0xd8, 1, 2, 3, 0xff, 0xd9];
    assert_eq!(glue_tables_to_jpeg(&body, None), body.to_vec());
}

#[test]
fn glue_splices_tables_before_body() {
    let tables = [0xff, 0xd8, 9, 9, 0xff, 0xd9];
    let body = [0xff, 0xd8, 1, 2, 3];
    let glued = glue_tables_to_jpeg(&body, Some(&tables));
    assert_eq!(glued, vec![0xff, 0xd8, 9, 9, 1, 2, 3]);
    assert_eq!(glued.len(), tables.len() - 2 + (body.len() - 2));
}

#[test]
fn glue_with_short_tables_returns_body() {
    let body = [1u8, 2, 3];
    assert_eq!(glue_tables_to_jpeg(&body, Some(&[0xff])), body.to_vec());
}

#[test]
fn glue_with_short_body_keeps_tables_only() {
    let tables = [7u8, 8, 0xff, 0xd9];
    assert_eq!(glue_tables_to_jpeg(&[1u8], Some(&tables)), vec![7, 8]);
}

#[test]
fn remove_strips_leading_marker_only_once() {
    let data = [0xff, 0xd9, 0xff, 0xd8, 0xff, 0xd8, 1, 2];
    assert_eq!(remove_invalid_jpeg_data(&data), vec![0xff, 0xd8, 1, 2]);
}

#[test]
fn remove_excises_one_embedded_marker() {
    let data = [1u8, 2, 0xff, 0xd9, 0xff, 0xd8, 3, 4];
    assert_eq!(remove_invalid_jpeg_data(&data), vec![1, 2, 3, 4]);
}

#[test]
fn remove_excises_only_the_first_embedded_marker() {
    let data = [1u8, 0xff, 0xd9, 0xff, 0xd8, 2, 0xff, 0xd9, 0xff, 0xd8, 3];
    assert_eq!(
        remove_invalid_jpeg_data(&data),
        vec![1, 2, 0xff, 0xd9, 0xff, 0xd8, 3]
    );
}

#[test]
fn remove_without_marker_is_identity() {
    let data = [0xff, 0xd8, 5, 6, 7];
    assert_eq!(remove_invalid_jpeg_data(&data), data.to_vec());
}

#[test]
fn remove_leading_then_embedded_marker() {
    let data = [0xff, 0xd9, 0xff, 0xd8, 1, 0xff, 0xd9, 0xff, 0xd8, 2];
    assert_eq!(remove_invalid_jpeg_data(&data), vec![1, 2]);
}

#[test]
fn cmyk_normalization_follows_integer_formula() {
    // c = 255 - C, m = 255 - M, y = 255 - Y, k = 256 - K,
    // channel = c * k / 255 truncating, stored as a byte.
    // C=0, M=0, Y=0, K=255: k = 1, so each channel is 255 * 1 / 255 = 1.
    assert_eq!(
        normalize_jpeg_color(JpegPixelFormat::Cmyk32, vec![0, 0, 0, 255]),
        vec![1, 1, 1]
    );
    // K=1 gives k = 255, so each channel is 255 * 255 / 255 = 255.
    assert_eq!(
        normalize_jpeg_color(JpegPixelFormat::Cmyk32, vec![0, 0, 0, 1]),
        vec![255, 255, 255]
    );
    // K=0 gives k = 256 and 255 * 256 / 255 = 256, stored as the byte 0.
    assert_eq!(
        normalize_jpeg_color(JpegPixelFormat::Cmyk32, vec![0, 0, 0, 0]),
        vec![0, 0, 0]
    );
    // C=M=Y=255 zeroes the additive channels whatever K holds.
    assert_eq!(
        normalize_jpeg_color(JpegPixelFormat::Cmyk32, vec![255, 255, 255, 128]),
        vec![0, 0, 0]
    );
    // Mixed channels, K=155: k = 101; 155*101/255 = 61, 205*101/255 = 81.
    assert_eq!(
        normalize_jpeg_color(JpegPixelFormat::Cmyk32, vec![100, 50, 100, 155]),
        vec![61, 81, 61]
    );
}

#[test]
fn rgb24_passes_through() {
    let data = vec![1u8, 2, 3, 4, 5, 6];
    assert_eq!(normalize_jpeg_color(JpegPixelFormat::Rgb24, data.clone()), data);
}

#[test]
fn l8_expands_to_rgb() {
    assert_eq!(
        normalize_jpeg_color(JpegPixelFormat::L8, vec![7, 200]),
        vec![7, 7, 7, 200, 200, 200]
    );
}

#[test]
fn l16_passes_through_raw() {
    let data = vec![1u8, 2, 3, 4];
    assert_eq!(normalize_jpeg_color(JpegPixelFormat::L16, data.clone()), data);
}

#[test]
fn alpha_merge_clamps_channels_to_alpha() {
    let bitmap = merge_jpeg_alpha(1, 1, vec![100, 200, 30], vec![50]);
    assert_eq!(bitmap.format, BitmapFormat::Rgba);
    assert_eq!(bitmap.pixels, vec![50, 50, 30, 50]);
    assert_eq!(bitmap.width, 1);
    assert_eq!(bitmap.height, 1);
}

#[test]
fn alpha_merge_size_mismatch_degrades_to_rgb() {
    // Two alpha bytes against one RGB pixel: the alpha plane is dropped, not
    // an error.
    let bitmap = merge_jpeg_alpha(1, 1, vec![10, 20, 30], vec![50, 60]);
    assert_eq!(bitmap.format, BitmapFormat::Rgb);
    assert_eq!(bitmap.pixels, vec![10, 20, 30]);
}

#[test]
fn decode_unknown_data_is_unknown_type() {
    let r = decode_define_bits_jpeg(&[1, 2, 3, 4], None);
    assert!(matches!(r, Err(DecodeError::UnknownType)));
    let r = decode_define_bits_jpeg(&[], Some(&[0, 1]));
    assert!(matches!(r, Err(DecodeError::UnknownType)));
}

#[test]
fn decode_truncated_jpeg_is_decoder_error() {
    let r = decode_define_bits_jpeg(&[0xff, 0xd8, 0x00, 0x01, 0x02], None);
    assert!(matches!(r, Err(DecodeError::JpegDecode(_))));
}

/// A minimal baseline JPEG: 1x1, single grayscale component, all-zero DCT
/// coefficients, so the decoded sample is the level-shift value 128.
fn tiny_gray_jpeg() -> Vec<u8> {
    let mut data = Vec::new();
    data.extend_from_slice(&[0xff, 0xd8]); // SOI
    data.extend_from_slice(&[0xff, 0xdb, 0x00, 0x43, 0x00]); // DQT
    data.extend_from_slice(&[1u8; 64]);
    // SOF0: 8-bit precision, 1x1, one component, no subsampling.
    data.extend_from_slice(&[
        0xff, 0xc0, 0x00, 0x0b, 0x08, 0x00, 0x01, 0x00, 0x01, 0x01, 0x01, 0x11, 0x00,
    ]);
    // DC table 0: one 1-bit code for symbol 0.
    data.extend_from_slice(&[0xff, 0xc4, 0x00, 0x14, 0x00, 0x01]);
    data.extend_from_slice(&[0u8; 15]);
    data.push(0x00);
    // AC table 0: one 1-bit code for symbol 0 (end of block).
    data.extend_from_slice(&[0xff, 0xc4, 0x00, 0x14, 0x10, 0x01]);
    data.extend_from_slice(&[0u8; 15]);
    data.push(0x00);
    // SOS, then the entropy-coded bits `0` (DC category 0) and `0` (EOB),
    // padded with ones.
    data.extend_from_slice(&[0xff, 0xda, 0x00, 0x08, 0x01, 0x01, 0x00, 0x00, 0x3f, 0x00, 0x3f]);
    data.extend_from_slice(&[0xff, 0xd9]); // EOI
    data
}

fn zlib_compress(raw: &[u8]) -> Vec<u8> {
    let mut encoder = flate2::write::ZlibEncoder::new(Vec::new(), flate2::Compression::default());
    encoder.write_all(raw).expect("compression writes");
    encoder.finish().expect("compression finishes")
}

#[test]
fn decode_jpeg_without_alpha_is_rgb() {
    let r = decode_define_bits_jpeg(&tiny_gray_jpeg(), None);
    match r {
        Ok(bitmap) => {
            assert_eq!(bitmap.width, 1);
            assert_eq!(bitmap.height, 1);
            assert_eq!(bitmap.format, BitmapFormat::Rgb);
            assert_eq!(bitmap.pixels, vec![128, 128, 128]);
        }
        Err(e) => panic!("decode failed: {:?}", e),
    }
}

#[test]
fn decode_jpeg_with_alpha_clamps_and_appends() {
    let alpha = zlib_compress(&[64]);
    let r = decode_define_bits_jpeg(&tiny_gray_jpeg(), Some(&alpha));
    match r {
        Ok(bitmap) => {
            assert_eq!(bitmap.format, BitmapFormat::Rgba);
            // Channels are clamped to the alpha byte before it is appended.
            assert_eq!(bitmap.pixels, vec![64, 64, 64, 64]);
        }
        Err(e) => panic!("decode failed: {:?}", e),
    }
}

#[test]
fn decode_jpeg_with_bad_alpha_stream_is_zlib_error() {
    let r = decode_define_bits_jpeg(&tiny_gray_jpeg(), Some(&[9, 9, 9]));
    assert!(matches!(r, Err(DecodeError::InvalidZlibCompression)));
}

#[test]
fn decode_jpeg_with_mismatched_alpha_degrades_to_rgb() {
    let alpha = zlib_compress(&[64, 65, 66]);
    let r = decode_define_bits_jpeg(&tiny_gray_jpeg(), Some(&alpha));
    match r {
        Ok(bitmap) => {
            assert_eq!(bitmap.format, BitmapFormat::Rgb);
            assert_eq!(bitmap.pixels, vec![128, 128, 128]);
        }
        Err(e) => panic!("decode failed: {:?}", e),
    }
}
