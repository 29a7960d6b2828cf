use swf_bitmap::bitmap::BitmapFormat;
use swf_bitmap::error::DecodeError;
use swf_bitmap::jpeg::decode_define_bits_jpeg;

fn encode_png(width: u32, height: u32, color: png::ColorType, pixels: &[u8]) -> Vec<u8> {
    let mut out = Vec::new();
    {
        let mut encoder = png::Encoder::new(&mut out, width, height);
        encoder.set_color(color);
        encoder.set_depth(png::BitDepth::Eight);
        let mut writer = encoder.write_header().expect("header writes");
        writer.write_image_data(pixels).expect("pixels write");
    }
    out
}

#[test]
fn embedded_rgba_png_is_premultiplied() {
    let data = encode_png(1, 2, png::ColorType::Rgba, &[255, 0, 0, 128, 0, 255, 0, 255]);
    let bitmap = decode_define_bits_jpeg(&data, None).expect("decodes");
    assert_eq!(bitmap.width, 1);
    assert_eq!(bitmap.height, 2);
    assert_eq!(bitmap.format, BitmapFormat::Rgba);
    assert_eq!(bitmap.pixels, vec![128, 0, 0, 128, 0, 255, 0, 255]);
}

#[test]
fn embedded_rgb_png_passes_through() {
    let data = encode_png(2, 1, png::ColorType::Rgb, &[1, 2, 3, 4, 5, 6]);
    let bitmap = decode_define_bits_jpeg(&data, None).expect("decodes");
    assert_eq!(bitmap.format, BitmapFormat::Rgb);
    assert_eq!(bitmap.pixels, vec![1, 2, 3, 4, 5, 6]);
}

#[test]
fn embedded_grayscale_png_expands_to_rgb() {
    let data = encode_png(2, 1, png::ColorType::Grayscale, &[9, 200]);
    let bitmap = decode_define_bits_jpeg(&data, None).expect("decodes");
    assert_eq!(bitmap.format, BitmapFormat::Rgb);
    assert_eq!(bitmap.pixels, vec![9, 9, 9, 200, 200, 200]);
}

#[test]
fn embedded_grayscale_alpha_png_is_premultiplied_rgba() {
    let data = encode_png(1, 1, png::ColorType::GrayscaleAlpha, &[200, 128]);
    let bitmap = decode_define_bits_jpeg(&data, None).expect("decodes");
    assert_eq!(bitmap.format, BitmapFormat::Rgba);
    // 200 * 128 / 255 = 100 truncating.
    assert_eq!(bitmap.pixels, vec![100, 100, 100, 128]);
}

#[test]
fn corrupt_png_is_decoder_error() {
    let mut data = encode_png(1, 1, png::ColorType::Rgb, &[1, 2, 3]);
    data.truncate(12);
    let r = decode_define_bits_jpeg(&data, None);
    assert!(matches!(r, Err(DecodeError::PngDecode(_))));
}

#[test]
fn embedded_gif_first_frame_is_decoded() {
    let mut out = Vec::new();
    {
        let mut pixels = vec![255, 0, 0, 255, 0, 0, 255, 255];
        let frame = gif::Frame::from_rgba(2, 1, &mut pixels);
        let mut encoder = gif::Encoder::new(&mut out, 2, 1, &[]).expect("encoder opens");
        encoder.write_frame(&frame).expect("frame writes");
    }
    let bitmap = decode_define_bits_jpeg(&out, None).expect("decodes");
    assert_eq!(bitmap.width, 2);
    assert_eq!(bitmap.height, 1);
    assert_eq!(bitmap.format, BitmapFormat::Rgba);
    assert_eq!(bitmap.pixels, vec![255, 0, 0, 255, 0, 0, 255, 255]);
}

#[test]
fn gif_without_frames_is_an_error() {
    // A syntactically complete GIF stream holding a screen descriptor and
    // the trailer, but no image frame at all. The external decoder refuses
    // such a stream while reading the header, before the empty-image check
    // can fire.
    let data = [
        0x47, 0x49, 0x46, 0x38, 0x39, 0x61, // "GIF89a"
        0x01, 0x00, 0x01, 0x00, // 1 x 1 logical screen
        0x00, 0x00, 0x00, // no global color table
        0x3b, // trailer
    ];
    let r = decode_define_bits_jpeg(&data, None);
    assert!(matches!(r, Err(DecodeError::GifDecode(_)) | Err(DecodeError::EmptyGif)));
}

#[test]
fn corrupt_gif_is_decoder_error() {
    let data = b"GIF89a\x01\x02";
    let r = decode_define_bits_jpeg(data, None);
    assert!(matches!(r, Err(DecodeError::GifDecode(_))));
}

#[test]
fn alpha_data_does_not_affect_non_jpeg_payloads() {
    // Separate alpha planes belong to the JPEG tag variant only; for PNG
    // data the result is the same whether alpha data is supplied or not.
    let data = encode_png(1, 2, png::ColorType::Rgba, &[255, 0, 0, 128, 0, 255, 0, 255]);
    let with_alpha = decode_define_bits_jpeg(&data, Some(&[1, 2, 3])).expect("decodes");
    let without = decode_define_bits_jpeg(&data, None).expect("decodes");
    assert_eq!(with_alpha.width, without.width);
    assert_eq!(with_alpha.height, without.height);
    assert_eq!(with_alpha.format, without.format);
    assert_eq!(with_alpha.pixels, without.pixels);
}
