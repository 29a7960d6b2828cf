//! The failure modes of the decode paths, and the declarations of the outside
//! decoders' error types that they carry.

use vstd::prelude::*;

verus! {

#[verifier::external_type_specification]
#[verifier::external_body]
pub struct ExJpegDecoderError(jpeg_decoder::Error);

#[verifier::external_type_specification]
#[verifier::external_body]
pub struct ExPngDecodingError(png::DecodingError);

#[verifier::external_type_specification]
#[verifier::external_body]
pub struct ExGifDecodingError(gif::DecodingError);

/// Why a decode call was aborted. Several conditions are deliberately not
/// errors but silent degradations: an alpha-plane size mismatch falls back to
/// RGB, and 16-bit grayscale JPEG data passes through raw.
#[derive(Debug)]
pub enum DecodeError {
    /// The payload matched no known signature, so no decoder path was chosen.
    UnknownType,
    /// A valid but unimplemented (version, layout) pair of the lossless format.
    UnsupportedLosslessFormat(u8, crate::lossless::LosslessFormat),
    /// The GIF decoder returned zero frames.
    EmptyGif,
    /// A zlib stream failed to decompress, or decompressed to fewer bytes than
    /// the declared dimensions of a lossless bitmap require.
    InvalidZlibCompression,
    /// The external JPEG decoder rejected the stream.
    JpegDecode(jpeg_decoder::Error),
    /// The external PNG decoder rejected the stream.
    PngDecode(png::DecodingError),
    /// The external GIF decoder rejected the stream.
    GifDecode(gif::DecodingError),
}

} // verus!
