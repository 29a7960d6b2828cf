//! Decompression of DEFLATE/zlib byte streams, used by the lossless path and
//! by the JPEG alpha-plane path.

use vstd::prelude::*;

use crate::error::DecodeError;

verus! {

/// What a zlib stream inflates to: `Some` of the decompressed bytes when the
/// stream is valid, `None` when it is not. Decompression is a pure function of
/// the input bytes alone.
pub uninterp spec fn inflated(s: Seq<u8>) -> Option<Seq<u8>>;

/// Relies on `flate2::bufread::ZlibDecoder` driven by `std::io::Read::
/// read_to_end`: inflating an in-memory zlib stream is deterministic, returns
/// the whole decompressed payload on success, and fails exactly on invalid
/// streams.
#[verifier::external_body]
pub(crate) fn decompress_zlib(data: &[u8]) -> (r: Result<Vec<u8>, DecodeError>)
    ensures
        r matches Ok(v) ==> inflated(data@) == Some(v@),
        r matches Err(e) ==> inflated(data@) is None && e matches DecodeError::InvalidZlibCompression,
{
    let mut out_data = Vec::new();
    let mut decoder = flate2::bufread::ZlibDecoder::new(data);
    std::io::Read::read_to_end(&mut decoder, &mut out_data)
        .map_err(|_| DecodeError::InvalidZlibCompression)?;
    out_data.shrink_to_fit();
    Ok(out_data)
}

} // verus!
