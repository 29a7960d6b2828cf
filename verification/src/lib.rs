//! Decoding of compressed bitmap payloads embedded in legacy vector-graphics
//! container tags (JPEG with optional alpha plane and shared tables, PNG, GIF,
//! and a bespoke zlib-compressed "lossless" raw pixel format) into one uniform
//! in-memory `Bitmap` value.
#![verifier::loop_isolation(false)]

pub mod alpha;
pub mod bitmap;
pub mod error;
pub mod jpeg;
pub mod lossless;
pub mod png_gif;
pub mod sniff;
pub mod zlib;

pub use alpha::{premultiply_alpha_rgba, unmultiply_alpha_rgba};
pub use bitmap::{Bitmap, BitmapFormat};
pub use error::DecodeError;
pub use jpeg::{decode_define_bits_jpeg, glue_tables_to_jpeg, remove_invalid_jpeg_data};
pub use lossless::{decode_define_bits_lossless, LosslessDescriptor, LosslessFormat};
pub use sniff::{determine_jpeg_tag_format, JpegTagFormat};
