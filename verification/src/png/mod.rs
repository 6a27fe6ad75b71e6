//! Working with PNG data.
//!
//! Decoding goes in stages: [png_get_header](chunks::png_get_header) gives the
//! image header, [png_get_idat](chunks::png_get_idat) the compressed image
//! data, which (once zlib-decompressed) is unfiltered by
//! [unfilter_decompressed_data](chunks::IHDR::unfilter_decompressed_data).
//!
//! Spec violations that don't affect critical data are ignored: the signature
//! is not checked by the chunk iterator, chunk order and duplicate chunks are
//! not checked (you generally get the first one), and neither CRC32 nor Adler32
//! checksums are checked.

pub mod chunks;
pub mod interlace;
pub mod unfilter;
pub mod inflate;
pub mod png_error;
pub mod crc_chunks;
pub mod filtering;
pub mod decode;
