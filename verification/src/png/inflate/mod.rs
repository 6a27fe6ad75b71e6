//! Zlib/deflate decompression of PNG image data.

pub mod bit_source;
pub mod tree_entry;
pub mod alphabets;
pub mod huff_symbol;
pub mod decompress;
pub mod deflate_stream;
