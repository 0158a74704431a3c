//! Minimal PNG decoder: chunk scanner, zlib/DEFLATE inflater, scanline
//! unfilterer and sub-byte unpacker, exposed through a small image handle.
#![allow(non_camel_case_types)]

pub mod bits;
pub mod chunks;
pub mod decoder;
pub mod filter;
pub mod huffman;
pub mod inflate;
pub mod types;
